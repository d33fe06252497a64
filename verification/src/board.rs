//! The cards of all repositories: the snapshot that every reader shares.
use crate::cards::{page_slice, page_start, take_page};
use crate::error::{ApiError, ErrorView};
use crate::github::bad_page;
use crate::model::{Card, CardView, OverviewPage, RepositoryCard, RepositoryCardView};
use crate::order::{
    lemma_precedes_total, lemma_precedes_transitive, precedes, sorts, stable_sort, text_precedes,
    Ranked,
};
use crate::text::{
    copy_list, equal_ignoring_case, same_ignoring_case, same_text, split_at_char, split_once,
    texts,
};
use vstd::prelude::*;

verus! {

/// How long a snapshot is fresh, in nanoseconds.
pub const BOARD_SNAPSHOT_TTL: u64 = 60_000_000_000;

/// A card that was found, with the repository that it belongs to.
#[derive(Debug)]
pub struct ReadyCard {
    pub repo: String,
    pub card: Card,
}

impl View for ReadyCard {
    type V = RepositoryCardView;

    open spec fn view(&self) -> RepositoryCardView {
        RepositoryCardView { repo: self.repo@, card: self.card@ }
    }
}

impl Clone for ReadyCard {
    fn clone(&self) -> (copy: ReadyCard)
        ensures
            copy@ == self@,
    {
        ReadyCard { repo: self.repo.clone(), card: self.card.clone() }
    }
}

/// What each of a sequence of cards says.
pub open spec fn entries(cards: Seq<ReadyCard>) -> Seq<RepositoryCardView> {
    cards.map_values(|card: ReadyCard| card@)
}

/// Copies of some cards.
fn copy_cards(cards: &Vec<ReadyCard>) -> (copy: Vec<ReadyCard>)
    ensures
        entries(copy@) == entries(cards@),
{
    let mut copy: Vec<ReadyCard> = Vec::new();
    let mut i: usize = 0;
    while i < cards.len()
        invariant
            i <= cards@.len(),
            entries(copy@) == entries(cards@).take(i as int),
        decreases cards@.len() - i,
    {
        let ghost before = copy@;
        copy.push(cards[i].clone());
        assert(entries(copy@) == entries(before).push(cards@[i as int]@));
        assert(entries(cards@).take(i + 1) == entries(cards@).take(i as int).push(
            cards@[i as int]@,
        ));
        i += 1;
    }
    assert(entries(cards@).take(i as int) == entries(cards@));
    copy
}

/// The same issue: the repository's name in any letter case, and the number.
pub open spec fn same_issue(entry: RepositoryCardView, repo: Seq<char>, number: u64) -> bool {
    same_ignoring_case(entry.repo, repo) && entry.card.number == number
}

/// Some entry is this issue.
pub open spec fn has_issue(entries: Seq<RepositoryCardView>, repo: Seq<char>, number: u64) -> bool {
    exists|i: int| 0 <= i < entries.len() && same_issue(#[trigger] entries[i], repo, number)
}

/// No issue is there twice.
pub open spec fn distinct(entries: Seq<RepositoryCardView>) -> bool {
    forall|i: int, j: int|
        0 <= i < j < entries.len() ==> !same_issue(
            #[trigger] entries[i],
            (#[trigger] entries[j]).repo,
            entries[j].card.number,
        )
}

/// Whether some card is this issue.
pub fn contains_issue(cards: &Vec<ReadyCard>, repo: &str, number: u64) -> (found: bool)
    ensures
        found == has_issue(entries(cards@), repo@, number),
{
    let mut i: usize = 0;
    while i < cards.len()
        invariant
            i <= cards@.len(),
            forall|k: int|
                0 <= k < i ==> !same_issue(#[trigger] entries(cards@)[k], repo@, number),
        decreases cards@.len() - i,
    {
        if equal_ignoring_case(cards[i].repo.as_str(), repo) && cards[i].card.number == number {
            assert(same_issue(entries(cards@)[i as int], repo@, number));
            return true;
        }
        i += 1;
    }
    false
}

// ---------------------------------------------------------------------------------------------
// A refresh that reached only some owners
// ---------------------------------------------------------------------------------------------

/// A repository of one of the owners, in any letter case.
pub open spec fn owned_by(repo: Seq<char>, owners: Seq<Seq<char>>) -> bool {
    match split_once(repo, '/') {
        Some((owner, _)) => exists|i: int|
            0 <= i < owners.len() && same_ignoring_case(#[trigger] owners[i], owner),
        None => false,
    }
}

/// The fresh cards, and of the previous ones those whose owner could not be reached.
pub open spec fn merged(
    previous: Seq<RepositoryCardView>,
    fresh: Seq<RepositoryCardView>,
    unavailable: Seq<Seq<char>>,
) -> Seq<RepositoryCardView>
    decreases previous.len(),
{
    if previous.len() == 0 {
        fresh
    } else {
        let so_far = merged(previous.drop_last(), fresh, unavailable);
        let entry = previous.last();
        if owned_by(entry.repo, unavailable) && !has_issue(so_far, entry.repo, entry.card.number) {
            so_far.push(entry)
        } else {
            so_far
        }
    }
}

/// The previous cards, if there are any.
pub open spec fn maybe_entries(cards: Option<&Vec<ReadyCard>>) -> Seq<RepositoryCardView> {
    match cards {
        Some(cards) => entries(cards@),
        None => seq![],
    }
}

fn is_owned_by(repo: &str, owners: &Vec<String>) -> (yes: bool)
    ensures
        yes == owned_by(repo@, texts(owners@)),
{
    match split_at_char(repo, '/') {
        Some((owner, name)) => {
            let mut i: usize = 0;
            while i < owners.len()
                invariant
                    split_once(repo@, '/') == Some((owner@, name@)),
                    i <= owners@.len(),
                    forall|k: int|
                        0 <= k < i ==> !same_ignoring_case(#[trigger] texts(owners@)[k], owner@),
                decreases owners@.len() - i,
            {
                if equal_ignoring_case(owners[i].as_str(), owner.as_str()) {
                    assert(same_ignoring_case(texts(owners@)[i as int], owner@));
                    return true;
                }
                i += 1;
            }
            false
        },
        None => false,
    }
}

/// The fresh cards, and of the previous ones those whose owner could not be reached.
pub fn merge_partial_cards(
    previous: Option<&Vec<ReadyCard>>,
    fresh: Vec<ReadyCard>,
    unavailable_owners: &Vec<String>,
) -> (result: Vec<ReadyCard>)
    ensures
        entries(result@) == merged(
            maybe_entries(previous),
            entries(fresh@),
            texts(unavailable_owners@),
        ),
{
    let mut result = fresh;
    if let Some(cards) = previous {
        let ghost old_entries = entries(cards@);
        let mut i: usize = 0;
        assert(old_entries.take(0) == Seq::<RepositoryCardView>::empty());
        while i < cards.len()
            invariant
                old_entries == entries(cards@),
                i <= cards@.len(),
                entries(result@) == merged(
                    old_entries.take(i as int),
                    entries(fresh@),
                    texts(unavailable_owners@),
                ),
            decreases cards@.len() - i,
        {
            let entry = &cards[i];
            let ghost before = result@;
            assert(old_entries.take(i + 1).drop_last() == old_entries.take(i as int));
            assert(old_entries.take(i + 1).last() == entry@);
            if is_owned_by(entry.repo.as_str(), unavailable_owners) && !contains_issue(
                &result,
                entry.repo.as_str(),
                entry.card.number,
            ) {
                result.push(entry.clone());
                assert(entries(result@) == entries(before).push(entry@));
            }
            i += 1;
        }
        assert(old_entries.take(i as int) == old_entries);
    }
    result
}

/// After a partial refresh every fresh card is there, in its place; every other card is a previous
/// one of an owner that could not be reached.
pub proof fn a_partial_refresh_keeps_the_unreachable(
    previous: Seq<RepositoryCardView>,
    fresh: Seq<RepositoryCardView>,
    unavailable: Seq<Seq<char>>,
)
    ensures
        merged(previous, fresh, unavailable).len() >= fresh.len(),
        merged(previous, fresh, unavailable).take(fresh.len() as int) == fresh,
        forall|i: int|
            fresh.len() <= i < merged(previous, fresh, unavailable).len() ==> previous.contains(
                #[trigger] merged(previous, fresh, unavailable)[i],
            ) && owned_by(merged(previous, fresh, unavailable)[i].repo, unavailable),
        forall|k: int|
            0 <= k < previous.len() && owned_by(#[trigger] previous[k].repo, unavailable)
                ==> has_issue(
                merged(previous, fresh, unavailable),
                previous[k].repo,
                previous[k].card.number,
            ),
    decreases previous.len(),
{
    let all = merged(previous, fresh, unavailable);
    if previous.len() == 0 {
        assert(all.take(fresh.len() as int) == fresh);
    } else {
        let earlier = previous.drop_last();
        let so_far = merged(earlier, fresh, unavailable);
        let entry = previous.last();
        a_partial_refresh_keeps_the_unreachable(earlier, fresh, unavailable);
        assert(all.take(fresh.len() as int) == so_far.take(fresh.len() as int));
        assert(previous[previous.len() - 1] == entry);
        assert forall|i: int| fresh.len() <= i < all.len() implies previous.contains(
            #[trigger] all[i],
        ) && owned_by(all[i].repo, unavailable) by {
            if i < so_far.len() {
                assert(so_far[i] == all[i]);
                let k = choose|k: int| 0 <= k < earlier.len() && earlier[k] == so_far[i];
                assert(previous[k] == all[i]);
            }
        }
        assert forall|k: int|
            0 <= k < previous.len() && owned_by(
                #[trigger] previous[k].repo,
                unavailable,
            ) implies has_issue(all, previous[k].repo, previous[k].card.number) by {
            let wanted = previous[k];
            if k < earlier.len() {
                assert(earlier[k] == wanted);
                let j = choose|j: int|
                    0 <= j < so_far.len() && same_issue(
                        #[trigger] so_far[j],
                        wanted.repo,
                        wanted.card.number,
                    );
                assert(all[j] == so_far[j]);
            } else if has_issue(so_far, entry.repo, entry.card.number) {
                let j = choose|j: int|
                    0 <= j < so_far.len() && same_issue(
                        #[trigger] so_far[j],
                        entry.repo,
                        entry.card.number,
                    );
                assert(all[j] == so_far[j]);
            } else {
                assert(same_issue(all[so_far.len() as int], entry.repo, entry.card.number));
            }
        }
    }
}

/// A partial refresh lists no issue twice, where the fresh cards do not.
pub proof fn a_partial_refresh_lists_no_issue_twice(
    previous: Seq<RepositoryCardView>,
    fresh: Seq<RepositoryCardView>,
    unavailable: Seq<Seq<char>>,
)
    requires
        distinct(fresh),
    ensures
        distinct(merged(previous, fresh, unavailable)),
    decreases previous.len(),
{
    if previous.len() > 0 {
        let so_far = merged(previous.drop_last(), fresh, unavailable);
        let entry = previous.last();
        a_partial_refresh_lists_no_issue_twice(previous.drop_last(), fresh, unavailable);
        lemma_push_distinct(so_far, entry);
    }
}

/// One more issue that is not there yet leaves the issues distinct.
pub proof fn lemma_push_distinct(entries: Seq<RepositoryCardView>, entry: RepositoryCardView)
    requires
        distinct(entries),
    ensures
        !has_issue(entries, entry.repo, entry.card.number) ==> distinct(entries.push(entry)),
{
    if !has_issue(entries, entry.repo, entry.card.number) {
        let all = entries.push(entry);
        assert forall|i: int, j: int| 0 <= i < j < all.len() implies !same_issue(
            #[trigger] all[i],
            (#[trigger] all[j]).repo,
            all[j].card.number,
        ) by {
            assert(all[i] == entries[i]);
            if j < entries.len() {
                assert(all[j] == entries[j]);
            }
        }
    }
}

// ---------------------------------------------------------------------------------------------
// The snapshot
// ---------------------------------------------------------------------------------------------

/// The cards as they were found, and when; `refreshed_at` counts nanoseconds from any fixed point.
#[derive(Debug)]
pub struct BoardSnapshot {
    pub cards: Vec<ReadyCard>,
    pub partial: bool,
    pub unavailable_owners: Vec<String>,
    pub refreshed_at: u64,
}

/// What a [`BoardSnapshot`] says.
#[verifier::ext_equal]
pub struct SnapshotView {
    pub cards: Seq<RepositoryCardView>,
    pub partial: bool,
    pub unavailable_owners: Seq<Seq<char>>,
    pub refreshed_at: u64,
}

impl View for BoardSnapshot {
    type V = SnapshotView;

    open spec fn view(&self) -> SnapshotView {
        SnapshotView {
            cards: entries(self.cards@),
            partial: self.partial,
            unavailable_owners: texts(self.unavailable_owners@),
            refreshed_at: self.refreshed_at,
        }
    }
}

impl Clone for BoardSnapshot {
    fn clone(&self) -> (copy: BoardSnapshot)
        ensures
            copy@ == self@,
    {
        BoardSnapshot {
            cards: copy_cards(&self.cards),
            partial: self.partial,
            unavailable_owners: copy_list(&self.unavailable_owners),
            refreshed_at: self.refreshed_at,
        }
    }
}

/// Less than 60 seconds have passed; a clock that stands before the refresh counts as none.
pub open spec fn fresh_at(refreshed_at: u64, now: u64) -> bool {
    now < refreshed_at || now - refreshed_at < BOARD_SNAPSHOT_TTL
}

impl BoardSnapshot {
    /// Whether the snapshot is fresh.
    pub fn is_fresh(&self, now: u64) -> (yes: bool)
        ensures
            yes == fresh_at(self.refreshed_at, now),
    {
        now < self.refreshed_at || now - self.refreshed_at < BOARD_SNAPSHOT_TTL
    }
}

/// What a search that reached some owner found.
pub struct BoardSearchResult {
    pub cards: Vec<ReadyCard>,
    pub unavailable_owners: Vec<String>,
}

/// Why a search found nothing.
pub struct BoardSearchFailure {
    pub error: ApiError,
    pub unavailable_owners: Vec<String>,
}

/// What a search came to.
pub enum SearchOutcome {
    Found(BoardSearchResult),
    Failed(BoardSearchFailure),
}

/// The snapshot that a search leads to: what it found, with the previous cards of the owners that
/// it did not reach; or the previous cards where it failed.
pub open spec fn refreshed(
    previous: Option<SnapshotView>,
    outcome: SearchOutcome,
    now: u64,
) -> Result<SnapshotView, ErrorView> {
    match outcome {
        SearchOutcome::Found(result) => {
            let unavailable = texts(result.unavailable_owners@);
            let before = match previous {
                Some(snapshot) => snapshot.cards,
                None => seq![],
            };
            Ok(
                SnapshotView {
                    cards: if unavailable.len() > 0 {
                        merged(before, entries(result.cards@), unavailable)
                    } else {
                        entries(result.cards@)
                    },
                    partial: unavailable.len() > 0,
                    unavailable_owners: unavailable,
                    refreshed_at: now,
                },
            )
        },
        SearchOutcome::Failed(failure) => match previous {
            Some(snapshot) => Ok(
                SnapshotView {
                    cards: snapshot.cards,
                    partial: true,
                    unavailable_owners: texts(failure.unavailable_owners@),
                    refreshed_at: now,
                },
            ),
            None => Err(failure.error@),
        },
    }
}

/// What an optional snapshot says.
pub open spec fn maybe_snapshot(snapshot: Option<BoardSnapshot>) -> Option<SnapshotView> {
    match snapshot {
        Some(snapshot) => Some(snapshot@),
        None => None,
    }
}

/// The cards of other issues.
pub open spec fn other_issues(repo: Seq<char>, number: u64) -> spec_fn(RepositoryCardView) -> bool {
    |entry: RepositoryCardView| !same_issue(entry, repo, number)
}

/// The cards with one of them brought up to date.
pub open spec fn upserted(
    cards: Seq<RepositoryCardView>,
    repo: Seq<char>,
    card: CardView,
) -> Seq<RepositoryCardView> {
    cards.filter(other_issues(repo, card.number)).push(RepositoryCardView { repo, card })
}

/// The cards that are ready to be worked on.
pub open spec fn is_ready() -> spec_fn(RepositoryCardView) -> bool {
    |entry: RepositoryCardView| entry.card.column == Some("board:ready"@)
}

/// GitHub as the service sees it: the snapshot of the board, once there is one.
pub struct Github {
    pub board_snapshot: Option<BoardSnapshot>,
}

impl Default for Github {
    fn default() -> (github: Github)
        ensures
            github.board_snapshot is None,
    {
        Github { board_snapshot: None }
    }
}

impl Github {
    /// Whether there is a snapshot that can be shown without a new search.
    pub fn has_fresh_snapshot(&self, now: u64) -> (yes: bool)
        ensures
            yes == (self.board_snapshot is Some && fresh_at(
                self.board_snapshot->0.refreshed_at,
                now,
            )),
    {
        match &self.board_snapshot {
            Some(snapshot) => snapshot.is_fresh(now),
            None => false,
        }
    }

    /// Takes in what a search came to, and gives the snapshot that it leads to. Without a previous
    /// snapshot a failed search is an error, and nothing is kept of it.
    pub fn refresh(&mut self, outcome: SearchOutcome, now: u64) -> (result: Result<
        BoardSnapshot,
        ApiError,
    >)
        ensures
            match result {
                Ok(snapshot) => refreshed(maybe_snapshot(old(self).board_snapshot), outcome, now)
                    == Ok::<SnapshotView, ErrorView>(snapshot@) && maybe_snapshot(
                    final(self).board_snapshot,
                ) == Some(snapshot@),
                Err(error) => refreshed(maybe_snapshot(old(self).board_snapshot), outcome, now)
                    == Err::<SnapshotView, ErrorView>(error@) && maybe_snapshot(
                    final(self).board_snapshot,
                ) == maybe_snapshot(old(self).board_snapshot),
            },
    {
        let snapshot = match outcome {
            SearchOutcome::Found(result) => {
                let partial = result.unavailable_owners.len() > 0;
                let cards = if partial {
                    let previous = match &self.board_snapshot {
                        Some(snapshot) => Some(&snapshot.cards),
                        None => None,
                    };
                    merge_partial_cards(previous, result.cards, &result.unavailable_owners)
                } else {
                    result.cards
                };
                BoardSnapshot {
                    cards,
                    partial,
                    unavailable_owners: result.unavailable_owners,
                    refreshed_at: now,
                }
            },
            SearchOutcome::Failed(failure) => match &self.board_snapshot {
                Some(previous) => BoardSnapshot {
                    cards: copy_cards(&previous.cards),
                    partial: true,
                    unavailable_owners: failure.unavailable_owners,
                    refreshed_at: now,
                },
                None => {
                    return Err(failure.error);
                },
            },
        };
        let copy = snapshot.clone();
        self.board_snapshot = Some(snapshot);
        Ok(copy)
    }

    /// Brings one card of the snapshot up to date.
    pub fn upsert_snapshot_card(&mut self, repo: &str, card: &Card, now: u64)
        ensures
            maybe_snapshot(final(self).board_snapshot) == match maybe_snapshot(
                old(self).board_snapshot,
            ) {
                Some(snapshot) => Some(
                    (SnapshotView {
                        cards: upserted(snapshot.cards, repo@, card@),
                        refreshed_at: now,
                        ..snapshot
                    }),
                ),
                None => None,
            },
    {
        if let Some(snapshot) = &self.board_snapshot {
            let ghost all = entries(snapshot.cards@);
            let ghost keep = other_issues(repo@, card.number);
            let mut kept: Vec<ReadyCard> = Vec::new();
            let mut i: usize = 0;
            proof {
                reveal(Seq::filter);
                assert(all.take(0) == Seq::<RepositoryCardView>::empty());
            }
            while i < snapshot.cards.len()
                invariant
                    all == entries(snapshot.cards@),
                    keep == other_issues(repo@, card.number),
                    i <= snapshot.cards@.len(),
                    entries(kept@) == all.take(i as int).filter(keep),
                decreases snapshot.cards@.len() - i,
            {
                let entry = &snapshot.cards[i];
                let ghost before = kept@;
                proof {
                    reveal(Seq::filter);
                    assert(all.take(i + 1).drop_last() == all.take(i as int));
                    assert(all.take(i + 1).last() == entry@);
                }
                if !equal_ignoring_case(entry.repo.as_str(), repo) || entry.card.number
                    != card.number {
                    kept.push(entry.clone());
                    assert(entries(kept@) == entries(before).push(entry@));
                }
                i += 1;
            }
            assert(all.take(i as int) == all);
            let ghost before = kept@;
            kept.push(ReadyCard { repo: repo.to_owned(), card: card.clone() });
            assert(entries(kept@) == entries(before).push(
                RepositoryCardView { repo: repo@, card: card@ },
            ));
            let updated = BoardSnapshot {
                cards: kept,
                partial: snapshot.partial,
                unavailable_owners: copy_list(&snapshot.unavailable_owners),
                refreshed_at: now,
            };
            self.board_snapshot = Some(updated);
        }
    }

    /// The cards of a snapshot that are ready to be worked on.
    pub fn ready_cards(snapshot: &BoardSnapshot) -> (ready: Vec<ReadyCard>)
        ensures
            entries(ready@) == snapshot@.cards.filter(is_ready()),
    {
        let ghost all = entries(snapshot.cards@);
        let mut ready: Vec<ReadyCard> = Vec::new();
        let mut i: usize = 0;
        proof {
            reveal(Seq::filter);
            assert(all.take(0) == Seq::<RepositoryCardView>::empty());
        }
        while i < snapshot.cards.len()
            invariant
                all == entries(snapshot.cards@),
                i <= snapshot.cards@.len(),
                entries(ready@) == all.take(i as int).filter(is_ready()),
            decreases snapshot.cards@.len() - i,
        {
            let entry = &snapshot.cards[i];
            let ghost before = ready@;
            proof {
                reveal(Seq::filter);
                assert(all.take(i + 1).drop_last() == all.take(i as int));
                assert(all.take(i + 1).last() == entry@);
            }
            let keep = match &entry.card.column {
                Some(column) => same_text(column.as_str(), "board:ready"),
                None => false,
            };
            if keep {
                ready.push(entry.clone());
                assert(entries(ready@) == entries(before).push(entry@));
            }
            i += 1;
        }
        assert(all.take(i as int) == all);
        ready
    }

    /// One page of the cards of a snapshot: those updated last first, then by repository and
    /// number.
    pub fn overview_cards(snapshot: BoardSnapshot, page: usize, per_page: usize) -> (result: Result<
        OverviewPage,
        ApiError,
    >)
        requires
            page >= 1,
        ensures
            match result {
                Ok(result) => (page - 1) * per_page <= 5_000 && overview_page(
                    snapshot,
                    page as int,
                    per_page as int,
                    result,
                ),
                Err(error) => (page - 1) * per_page > 5_000 && error@ == bad_page(),
            },
    {
        match page_start(page, per_page) {
            Some(start) => {
                let sorted = stable_sort(snapshot.cards);
                let count: usize = sorted.len();
                let has_more = count > start && count - start > per_page;
                let ghost view = sorted@;
                let slice = take_page(sorted, start, per_page);
                let ghost wanted = slice@;
                let mut items: Vec<RepositoryCard> = Vec::new();
                for entry in iter: slice
                    invariant
                        iter.seq() == wanted,
                        items@.len() == iter.index(),
                        forall|k: int|
                            0 <= k < items@.len() ==> (#[trigger] items@[k]).repo == wanted[k].repo
                                && items@[k].card == wanted[k].card,
                {
                    items.push(RepositoryCard { repo: entry.repo, card: entry.card });
                }
                let result = OverviewPage {
                    items,
                    page,
                    per_page,
                    has_more,
                    partial: snapshot.partial,
                    unavailable_owners: snapshot.unavailable_owners,
                };
                assert(sorts(snapshot.cards@, view));
                assert(wanted == page_slice(view, (page - 1) * per_page, per_page as int));
                Ok(result)
            },
            None => Err(ApiError::bad_request("page_too_large", "requested page is too large")),
        }
    }
}

/// A page shows these cards, one for one.
pub open spec fn shows(items: Seq<RepositoryCard>, cards: Seq<ReadyCard>) -> bool {
    items.len() == cards.len() && forall|k: int|
        0 <= k < items.len() ==> (#[trigger] items[k]).repo == cards[k].repo && items[k].card
            == cards[k].card
}

/// One page of the cards of a snapshot.
pub open spec fn overview_page(
    snapshot: BoardSnapshot,
    page: int,
    per_page: int,
    result: OverviewPage,
) -> bool {
    let start = (page - 1) * per_page;
    &&& exists|sorted: Seq<ReadyCard>| #[trigger]
        sorts(snapshot.cards@, sorted) && shows(
            result.items@,
            page_slice(sorted, start, per_page),
        )
    &&& result.has_more == (snapshot.cards@.len() > start + per_page)
    &&& result.page == page
    &&& result.per_page == per_page
    &&& result.partial == snapshot.partial
    &&& result.unavailable_owners@ == snapshot.unavailable_owners@
}

impl Ranked for ReadyCard {
    /// What was updated last comes first, then by repository and number.
    open spec fn ranks(self, other: ReadyCard) -> bool {
        let mine = self.card.updated_at@;
        let theirs = other.card.updated_at@;
        ||| precedes(theirs, mine)
        ||| mine == theirs && precedes(self.repo@, other.repo@)
        ||| mine == theirs && self.repo@ == other.repo@ && self.card.number <= other.card.number
    }

    proof fn ranks_total(left: ReadyCard, right: ReadyCard) {
        lemma_precedes_total(left.card.updated_at@, right.card.updated_at@);
        lemma_precedes_total(left.repo@, right.repo@);
    }

    proof fn ranks_transitive(first: ReadyCard, second: ReadyCard, third: ReadyCard) {
        let a = first.card.updated_at@;
        let b = second.card.updated_at@;
        let c = third.card.updated_at@;
        if precedes(b, a) && precedes(c, b) {
            lemma_precedes_transitive(c, b, a);
        }
        if precedes(first.repo@, second.repo@) && precedes(second.repo@, third.repo@) {
            lemma_precedes_transitive(first.repo@, second.repo@, third.repo@);
        }
    }

    fn may_precede(&self, other: &ReadyCard) -> (yes: bool) {
        if !same_text(self.card.updated_at.as_str(), other.card.updated_at.as_str()) {
            proof {
                lemma_precedes_total(self.card.updated_at@, other.card.updated_at@);
            }
            return text_precedes(other.card.updated_at.as_str(), self.card.updated_at.as_str());
        }
        proof {
            lemma_precedes_total(self.card.updated_at@, other.card.updated_at@);
        }
        if !same_text(self.repo.as_str(), other.repo.as_str()) {
            return text_precedes(self.repo.as_str(), other.repo.as_str());
        }
        proof {
            lemma_precedes_total(self.repo@, other.repo@);
        }
        self.card.number <= other.card.number
    }
}

// ---------------------------------------------------------------------------------------------
// Laws
// ---------------------------------------------------------------------------------------------

/// The cards of several pages, one page behind the other.
pub open spec fn all_items(pages: Seq<OverviewPage>) -> Seq<RepositoryCard>
    decreases pages.len(),
{
    if pages.len() == 0 {
        seq![]
    } else {
        all_items(pages.drop_last()) + pages.last().items@
    }
}

/// The first pages of a snapshot together show the start of its sorted cards, and where the last of
/// them says that there are no more, all of them.
pub proof fn the_pages_together_show_the_board(
    snapshot: BoardSnapshot,
    per_page: int,
    pages: Seq<OverviewPage>,
    sorted: Seq<ReadyCard>,
)
    requires
        0 <= per_page,
        sorts(snapshot.cards@, sorted),
        forall|k: int|
            0 <= k < pages.len() ==> overview_page(
                snapshot,
                k + 1,
                per_page,
                #[trigger] pages[k],
            ),
    ensures
        shows(all_items(pages), page_slice(sorted, 0, pages.len() * per_page)),
        pages.len() > 0 && !pages.last().has_more ==> shows(all_items(pages), sorted),
    decreases pages.len(),
{
    crate::order::sorting_keeps_everything(snapshot.cards@, sorted);
    if pages.len() == 0 {
        assert(page_slice(sorted, 0, 0) == Seq::<ReadyCard>::empty());
    } else {
        let earlier = pages.drop_last();
        let last = pages.len() - 1;
        assert forall|k: int| 0 <= k < earlier.len() implies overview_page(
            snapshot,
            k + 1,
            per_page,
            #[trigger] earlier[k],
        ) by {
            assert(earlier[k] == pages[k]);
        }
        the_pages_together_show_the_board(snapshot, per_page, earlier, sorted);
        let page = pages[last];
        assert(overview_page(snapshot, last + 1, per_page, page));
        let start = last * per_page;
        assert((last + 1 - 1) * per_page == start);
        assert(pages.len() * per_page == start + per_page) by (nonlinear_arith)
            requires
                last == pages.len() - 1,
                start == last * per_page,
        ;
        assert(0 <= start) by (nonlinear_arith)
            requires
                start == last * per_page,
                0 <= last,
                0 <= per_page,
        ;
        let own = choose|own: Seq<ReadyCard>| #[trigger]
            sorts(snapshot.cards@, own) && shows(
                page.items@,
                page_slice(own, start, per_page),
            );
        crate::order::sorting_has_one_result(snapshot.cards@, own, sorted);
        assert(page_slice(sorted, 0, start) + page_slice(sorted, start, per_page) == page_slice(
            sorted,
            0,
            start + per_page,
        ));
        if !page.has_more {
            assert(page_slice(sorted, 0, start + per_page) == sorted);
        }
    }
}

/// Two pages of one snapshot, one behind the other, are one page of twice the size.
pub proof fn pages_follow_each_other<T>(items: Seq<T>, start: int, size: int)
    requires
        0 <= start,
        0 <= size,
    ensures
        page_slice(items, start, size) + page_slice(items, start + size, size) == page_slice(
            items,
            start,
            2 * size,
        ),
{
    assert(page_slice(items, start, size) + page_slice(items, start + size, size) == page_slice(
        items,
        start,
        2 * size,
    ));
}

/// A search that fails altogether does not blank the board: the previous cards stay, and the
/// snapshot says that it is partial.
pub proof fn a_failed_search_keeps_the_board(
    previous: SnapshotView,
    failure: BoardSearchFailure,
    now: u64,
)
    ensures
        refreshed(Some(previous), SearchOutcome::Failed(failure), now) matches Ok(snapshot)
            && snapshot.cards == previous.cards && snapshot.partial,
{
}

/// A snapshot is partial exactly where a search did not reach every owner or failed.
pub proof fn partial_snapshots_say_so(
    previous: Option<SnapshotView>,
    result: BoardSearchResult,
    now: u64,
)
    ensures
        refreshed(previous, SearchOutcome::Found(result), now) matches Ok(snapshot)
            && snapshot.partial == (result.unavailable_owners@.len() > 0)
            && snapshot.unavailable_owners == texts(result.unavailable_owners@),
{
}

/// Right after a refresh, and for less than 60 seconds, the snapshot is fresh.
pub proof fn a_snapshot_is_fresh_for_a_minute(refreshed_at: u64, now: u64)
    requires
        refreshed_at <= now,
    ensures
        fresh_at(refreshed_at, now) <==> now < refreshed_at + 60_000_000_000,
{
}

/// A card that is brought up to date is there once, as it is now.
pub proof fn an_updated_card_is_listed_once(
    cards: Seq<RepositoryCardView>,
    repo: Seq<char>,
    card: CardView,
)
    ensures
        upserted(cards, repo, card).last() == (RepositoryCardView { repo, card }),
        forall|i: int|
            0 <= i < upserted(cards, repo, card).len() - 1 ==> !same_issue(
                #[trigger] upserted(cards, repo, card)[i],
                repo,
                card.number,
            ),
{
    let keep = other_issues(repo, card.number);
    let kept = cards.filter(keep);
    assert forall|i: int| 0 <= i < upserted(cards, repo, card).len() - 1 implies !same_issue(
        #[trigger] upserted(cards, repo, card)[i],
        repo,
        card.number,
    ) by {
        cards.lemma_filter_pred(keep, i);
        assert(upserted(cards, repo, card)[i] == kept[i]);
    }
}

/// Where a search reached every owner, the board is what the search found, whatever it was before:
/// two boards that are refreshed with the same result are the same.
pub proof fn a_complete_search_replaces_the_board(
    previous: Option<SnapshotView>,
    other: Option<SnapshotView>,
    result: BoardSearchResult,
    now: u64,
)
    requires
        result.unavailable_owners@.len() == 0,
    ensures
        refreshed(previous, SearchOutcome::Found(result), now) matches Ok(snapshot)
            && snapshot.cards == entries(result.cards@) && !snapshot.partial
            && snapshot.unavailable_owners.len() == 0 && snapshot.refreshed_at == now,
        refreshed(previous, SearchOutcome::Found(result), now) == refreshed(
            other,
            SearchOutcome::Found(result),
            now,
        ),
{
}

/// Where a search did not reach some owners, the board holds every card that it found, and of the
/// cards that were there before those of exactly these owners, unless they were found anew.
pub proof fn a_partial_search_keeps_the_rest_of_the_board(
    previous: Option<SnapshotView>,
    result: BoardSearchResult,
    now: u64,
    entry: RepositoryCardView,
)
    requires
        result.unavailable_owners@.len() > 0,
    ensures
        refreshed(previous, SearchOutcome::Found(result), now) matches Ok(snapshot) && {
            let found = entries(result.cards@);
            let owners = texts(result.unavailable_owners@);
            &&& snapshot.partial
            &&& snapshot.refreshed_at == now
            &&& snapshot.unavailable_owners == owners
            &&& found.contains(entry) ==> snapshot.cards.contains(entry)
            &&& snapshot.cards.contains(entry) && !found.contains(entry) ==> (previous matches Some(
                before,
            ) && before.cards.contains(entry) && owned_by(entry.repo, owners))
            &&& (previous matches Some(before) && before.cards.contains(entry) && owned_by(
                entry.repo,
                owners,
            )) ==> has_issue(snapshot.cards, entry.repo, entry.card.number)
            &&& previous is None ==> snapshot.cards == found
        },
{
    let found = entries(result.cards@);
    let owners = texts(result.unavailable_owners@);
    let before = match previous {
        Some(snapshot) => snapshot.cards,
        None => seq![],
    };
    let all = merged(before, found, owners);
    a_partial_refresh_keeps_the_unreachable(before, found, owners);
    if found.contains(entry) {
        let i = choose|i: int| 0 <= i < found.len() && found[i] == entry;
        assert(all.take(found.len() as int)[i] == entry);
        assert(all[i] == entry);
    }
    if all.contains(entry) && !found.contains(entry) {
        let i = choose|i: int| 0 <= i < all.len() && all[i] == entry;
        if i < found.len() {
            assert(all.take(found.len() as int)[i] == entry);
        }
        assert(before.contains(all[i]));
    }
    if before.contains(entry) && owned_by(entry.repo, owners) {
        let k = choose|k: int| 0 <= k < before.len() && before[k] == entry;
        assert(owned_by(before[k].repo, owners));
    }
}

/// A search that fails leaves the cards as they were, with the owners that could not be reached;
/// without a board it is an error, the one that the search met.
pub proof fn a_failed_search_changes_no_card(
    previous: Option<SnapshotView>,
    failure: BoardSearchFailure,
    now: u64,
)
    ensures
        match refreshed(previous, SearchOutcome::Failed(failure), now) {
            Ok(snapshot) => previous matches Some(before) && snapshot.cards == before.cards
                && snapshot.partial && snapshot.refreshed_at == now && snapshot.unavailable_owners
                == texts(failure.unavailable_owners@),
            Err(error) => previous is None && error == failure.error@,
        },
{
}

/// A repository belongs to the owner before its slash, in any letter case; a name without a slash
/// belongs to nobody.
pub proof fn a_repository_belongs_to_its_owner(
    owner: Seq<char>,
    name: Seq<char>,
    owners: Seq<Seq<char>>,
    bare: Seq<char>,
)
    requires
        !owner.contains('/'),
        !bare.contains('/'),
    ensures
        owned_by(owner.push('/') + name, owners) <==> exists|i: int|
            0 <= i < owners.len() && crate::text::lower(#[trigger] owners[i]) == crate::text::lower(
                owner,
            ),
        !owned_by(bare, owners),
{
    crate::text::a_joined_text_is_split_there(owner, '/', name);
    crate::text::a_joined_text_is_split_there(bare, '/', name);
    if owned_by(owner.push('/') + name, owners) {
        let i = choose|i: int|
            0 <= i < owners.len() && same_ignoring_case(#[trigger] owners[i], owner);
        assert(crate::text::lower(owners[i]) == crate::text::lower(owner));
    }
    if exists|i: int|
        0 <= i < owners.len() && crate::text::lower(#[trigger] owners[i]) == crate::text::lower(
            owner,
        ) {
        let i = choose|i: int|
            0 <= i < owners.len() && crate::text::lower(#[trigger] owners[i])
                == crate::text::lower(owner);
        assert(same_ignoring_case(owners[i], owner));
    }
}

/// An issue is the same where the number is, and the repository's name is in some letter case.
pub proof fn issues_are_told_apart(entry: RepositoryCardView, repo: Seq<char>, number: u64)
    ensures
        same_issue(entry, repo, number) <==> crate::text::lower(entry.repo) == crate::text::lower(
            repo,
        ) && entry.card.number == number,
{
}

/// A card that is brought up to date changes no card of another issue: all of them stay, in their
/// order, and where the issue was not on the board it comes in addition.
pub proof fn an_update_changes_no_other_card(
    cards: Seq<RepositoryCardView>,
    repo: Seq<char>,
    card: CardView,
    entry: RepositoryCardView,
)
    ensures
        !same_issue(entry, repo, card.number) ==> (upserted(cards, repo, card).contains(entry)
            <==> cards.contains(entry)),
        upserted(cards, repo, card).contains(RepositoryCardView { repo, card }),
        !has_issue(cards, repo, card.number) ==> upserted(cards, repo, card) == cards.push(
            RepositoryCardView { repo, card },
        ),
        upserted(cards, repo, card).filter(other_issues(repo, card.number)) == cards.filter(
            other_issues(repo, card.number),
        ),
{
    let keep = other_issues(repo, card.number);
    let kept = cards.filter(keep);
    let new = RepositoryCardView { repo, card };
    let after = upserted(cards, repo, card);
    assert(after == kept.push(new));
    crate::order::lemma_filter_has(cards, keep, entry);
    assert(after[kept.len() as int] == new);
    if kept.contains(entry) {
        let i = choose|i: int| 0 <= i < kept.len() && kept[i] == entry;
        assert(after[i] == entry);
    }
    if after.contains(entry) && !same_issue(entry, repo, card.number) {
        let i = choose|i: int| 0 <= i < after.len() && after[i] == entry;
        assert(same_issue(new, repo, card.number));
        assert(i < kept.len());
        assert(kept[i] == entry);
    }
    if !has_issue(cards, repo, card.number) {
        assert forall|i: int| 0 <= i < cards.len() implies keep(#[trigger] cards[i]) by {
            assert(!same_issue(cards[i], repo, card.number));
        }
        crate::order::lemma_filter_all(cards, keep);
    }
    assert forall|i: int| 0 <= i < kept.len() implies keep(#[trigger] kept[i]) by {
        cards.lemma_filter_pred(keep, i);
    }
    crate::order::lemma_filter_all(kept, keep);
    reveal(Seq::filter);
    assert(after.drop_last() == kept);
    assert(same_issue(new, repo, card.number));
}

/// The cards that are ready are exactly those in the column for it.
pub proof fn ready_cards_are_those_in_their_column(
    cards: Seq<RepositoryCardView>,
    entry: RepositoryCardView,
)
    ensures
        cards.filter(is_ready()).contains(entry) <==> cards.contains(entry) && entry.card.column
            == Some("board:ready"@),
        (forall|i: int|
            0 <= i < cards.len() ==> (#[trigger] cards[i]).card.column == Some("board:ready"@))
            ==> cards.filter(is_ready()) == cards,
{
    crate::order::lemma_filter_has(cards, is_ready(), entry);
    if forall|i: int|
        0 <= i < cards.len() ==> (#[trigger] cards[i]).card.column == Some("board:ready"@) {
        crate::order::lemma_filter_all(cards, is_ready());
    }
}

/// On a page of the board the card that was updated later stands first; of two that were updated at
/// the same time, that of the repository whose name comes first, and of one repository that with
/// the smaller number. A page says whether there are more, and what the snapshot says of itself.
pub proof fn the_board_shows_the_newest_first(
    snapshot: BoardSnapshot,
    page: int,
    per_page: int,
    result: OverviewPage,
    i: int,
    j: int,
)
    requires
        overview_page(snapshot, page, per_page, result),
        page >= 1,
        per_page >= 0,
    ensures
        0 <= i < j < result.items@.len() ==> {
            let first = result.items@[i];
            let second = result.items@[j];
            &&& !precedes(first.card.updated_at@, second.card.updated_at@)
            &&& first.card.updated_at@ == second.card.updated_at@ ==> !precedes(
                second.repo@,
                first.repo@,
            )
            &&& first.card.updated_at@ == second.card.updated_at@ && first.repo@ == second.repo@
                ==> first.card.number <= second.card.number
        },
        result.has_more <==> snapshot.cards@.len() > page * per_page,
        result.page == page,
        result.per_page == per_page,
        result.partial == snapshot.partial,
        texts(result.unavailable_owners@) == texts(snapshot.unavailable_owners@),
        result.items@.len() <= per_page,
{
    let start = (page - 1) * per_page;
    let sorted = choose|sorted: Seq<ReadyCard>| #[trigger]
        sorts(snapshot.cards@, sorted) && shows(
            result.items@,
            page_slice(sorted, start, per_page),
        );
    assert(0 <= start) by (nonlinear_arith)
        requires
            start == (page - 1) * per_page,
            page >= 1,
            per_page >= 0,
    ;
    assert(start + per_page == page * per_page) by (nonlinear_arith)
        requires
            start == (page - 1) * per_page,
    ;
    if 0 <= i < j < result.items@.len() {
        crate::cards::a_page_holds_what_follows_its_start(sorted, start, per_page, i);
        crate::cards::a_page_holds_what_follows_its_start(sorted, start, per_page, j);
        let first = sorted[start + i];
        let second = sorted[start + j];
        assert(first.ranks(second));
        assert(result.items@[i].repo == first.repo && result.items@[i].card == first.card);
        assert(result.items@[j].repo == second.repo && result.items@[j].card == second.card);
        lemma_precedes_total(first.card.updated_at@, second.card.updated_at@);
        lemma_precedes_total(first.repo@, second.repo@);
    }
}

/// The board is shown without a new search for a minute.
pub proof fn the_board_is_shown_for_a_minute(github: &Github, now: u64, yes: bool)
    requires
        call_ensures(Github::has_fresh_snapshot, (github, now), yes),
    ensures
        yes <==> (github.board_snapshot matches Some(snapshot) && now
            < snapshot.refreshed_at + 60_000_000_000),
{
}

/// After a search the board shows what is answered. One that reached every owner leaves nothing of
/// what was there before; where none was reached the cards stay, and without cards the error is
/// answered.
pub proof fn the_board_shows_what_was_found(
    github: &mut Github,
    outcome: SearchOutcome,
    now: u64,
    result: Result<BoardSnapshot, ApiError>,
)
    requires
        call_ensures(Github::refresh, (github, outcome, now), result),
    ensures
        result is Err <==> outcome is Failed && old(github).board_snapshot is None,
        result is Err ==> final(github).board_snapshot is None,
        result matches Ok(snapshot) ==> (final(github).board_snapshot matches Some(kept)
            && kept@ == snapshot@) && snapshot@.refreshed_at == now,
        result matches Ok(snapshot) ==> (outcome matches SearchOutcome::Found(found) ==> snapshot.partial
            == (found.unavailable_owners@.len() > 0) && texts(snapshot.unavailable_owners@) == texts(
            found.unavailable_owners@,
        ) && (found.unavailable_owners@.len() == 0 ==> entries(snapshot.cards@) == entries(
            found.cards@,
        ))),
        result matches Ok(snapshot) ==> (outcome matches SearchOutcome::Failed(failure)
            ==> snapshot.partial && texts(snapshot.unavailable_owners@) == texts(
            failure.unavailable_owners@,
        ) && (old(github).board_snapshot matches Some(before) && entries(snapshot.cards@) == entries(
            before.cards@,
        ))),
{
}

/// A card that was brought up to date is on the board as it is now, once; every other card stays,
/// and a board that was not searched stays so.
pub proof fn the_board_shows_the_card_as_it_is(
    github: &mut Github,
    repo: &str,
    card: &Card,
    now: u64,
    other: RepositoryCardView,
)
    requires
        call_ensures(Github::upsert_snapshot_card, (github, repo, card, now), ()),
    ensures
        final(github).board_snapshot is None <==> old(github).board_snapshot is None,
        final(github).board_snapshot matches Some(after) ==> {
            let before = old(github).board_snapshot->0;
            &&& entries(after.cards@).contains(RepositoryCardView { repo: repo@, card: card@ })
            &&& !(crate::text::lower(other.repo) == crate::text::lower(repo@) && other.card.number
                == card.number) ==> (entries(after.cards@).contains(other) <==> entries(
                before.cards@,
            ).contains(other))
            &&& crate::text::lower(other.repo) == crate::text::lower(repo@) && other.card.number
                == card.number ==> (entries(after.cards@).contains(other) <==> other == (
            RepositoryCardView { repo: repo@, card: card@ }))
            &&& after.partial == before.partial
            &&& after.refreshed_at == now
        },
{
    if let Some(before) = old(github).board_snapshot {
        let cards = entries(before.cards@);
        let keep = other_issues(repo@, card.number);
        let entry = RepositoryCardView { repo: repo@, card: card@ };
        crate::order::lemma_filter_has(cards, keep, other);
        let kept = cards.filter(keep);
        let all = upserted(cards, repo@, card@);
        assert(all == kept.push(entry));
        assert(all[kept.len() as int] == entry);
        if kept.contains(other) {
            let k = choose|k: int| 0 <= k < kept.len() && kept[k] == other;
            assert(all[k] == other);
        }
        if all.contains(other) && other != entry {
            let k = choose|k: int| 0 <= k < all.len() && all[k] == other;
            assert(kept[k] == other);
        }
    }
}

/// The cards that are ready to be worked on are those in the column `board:ready`.
pub proof fn the_ready_cards_are_in_their_column(
    snapshot: &BoardSnapshot,
    ready: Vec<ReadyCard>,
    entry: RepositoryCardView,
)
    requires
        call_ensures(Github::ready_cards, (snapshot,), ready),
    ensures
        entries(ready@).contains(entry) <==> entries(snapshot.cards@).contains(entry)
            && entry.card.column == Some("board:ready"@),
{
    crate::order::lemma_filter_has(snapshot@.cards, is_ready(), entry);
}

/// A page that holds the whole board shows every card once; a page begins at most at position 5000.
pub proof fn the_overview_shows_the_board(
    snapshot: BoardSnapshot,
    page: usize,
    per_page: usize,
    result: Result<OverviewPage, ApiError>,
)
    requires
        page >= 1,
        call_ensures(Github::overview_cards, (snapshot, page, per_page), result),
    ensures
        result is Ok <==> (page - 1) * per_page <= 5_000,
        result matches Err(error) ==> error@.status == 400 && error@.code == "page_too_large"@,
        result matches Ok(shown) ==> shown.has_more == (snapshot.cards@.len() > page * per_page)
            && shown.page == page && shown.per_page == per_page && shown.partial
            == snapshot.partial && shown.unavailable_owners@ == snapshot.unavailable_owners@,
        result matches Ok(shown) ==> (page == 1 && snapshot.cards@.len() <= per_page
            ==> shown.items@.len() == snapshot.cards@.len()),
        result matches Ok(shown) ==> shown.items@.len() <= per_page,
{
    assert((page - 1) * per_page + per_page == page * per_page) by (nonlinear_arith);
    if page == 1 {
        assert((page - 1) * per_page == 0);
    }
    if let Ok(shown) = result {
        let sorted = choose|sorted: Seq<ReadyCard>| #[trigger]
            sorts(snapshot.cards@, sorted) && shows(
                shown.items@,
                page_slice(sorted, (page - 1) * per_page, per_page as int),
            );
        crate::order::sorting_keeps_everything(snapshot.cards@, sorted);
        sorted.to_multiset_ensures();
        snapshot.cards@.to_multiset_ensures();
    }
}

} // verus!
