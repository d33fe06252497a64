//! The search for the cards of all repositories that can be pushed to, one owner at a time.
use crate::board::{
    contains_issue, distinct, entries, has_issue, lemma_push_distinct, BoardSearchFailure,
    BoardSearchResult, ReadyCard, SearchOutcome,
};
use crate::cards::{card_from_raw, card_of, parse_json_lines, reads_lines, RawIssue};
use crate::error::{ApiError, ErrorView};
use crate::model::{is_repo, validate_repo, RepositoryCardView, BOARD_COLUMNS};
use crate::order::{lemma_precedes_total, lemma_precedes_transitive, precedes, text_precedes};
use crate::text::{
    begins_with, join, joined, lower, lowered, same_text, strings, strip_prefix, texts, words_of,
};
use crate::textmap::TextMap;
use vstd::prelude::*;

verus! {

// ---------------------------------------------------------------------------------------------
// What is searched
// ---------------------------------------------------------------------------------------------

/// A repository of the signed-in user, and whether the user can push to it.
#[derive(Clone, Debug)]
pub struct RawRepoAccess {
    pub name_with_owner: String,
    pub owner: String,
    pub owner_type: String,
    pub push: bool,
}

/// An issue that a search found.
#[derive(Clone, Debug)]
pub struct RawSearchIssue {
    pub issue: RawIssue,
    pub repository_url: String,
}

/// The repositories with their access that the command line printed, one on each line.
pub fn parse_repo_access_stream<F: Fn(&str) -> Result<RawRepoAccess, String>>(
    output: &str,
    decode: F,
) -> (result: Result<Vec<RawRepoAccess>, ApiError>)
    requires
        forall|line: &str| decode.requires((line,)),
    ensures
        reads_lines(output@, "repository access"@, decode, result),
{
    parse_json_lines(output, "repository access", decode)
}

/// The issues that a search printed, one on each line.
pub fn parse_search_issue_stream<F: Fn(&str) -> Result<RawSearchIssue, String>>(
    output: &str,
    decode: F,
) -> (result: Result<Vec<RawSearchIssue>, ApiError>)
    requires
        forall|line: &str| decode.requires((line,)),
    ensures
        reads_lines(output@, "GitHub search issue"@, decode, result),
{
    parse_json_lines(output, "GitHub search issue", decode)
}

/// The repository that an address of GitHub's interface names.
pub open spec fn repo_of_url(url: Seq<char>) -> Option<Seq<char>> {
    let start = "https://api.github.com/repos/"@;
    if begins_with(url, start) && is_repo(url.skip(start.len() as int)) {
        Some(url.skip(start.len() as int))
    } else {
        None
    }
}

/// The repository that an address of GitHub's interface names.
pub fn repo_from_repository_url(url: &str) -> (repo: Option<String>)
    ensures
        crate::text::maybe_text(repo) == repo_of_url(url@),
{
    match strip_prefix(url, "https://api.github.com/repos/") {
        Some(repo) => if validate_repo(repo.as_str()) {
            Some(repo)
        } else {
            None
        },
        None => None,
    }
}

/// Labels in quotes.
pub open spec fn quoted(labels: Seq<Seq<char>>) -> Seq<Seq<char>> {
    labels.map_values(|label: Seq<char>| seq!['"'] + label + seq!['"'])
}

/// The query for the open issues of an owner that have any of the labels.
pub open spec fn search_query(
    labels: Seq<Seq<char>>,
    qualifier: Seq<char>,
    owner: Seq<char>,
) -> Seq<char> {
    "is:issue is:open label:"@ + join(quoted(labels), ","@) + " "@ + qualifier + ":"@ + owner
}

/// The query for the open issues of an owner that have any of the labels.
pub fn board_search_query(labels: &[&str], qualifier: &str, owner: &str) -> (query: String)
    ensures
        query@ == search_query(words_of(labels@), qualifier@, owner@),
{
    let mut parts: Vec<String> = Vec::new();
    let ghost all = quoted(words_of(labels@));
    let mut i: usize = 0;
    while i < labels.len()
        invariant
            all == quoted(words_of(labels@)),
            i <= labels@.len(),
            texts(parts@) == all.take(i as int),
        decreases labels@.len() - i,
    {
        let ghost before = parts@;
        let mut part = String::new();
        part.push('"');
        part.append(labels[i]);
        part.push('"');
        assert(part@ == seq!['"'] + labels@[i as int]@ + seq!['"']);
        parts.push(part);
        assert(texts(parts@) == texts(before).push(part@));
        assert(all.take(i + 1) == all.take(i as int).push(all[i as int]));
        i += 1;
    }
    assert(all.take(i as int) == all);
    let mut query = "is:issue is:open label:".to_owned();
    query.append(joined(&parts, ",").as_str());
    query.append(" ");
    query.append(qualifier);
    query.append(":");
    query.append(owner);
    query
}

/// How an owner of a type is named in a query.
pub open spec fn qualifier_of(owner_type: Seq<char>) -> Option<Seq<char>> {
    if owner_type == "Organization"@ {
        Some("org"@)
    } else if owner_type == "User"@ {
        Some("user"@)
    } else {
        None
    }
}

/// The names of the repositories that can be pushed to, under their names in lower case.
pub open spec fn pushable_names(access: Seq<RawRepoAccess>) -> Map<Seq<char>, String>
    decreases access.len(),
{
    if access.len() == 0 {
        Map::empty()
    } else {
        let earlier = pushable_names(access.drop_last());
        let repo = access.last();
        if repo.push {
            earlier.insert(lower(repo.name_with_owner@), repo.name_with_owner)
        } else {
            earlier
        }
    }
}

/// The owners of the repositories that can be pushed to, with their types.
pub open spec fn owner_types(access: Seq<RawRepoAccess>) -> Map<Seq<char>, String>
    decreases access.len(),
{
    if access.len() == 0 {
        Map::empty()
    } else {
        let earlier = owner_types(access.drop_last());
        let repo = access.last();
        if repo.push {
            earlier.insert(repo.owner@, repo.owner_type)
        } else {
            earlier
        }
    }
}

/// Texts in ascending order, none of them twice.
pub open spec fn ascending(names: Seq<Seq<char>>) -> bool {
    forall|i: int, j: int|
        0 <= i < j < names.len() ==> precedes(#[trigger] names[i], #[trigger] names[j])
}

/// The owners that are searched, with how a query names them.
pub open spec fn searches(names: Seq<Seq<char>>, types: Map<Seq<char>, String>) -> Seq<
    (Seq<char>, Seq<char>),
>
    decreases names.len(),
{
    if names.len() == 0 {
        seq![]
    } else {
        let earlier = searches(names.drop_last(), types);
        match qualifier_of(types[names.last()]@) {
            Some(qualifier) => earlier.push((names.last(), qualifier)),
            None => earlier,
        }
    }
}

/// The owners that are searched, in ascending order.
pub open spec fn is_plan(access: Seq<RawRepoAccess>, plan: Seq<(Seq<char>, Seq<char>)>) -> bool {
    exists|names: Seq<Seq<char>>| #[trigger]
        ascending(names) && (forall|owner: Seq<char>|
            names.contains(owner) <==> owner_types(access).contains_key(owner)) && plan == searches(
            names,
            owner_types(access),
        )
}

/// An owner whose issues are searched.
pub struct OwnerSearch {
    pub owner: String,
    pub qualifier: &'static str,
}

/// The owners that are searched.
pub open spec fn search_views(owners: Seq<OwnerSearch>) -> Seq<(Seq<char>, Seq<char>)> {
    owners.map_values(|search: OwnerSearch| (search.owner@, search.qualifier@))
}

/// Puts a name where it belongs in an ascending list, unless it is there.
fn insert_name(names: &mut Vec<String>, name: &str)
    requires
        ascending(texts(old(names)@)),
    ensures
        ascending(texts(final(names)@)),
        forall|other: Seq<char>|
            texts(final(names)@).contains(other) <==> texts(old(names)@).contains(other) || other
                == name@,
{
    let ghost before = texts(names@);
    let mut at: usize = 0;
    while at < names.len()
        invariant
            before == texts(names@),
            at <= names@.len(),
            forall|k: int| 0 <= k < at ==> precedes(#[trigger] before[k], name@),
        ensures
            before == texts(names@),
            at <= names@.len(),
            forall|k: int| 0 <= k < at ==> precedes(#[trigger] before[k], name@),
            at < names@.len() ==> !precedes(before[at as int], name@),
        decreases names@.len() - at,
    {
        assert(before[at as int] == names@[at as int]@);
        if !text_precedes(names[at].as_str(), name) {
            break;
        }
        at += 1;
    }
    if at < names.len() && same_text(names[at].as_str(), name) {
        assert(before[at as int] == name@);
        assert(before.contains(name@));
        return;
    }
    names.insert(at, name.to_owned());
    proof {
        let after = texts(names@);
        assert(after == before.insert(at as int, name@));
        if at < before.len() {
            lemma_precedes_total(before[at as int], name@);
        }
        assert forall|i: int, j: int| 0 <= i < j < after.len() implies precedes(
            #[trigger] after[i],
            #[trigger] after[j],
        ) by {
            if i < at && j == at {
                assert(precedes(before[i], name@));
            } else if i == at {
                if j - 1 > at {
                    assert(precedes(before[at as int], before[j - 1]));
                    lemma_precedes_transitive(name@, before[at as int], before[j - 1]);
                }
            } else if i < at && j > at {
                assert(precedes(before[i], before[j - 1]));
            } else if i > at {
                assert(precedes(before[i - 1], before[j - 1]));
            } else {
                assert(precedes(before[i], before[j]));
            }
        }
        assert forall|other: Seq<char>|
            after.contains(other) <==> before.contains(other) || other == name@ by {
            if before.contains(other) {
                let i = choose|i: int| 0 <= i < before.len() && before[i] == other;
                if i < at {
                    assert(after[i] == other);
                } else {
                    assert(after[i + 1] == other);
                }
            }
            if other == name@ {
                assert(after[at as int] == other);
            }
            if after.contains(other) && other != name@ {
                let i = choose|i: int| 0 <= i < after.len() && after[i] == other;
                if i < at {
                    assert(before[i] == other);
                } else {
                    assert(before[i - 1] == other);
                }
            }
        }
    }
}

// ---------------------------------------------------------------------------------------------
// What is found
// ---------------------------------------------------------------------------------------------

/// The cards with one more issue: only of a repository that can be pushed to, and not twice.
pub open spec fn accept(
    cards: Seq<RepositoryCardView>,
    pushable: Map<Seq<char>, String>,
    found: RawSearchIssue,
) -> Seq<RepositoryCardView> {
    match repo_of_url(found.repository_url@) {
        Some(name) => if pushable.contains_key(lower(name)) {
            let repo = pushable[lower(name)]@;
            if has_issue(cards, repo, found.issue.number) {
                cards
            } else {
                cards.push(RepositoryCardView { repo, card: card_of(found.issue) })
            }
        } else {
            cards
        },
        None => cards,
    }
}

/// The cards with all issues of an answer.
pub open spec fn accept_all(
    cards: Seq<RepositoryCardView>,
    pushable: Map<Seq<char>, String>,
    found: Seq<RawSearchIssue>,
) -> Seq<RepositoryCardView>
    decreases found.len(),
{
    if found.len() == 0 {
        cards
    } else {
        accept(accept_all(cards, pushable, found.drop_last()), pushable, found.last())
    }
}

/// A search under way.
pub struct BoardSearch {
    pushable: TextMap<String>,
    owners: Vec<OwnerSearch>,
    next: usize,
    cards: Vec<ReadyCard>,
    unavailable_owners: Vec<String>,
    reached: bool,
    last_error: Option<ApiError>,
}

/// The state of a [`BoardSearch`].
#[verifier::ext_equal]
pub struct SearchView {
    pub pushable: Map<Seq<char>, String>,
    pub owners: Seq<(Seq<char>, Seq<char>)>,
    pub next: int,
    pub cards: Seq<RepositoryCardView>,
    pub unavailable_owners: Seq<Seq<char>>,
    pub reached: bool,
    pub last_error: Option<ErrorView>,
}

impl View for BoardSearch {
    type V = SearchView;

    closed spec fn view(&self) -> SearchView {
        SearchView {
            pushable: self.pushable@,
            owners: search_views(self.owners@),
            next: self.next as int,
            cards: entries(self.cards@),
            unavailable_owners: texts(self.unavailable_owners@),
            reached: self.reached,
            last_error: match self.last_error {
                Some(error) => Some(error@),
                None => None,
            },
        }
    }
}

/// The state of a search that has asked nothing yet.
pub open spec fn is_start(access: Seq<RawRepoAccess>, search: SearchView) -> bool {
    &&& search.pushable == pushable_names(access)
    &&& is_plan(access, search.owners)
    &&& search.next == 0
    &&& search.cards == Seq::<RepositoryCardView>::empty()
    &&& search.unavailable_owners == Seq::<Seq<char>>::empty()
    &&& !search.reached
    &&& search.last_error is None
}

/// The arguments that search the issues of an owner.
pub open spec fn search_arguments(search: (Seq<char>, Seq<char>)) -> Seq<Seq<char>> {
    seq![
        "api"@,
        "-X"@,
        "GET"@,
        "--paginate"@,
        "/search/issues"@,
        "-f"@,
        "q="@ + search_query(words_of(BOARD_COLUMNS@), search.1, search.0),
        "-f"@,
        "per_page=100"@,
        "-f"@,
        "sort=created"@,
        "-f"@,
        "order=asc"@,
        "--jq"@,
        ".items[] | {number, author: (if .user == null then null else {login: .user.login} end), title, body, labels, url: .html_url, createdAt: .created_at, updatedAt: .updated_at, repositoryUrl: .repository_url}"@,
    ]
}

/// The state of a search once an owner's answer is taken in.
pub open spec fn absorbed(
    search: SearchView,
    answer: Result<Vec<RawSearchIssue>, ApiError>,
) -> SearchView {
    match answer {
        Ok(found) => SearchView {
            next: search.next + 1,
            cards: accept_all(search.cards, search.pushable, found@),
            reached: true,
            ..search
        },
        Err(error) => SearchView {
            next: search.next + 1,
            unavailable_owners: search.unavailable_owners.push(search.owners[search.next].0),
            last_error: Some(error@),
            ..search
        },
    }
}

/// What a search comes to: its cards, unless it asked in vain every time that it asked.
pub open spec fn concluded(search: SearchView, outcome: SearchOutcome) -> bool {
    if !search.reached && search.last_error is Some {
        match outcome {
            SearchOutcome::Failed(failure) => failure.error@ == search.last_error->0 && texts(
                failure.unavailable_owners@,
            ) == search.unavailable_owners,
            SearchOutcome::Found(_) => false,
        }
    } else {
        match outcome {
            SearchOutcome::Found(result) => entries(result.cards@) == search.cards && texts(
                result.unavailable_owners@,
            ) == search.unavailable_owners,
            SearchOutcome::Failed(_) => false,
        }
    }
}

impl BoardSearch {
    /// Plans a search over the owners of the repositories that can be pushed to.
    pub fn start(access: Vec<RawRepoAccess>) -> (search: BoardSearch)
        ensures
            is_start(access@, search@),
    {
        let mut pushable: TextMap<String> = TextMap::new();
        let mut types: TextMap<String> = TextMap::new();
        let mut names: Vec<String> = Vec::new();
        let mut i: usize = 0;
        assert(access@.take(0) == Seq::<RawRepoAccess>::empty());
        while i < access.len()
            invariant
                i <= access@.len(),
                pushable@ == pushable_names(access@.take(i as int)),
                types@ == owner_types(access@.take(i as int)),
                ascending(texts(names@)),
                forall|owner: Seq<char>|
                    texts(names@).contains(owner) <==> types@.contains_key(owner),
            decreases access@.len() - i,
        {
            let repo = &access[i];
            assert(access@.take(i + 1).drop_last() == access@.take(i as int));
            assert(access@.take(i + 1).last() == *repo);
            if repo.push {
                pushable.insert(
                    lowered(repo.name_with_owner.as_str()),
                    repo.name_with_owner.clone(),
                );
                types.insert(repo.owner.clone(), repo.owner_type.clone());
                insert_name(&mut names, repo.owner.as_str());
            }
            i += 1;
        }
        assert(access@.take(i as int) == access@);
        let ghost all = texts(names@);
        let mut owners: Vec<OwnerSearch> = Vec::new();
        let mut k: usize = 0;
        assert(all.take(0) == Seq::<Seq<char>>::empty());
        while k < names.len()
            invariant
                all == texts(names@),
                k <= names@.len(),
                forall|owner: Seq<char>| all.contains(owner) <==> types@.contains_key(owner),
                search_views(owners@) == searches(all.take(k as int), types@),
            decreases names@.len() - k,
        {
            let ghost before = owners@;
            assert(all[k as int] == names@[k as int]@);
            assert(all.contains(names@[k as int]@));
            assert(all.take(k + 1).drop_last() == all.take(k as int));
            assert(all.take(k + 1).last() == names@[k as int]@);
            if let Some(owner_type) = types.get(names[k].as_str()) {
                if same_text(owner_type.as_str(), "Organization") {
                    owners.push(OwnerSearch { owner: names[k].clone(), qualifier: "org" });
                    assert(search_views(owners@) == search_views(before).push(
                        (names@[k as int]@, "org"@),
                    ));
                } else if same_text(owner_type.as_str(), "User") {
                    owners.push(OwnerSearch { owner: names[k].clone(), qualifier: "user" });
                    assert(search_views(owners@) == search_views(before).push(
                        (names@[k as int]@, "user"@),
                    ));
                }
            }
            k += 1;
        }
        assert(all.take(k as int) == all);
        let search = BoardSearch {
            pushable,
            owners,
            next: 0,
            cards: Vec::new(),
            unavailable_owners: Vec::new(),
            reached: false,
            last_error: None,
        };
        proof {
            assert(search@.owners == searches(all, owner_types(access@)));
            assert(ascending(all));
            assert(search@.cards == Seq::<RepositoryCardView>::empty());
            assert(search@.unavailable_owners == Seq::<Seq<char>>::empty());
        }
        search
    }

    /// The arguments for the next owner; none where every owner was asked.
    pub fn next_arguments(&self) -> (arguments: Option<Vec<String>>)
        ensures
            match arguments {
                Some(arguments) => 0 <= self@.next < self@.owners.len() && texts(arguments@)
                    == search_arguments(self@.owners[self@.next]),
                None => self@.next >= self@.owners.len(),
            },
    {
        if self.next >= self.owners.len() {
            return None;
        }
        let search = &self.owners[self.next];
        let columns = BOARD_COLUMNS;
        let query = board_search_query(
            columns.as_slice(),
            search.qualifier,
            search.owner.as_str(),
        );
        let condition = "q=".to_owned().concat(query.as_str());
        Some(
            strings(
                vec![
                    "api",
                    "-X",
                    "GET",
                    "--paginate",
                    "/search/issues",
                    "-f",
                    condition.as_str(),
                    "-f",
                    "per_page=100",
                    "-f",
                    "sort=created",
                    "-f",
                    "order=asc",
                    "--jq",
                    ".items[] | {number, author: (if .user == null then null else {login: .user.login} end), title, body, labels, url: .html_url, createdAt: .created_at, updatedAt: .updated_at, repositoryUrl: .repository_url}",
                ],
            ),
        )
    }

    /// Takes in the answer for the owner that was asked.
    pub fn absorb(&mut self, answer: Result<Vec<RawSearchIssue>, ApiError>)
        requires
            0 <= old(self)@.next < old(self)@.owners.len(),
        ensures
            final(self)@ == absorbed(old(self)@, answer),
    {
        let count: usize = self.owners.len();
        assert(self.next < count);
        let next: usize = self.next + 1;
        match answer {
            Ok(found) => {
                let ghost all = found@;
                let ghost start = entries(self.cards@);
                let ghost before = self@;
                for issue in iter: found
                    invariant
                        iter.seq() == all,
                        self.pushable@ == before.pushable,
                        search_views(self.owners@) == before.owners,
                        self.next == before.next,
                        texts(self.unavailable_owners@) == before.unavailable_owners,
                        self@.last_error == before.last_error,
                        start == before.cards,
                        entries(self.cards@) == accept_all(
                            start,
                            before.pushable,
                            all.take(iter.index() as int),
                        ),
                {
                    let ghost done = iter.index() as int;
                    assert(all.take(done + 1).drop_last() == all.take(done));
                    assert(all.take(done + 1).last() == issue);
                    if let Some(name) = repo_from_repository_url(issue.repository_url.as_str()) {
                        let known = match self.pushable.get(lowered(name.as_str()).as_str()) {
                            Some(repo) => Some(repo.clone()),
                            None => None,
                        };
                        if let Some(repo) = known {
                            if !contains_issue(&self.cards, repo.as_str(), issue.issue.number) {
                                let ghost earlier = self.cards@;
                                let card = card_from_raw(issue.issue);
                                self.cards.push(ReadyCard { repo, card });
                                assert(entries(self.cards@) == entries(earlier).push(
                                    RepositoryCardView { repo: repo@, card: card@ },
                                ));
                            }
                        }
                    }
                }
                assert(all.take(all.len() as int) == all);
                self.reached = true;
                self.next = next;
            },
            Err(error) => {
                let ghost before = self.unavailable_owners@;
                let owner = self.owners[self.next].owner.clone();
                self.last_error = Some(error);
                self.unavailable_owners.push(owner);
                assert(texts(self.unavailable_owners@) == texts(before).push(owner@));
                self.next = next;
            },
        }
    }

    /// What the search comes to.
    pub fn finish(self) -> (outcome: SearchOutcome)
        ensures
            concluded(self@, outcome),
    {
        if !self.reached {
            if let Some(error) = self.last_error {
                return SearchOutcome::Failed(
                    BoardSearchFailure { error, unavailable_owners: self.unavailable_owners },
                );
            }
        }
        SearchOutcome::Found(
            BoardSearchResult { cards: self.cards, unavailable_owners: self.unavailable_owners },
        )
    }
}

/// A search that could not list the repositories.
pub fn access_failure(error: ApiError) -> (outcome: SearchOutcome)
    ensures
        outcome matches SearchOutcome::Failed(failure) && failure.error@ == error@
            && failure.unavailable_owners@.len() == 0,
{
    SearchOutcome::Failed(BoardSearchFailure { error, unavailable_owners: Vec::new() })
}

// ---------------------------------------------------------------------------------------------
// Laws
// ---------------------------------------------------------------------------------------------

/// Every card is of a repository in the map.
pub open spec fn all_pushable(
    cards: Seq<RepositoryCardView>,
    pushable: Map<Seq<char>, String>,
) -> bool {
    forall|i: int| 0 <= i < cards.len() ==> exists|key: Seq<char>| #[trigger]
        pushable.contains_key(key) && pushable[key]@ == (#[trigger] cards[i]).repo
}

/// Only cards of repositories in the map are taken in, and no issue twice.
pub proof fn searched_cards_are_pushable_and_distinct(
    cards: Seq<RepositoryCardView>,
    pushable: Map<Seq<char>, String>,
    found: Seq<RawSearchIssue>,
)
    requires
        distinct(cards),
        all_pushable(cards, pushable),
    ensures
        distinct(accept_all(cards, pushable, found)),
        all_pushable(accept_all(cards, pushable, found), pushable),
    decreases found.len(),
{
    if found.len() > 0 {
        let earlier = accept_all(cards, pushable, found.drop_last());
        searched_cards_are_pushable_and_distinct(cards, pushable, found.drop_last());
        if let Some(name) = repo_of_url(found.last().repository_url@) {
            if pushable.contains_key(lower(name)) {
                let repo = pushable[lower(name)]@;
                let entry = RepositoryCardView { repo, card: card_of(found.last().issue) };
                lemma_push_distinct(earlier, entry);
                let after = earlier.push(entry);
                assert forall|i: int| 0 <= i < after.len() implies exists|key: Seq<char>| #[trigger]
                    pushable.contains_key(key) && pushable[key]@ == (
                    #[trigger] after[i]).repo by {
                    if i < earlier.len() {
                        assert(after[i] == earlier[i]);
                    } else {
                        assert(pushable.contains_key(lower(name)));
                    }
                }
            }
        }
    }
}

/// The map holds exactly the repositories that can be pushed to, by name in any letter case.
pub proof fn only_pushable_repositories_are_searched(access: Seq<RawRepoAccess>, key: Seq<char>)
    ensures
        pushable_names(access).contains_key(key) <==> exists|i: int|
            0 <= i < access.len() && (#[trigger] access[i]).push && lower(
                access[i].name_with_owner@,
            ) == key,
        pushable_names(access).contains_key(key) ==> lower(pushable_names(access)[key]@) == key,
    decreases access.len(),
{
    if access.len() > 0 {
        let shorter = access.drop_last();
        only_pushable_repositories_are_searched(shorter, key);
        let repo = access.last();
        assert(access[access.len() - 1] == repo);
        if exists|i: int|
            0 <= i < shorter.len() && (#[trigger] shorter[i]).push && lower(
                shorter[i].name_with_owner@,
            ) == key {
            let i = choose|i: int|
                0 <= i < shorter.len() && (#[trigger] shorter[i]).push && lower(
                    shorter[i].name_with_owner@,
                ) == key;
            assert(access[i] == shorter[i]);
        }
        if exists|i: int|
            0 <= i < access.len() && (#[trigger] access[i]).push && lower(
                access[i].name_with_owner@,
            ) == key {
            let i = choose|i: int|
                0 <= i < access.len() && (#[trigger] access[i]).push && lower(
                    access[i].name_with_owner@,
                ) == key;
            if i < shorter.len() {
                assert(shorter[i] == access[i]);
            }
        }
    }
}

/// From its start on, whatever the answers, a search holds only cards of repositories that can be
/// pushed to, and no issue twice.
pub proof fn a_search_stays_within_what_can_be_pushed(
    search: SearchView,
    answer: Result<Vec<RawSearchIssue>, ApiError>,
    access: Seq<RawRepoAccess>,
)
    requires
        is_start(access, search) || (distinct(search.cards) && all_pushable(
            search.cards,
            search.pushable,
        )),
    ensures
        distinct(absorbed(search, answer).cards),
        all_pushable(absorbed(search, answer).cards, search.pushable),
        absorbed(search, answer).pushable == search.pushable,
{
    assert(distinct(search.cards) && all_pushable(search.cards, search.pushable));
    if let Ok(found) = answer {
        searched_cards_are_pushable_and_distinct(search.cards, search.pushable, found@);
    }
}

/// The state of a search once the answers of several owners are taken in, one after the other.
pub open spec fn after_answers(
    search: SearchView,
    answers: Seq<Result<Vec<RawSearchIssue>, ApiError>>,
) -> SearchView
    decreases answers.len(),
{
    if answers.len() == 0 {
        search
    } else {
        absorbed(after_answers(search, answers.drop_last()), answers.last())
    }
}

/// The owners that an outcome names as unavailable.
pub open spec fn unavailable_of(outcome: SearchOutcome) -> Seq<Seq<char>> {
    match outcome {
        SearchOutcome::Found(result) => texts(result.unavailable_owners@),
        SearchOutcome::Failed(failure) => texts(failure.unavailable_owners@),
    }
}

/// The owners whose answers are errors, in the order in which they were asked.
pub open spec fn failed_owners(
    owners: Seq<(Seq<char>, Seq<char>)>,
    answers: Seq<Result<Vec<RawSearchIssue>, ApiError>>,
) -> Seq<Seq<char>>
    decreases answers.len(),
{
    if answers.len() == 0 {
        seq![]
    } else {
        let earlier = failed_owners(owners, answers.drop_last());
        if answers.last() is Err {
            earlier.push(owners[answers.len() - 1].0)
        } else {
            earlier
        }
    }
}

/// The owners of a plan are in ascending order.
proof fn lemma_plan_ascends(names: Seq<Seq<char>>, types: Map<Seq<char>, String>)
    requires
        ascending(names),
    ensures
        forall|i: int, j: int|
            0 <= i < j < searches(names, types).len() ==> precedes(
                (#[trigger] searches(names, types)[i]).0,
                (#[trigger] searches(names, types)[j]).0,
            ),
        forall|i: int|
            0 <= i < searches(names, types).len() ==> names.contains(
                (#[trigger] searches(names, types)[i]).0,
            ),
    decreases names.len(),
{
    if names.len() > 0 {
        let shorter = names.drop_last();
        assert forall|i: int, j: int| 0 <= i < j < shorter.len() implies precedes(
            #[trigger] shorter[i],
            #[trigger] shorter[j],
        ) by {
            assert(precedes(names[i], names[j]));
        }
        lemma_plan_ascends(shorter, types);
        let earlier = searches(shorter, types);
        let all = searches(names, types);
        assert(names[names.len() - 1] == names.last());
        assert forall|i: int| 0 <= i < earlier.len() implies names.contains(
            (#[trigger] earlier[i]).0,
        ) && precedes(earlier[i].0, names.last()) by {
            let at = choose|at: int| 0 <= at < shorter.len() && shorter[at] == earlier[i].0;
            assert(names[at] == shorter[at]);
            assert(precedes(names[at], names[names.len() - 1]));
        }
        assert forall|i: int, j: int| 0 <= i < j < all.len() implies precedes(
            (#[trigger] all[i]).0,
            (#[trigger] all[j]).0,
        ) by {
            assert(all[i] == earlier[i]);
            if j < earlier.len() {
                assert(all[j] == earlier[j]);
            }
        }
        assert forall|i: int| 0 <= i < all.len() implies names.contains(
            (#[trigger] all[i]).0,
        ) by {
            if i < earlier.len() {
                assert(all[i] == earlier[i]);
            }
        }
    }
}

/// What a run of answers leaves behind.
proof fn lemma_run(
    search: SearchView,
    answers: Seq<Result<Vec<RawSearchIssue>, ApiError>>,
)
    requires
        search.next == 0,
        search.unavailable_owners.len() == 0,
        search.cards.len() == 0,
        !search.reached,
        search.last_error is None,
    ensures
        ({
            let after = after_answers(search, answers);
            &&& after.owners == search.owners
            &&& after.pushable == search.pushable
            &&& after.next == answers.len()
            &&& after.unavailable_owners == failed_owners(search.owners, answers)
            &&& after.reached <==> exists|k: int|
                0 <= k < answers.len() && (#[trigger] answers[k]) is Ok
            &&& !after.reached && answers.len() > 0 ==> answers.last() is Err && after.last_error
                == Some(answers.last()->Err_0@)
            &&& answers.len() == 0 ==> after.last_error is None
            &&& distinct(after.cards)
            &&& all_pushable(after.cards, search.pushable)
        }),
    decreases answers.len(),
{
    if answers.len() == 0 {
        assert(search.unavailable_owners == Seq::<Seq<char>>::empty());
    } else {
        let shorter = answers.drop_last();
        lemma_run(search, shorter);
        let before = after_answers(search, shorter);
        assert(answers[answers.len() - 1] == answers.last());
        if before.reached {
            let k = choose|k: int| 0 <= k < shorter.len() && (#[trigger] shorter[k]) is Ok;
            assert(answers[k] == shorter[k]);
        } else {
            assert forall|k: int| 0 <= k < shorter.len() implies (#[trigger] answers[k]) is Err by {
                assert(shorter[k] == answers[k]);
            }
        }
        if let Ok(found) = answers.last() {
            searched_cards_are_pushable_and_distinct(before.cards, before.pushable, found@);
        }
    }
}

/// The owners that failed are in ascending order, and are exactly those whose answers are errors.
proof fn lemma_failed_owners(
    owners: Seq<(Seq<char>, Seq<char>)>,
    answers: Seq<Result<Vec<RawSearchIssue>, ApiError>>,
    count: nat,
)
    requires
        count <= answers.len() <= owners.len(),
        forall|i: int, j: int|
            0 <= i < j < owners.len() ==> precedes(
                (#[trigger] owners[i]).0,
                (#[trigger] owners[j]).0,
            ),
    ensures
        ({
            let failed = failed_owners(owners, answers.take(count as int));
            &&& ascending(failed)
            &&& forall|owner: Seq<char>| #[trigger]
                failed.contains(owner) <==> exists|k: int|
                    0 <= k < count && (#[trigger] answers[k]) is Err && owners[k].0 == owner
        }),
    decreases count,
{
    let failed = failed_owners(owners, answers.take(count as int));
    if count > 0 {
        let last = count - 1;
        lemma_failed_owners(owners, answers, last as nat);
        assert(answers.take(count as int).drop_last() == answers.take(last));
        assert(answers.take(count as int).last() == answers[last]);
        let earlier = failed_owners(owners, answers.take(last));
        assert forall|i: int, j: int| 0 <= i < j < failed.len() implies precedes(
            #[trigger] failed[i],
            #[trigger] failed[j],
        ) by {
            assert(failed[i] == earlier[i]);
            if j < earlier.len() {
                assert(failed[j] == earlier[j]);
            } else {
                assert(earlier.contains(earlier[i]));
                let k = choose|k: int|
                    0 <= k < last && (#[trigger] answers[k]) is Err && owners[k].0 == earlier[i];
                assert(precedes(owners[k].0, owners[last].0));
            }
        }
        assert forall|owner: Seq<char>| #[trigger] failed.contains(owner) <==> exists|k: int|
            0 <= k < count && (#[trigger] answers[k]) is Err && owners[k].0 == owner by {
            if failed.contains(owner) {
                let i = choose|i: int| 0 <= i < failed.len() && failed[i] == owner;
                if i < earlier.len() {
                    assert(earlier[i] == owner);
                    assert(earlier.contains(owner));
                } else {
                    assert(answers[last] is Err);
                }
            }
            if exists|k: int|
                0 <= k < count && (#[trigger] answers[k]) is Err && owners[k].0 == owner {
                let k = choose|k: int|
                    0 <= k < count && (#[trigger] answers[k]) is Err && owners[k].0 == owner;
                if k < last {
                    assert(earlier.contains(owner));
                    let i = choose|i: int| 0 <= i < earlier.len() && earlier[i] == owner;
                    assert(failed[i] == owner);
                } else {
                    assert(failed[earlier.len() as int] == owner);
                }
            }
        }
    }
}

/// Once every owner of the plan has answered, the owners that are named as unavailable are exactly
/// those whose answers were errors, in ascending order. The search has failed exactly where there
/// was an owner to ask and all answers were errors, with the last of them; else it has found cards
/// of repositories that can be pushed to, and no issue twice.
pub proof fn unavailable_owners_are_those_that_failed(
    access: Seq<RawRepoAccess>,
    search: SearchView,
    answers: Seq<Result<Vec<RawSearchIssue>, ApiError>>,
    outcome: SearchOutcome,
)
    requires
        is_start(access, search),
        answers.len() == search.owners.len(),
        concluded(after_answers(search, answers), outcome),
    ensures
        unavailable_of(outcome) == failed_owners(search.owners, answers),
        ascending(unavailable_of(outcome)),
        forall|owner: Seq<char>| #[trigger]
            unavailable_of(outcome).contains(owner) <==> exists|k: int|
                0 <= k < answers.len() && (#[trigger] answers[k]) is Err && search.owners[k].0
                    == owner,
        outcome is Failed <==> answers.len() > 0 && forall|k: int|
            0 <= k < answers.len() ==> (#[trigger] answers[k]) is Err,
        outcome matches SearchOutcome::Failed(failure) ==> failure.error@
            == answers.last()->Err_0@,
        outcome matches SearchOutcome::Found(result) ==> distinct(entries(result.cards@))
            && all_pushable(entries(result.cards@), pushable_names(access)),
{
    lemma_run(search, answers);
    let types = owner_types(access);
    let names = choose|names: Seq<Seq<char>>| #[trigger]
        ascending(names) && (forall|owner: Seq<char>|
            names.contains(owner) <==> types.contains_key(owner)) && search.owners == searches(
            names,
            types,
        );
    lemma_plan_ascends(names, types);
    lemma_failed_owners(search.owners, answers, answers.len());
    assert(answers.take(answers.len() as int) == answers);
    let after = after_answers(search, answers);
    if answers.len() > 0 && forall|k: int|
        0 <= k < answers.len() ==> (#[trigger] answers[k]) is Err {
        assert(!after.reached);
    }
}

/// An owner is searched as what it is: an organisation or a user; any other kind is not searched.
pub proof fn owners_are_searched_as_what_they_are(owner_type: Seq<char>)
    ensures
        qualifier_of("Organization"@) == Some("org"@),
        qualifier_of("User"@) == Some("user"@),
        owner_type != "Organization"@ && owner_type != "User"@ ==> qualifier_of(owner_type) is None,
{
    reveal_strlit("Organization");
    reveal_strlit("User");
    assert("Organization"@.len() == 12 && "User"@.len() == 4);
}

proof fn lemma_owner_types(access: Seq<RawRepoAccess>, owner: Seq<char>)
    ensures
        owner_types(access).contains_key(owner) <==> exists|i: int|
            0 <= i < access.len() && (#[trigger] access[i]).push && access[i].owner@ == owner,
        owner_types(access).contains_key(owner) ==> exists|i: int|
            0 <= i < access.len() && (#[trigger] access[i]).push && access[i].owner@ == owner
                && owner_types(access)[owner] == access[i].owner_type,
    decreases access.len(),
{
    if access.len() > 0 {
        let shorter = access.drop_last();
        let last = access.last();
        lemma_owner_types(shorter, owner);
        assert(access[access.len() - 1] == last);
        assert forall|i: int| 0 <= i < shorter.len() implies #[trigger] shorter[i] == access[i] by {}
        if exists|i: int|
            0 <= i < access.len() && (#[trigger] access[i]).push && access[i].owner@ == owner {
            let i = choose|i: int|
                0 <= i < access.len() && (#[trigger] access[i]).push && access[i].owner@ == owner;
            if i < shorter.len() {
                assert(shorter[i] == access[i]);
            }
        }
        if owner_types(shorter).contains_key(owner) {
            let i = choose|i: int|
                0 <= i < shorter.len() && (#[trigger] shorter[i]).push && shorter[i].owner@ == owner
                    && owner_types(shorter)[owner] == shorter[i].owner_type;
            assert(access[i] == shorter[i]);
        }
    }
}

proof fn lemma_searches_has(
    names: Seq<Seq<char>>,
    types: Map<Seq<char>, String>,
    owner: Seq<char>,
    qualifier: Seq<char>,
)
    ensures
        searches(names, types).contains((owner, qualifier)) <==> names.contains(owner)
            && qualifier_of(types[owner]@) == Some(qualifier),
    decreases names.len(),
{
    if names.len() > 0 {
        let shorter = names.drop_last();
        let last = names.last();
        let earlier = searches(shorter, types);
        let all = searches(names, types);
        lemma_searches_has(shorter, types, owner, qualifier);
        assert(names[names.len() - 1] == last);
        if shorter.contains(owner) {
            let i = choose|i: int| 0 <= i < shorter.len() && shorter[i] == owner;
            assert(names[i] == owner);
        }
        if names.contains(owner) && owner != last {
            let i = choose|i: int| 0 <= i < names.len() && names[i] == owner;
            assert(shorter[i] == owner);
        }
        if let Some(found) = qualifier_of(types[last]@) {
            assert(all == earlier.push((last, found)));
            assert(all[earlier.len() as int] == (last, found));
            if earlier.contains((owner, qualifier)) {
                let i = choose|i: int| 0 <= i < earlier.len() && earlier[i] == (owner, qualifier);
                assert(all[i] == (owner, qualifier));
            }
            if all.contains((owner, qualifier)) && !earlier.contains((owner, qualifier)) {
                let i = choose|i: int| 0 <= i < all.len() && all[i] == (owner, qualifier);
                if i < earlier.len() {
                    assert(earlier[i] == (owner, qualifier));
                }
            }
        }
    }
}

/// A search asks every owner of a repository that can be pushed to, organisations and users alike,
/// and no other; each once, in ascending order. Where all of an owner's repositories say the same of
/// its type, it is asked as that.
pub proof fn every_owner_is_searched(
    access: Seq<RawRepoAccess>,
    search: SearchView,
    owner: Seq<char>,
)
    requires
        is_start(access, search),
    ensures
        forall|i: int, j: int|
            0 <= i < j < search.owners.len() ==> precedes(
                (#[trigger] search.owners[i]).0,
                (#[trigger] search.owners[j]).0,
            ),
        search.owners.contains((owner, "org"@)) ==> exists|i: int|
            0 <= i < access.len() && (#[trigger] access[i]).push && access[i].owner@ == owner
                && access[i].owner_type@ == "Organization"@,
        search.owners.contains((owner, "user"@)) ==> exists|i: int|
            0 <= i < access.len() && (#[trigger] access[i]).push && access[i].owner@ == owner
                && access[i].owner_type@ == "User"@,
        (exists|i: int| 0 <= i < access.len() && (#[trigger] access[i]).push && access[i].owner@
            == owner) && (forall|i: int|
            0 <= i < access.len() && (#[trigger] access[i]).push && access[i].owner@ == owner
                ==> access[i].owner_type@ == "Organization"@) ==> search.owners.contains(
            (owner, "org"@),
        ),
        (exists|i: int| 0 <= i < access.len() && (#[trigger] access[i]).push && access[i].owner@
            == owner) && (forall|i: int|
            0 <= i < access.len() && (#[trigger] access[i]).push && access[i].owner@ == owner
                ==> access[i].owner_type@ == "User"@) ==> search.owners.contains((owner, "user"@)),
        search.next == 0,
        search.cards.len() == 0,
{
    let types = owner_types(access);
    let names = choose|names: Seq<Seq<char>>| #[trigger]
        ascending(names) && (forall|owner: Seq<char>|
            names.contains(owner) <==> types.contains_key(owner)) && search.owners == searches(
            names,
            types,
        );
    lemma_plan_ascends(names, types);
    lemma_owner_types(access, owner);
    lemma_searches_has(names, types, owner, "org"@);
    lemma_searches_has(names, types, owner, "user"@);
    owners_are_searched_as_what_they_are(types[owner]@);
    reveal_strlit("org");
    reveal_strlit("user");
    assert("org"@.len() == 3 && "user"@.len() == 4);
}

/// The query for an owner asks for its open issues that have any of the labels.
pub proof fn a_query_asks_for_open_issues(
    label: Seq<char>,
    second: Seq<char>,
    qualifier: Seq<char>,
    owner: Seq<char>,
)
    ensures
        search_query(seq![label], qualifier, owner) == "is:issue is:open label:"@ + (seq!['"']
            + label + seq!['"']) + " "@ + qualifier + ":"@ + owner,
        search_query(seq![label, second], qualifier, owner) == "is:issue is:open label:"@ + ((seq![
            '"',
        ] + label + seq!['"']) + ","@ + (seq!['"'] + second + seq!['"'])) + " "@ + qualifier + ":"@
            + owner,
{
    let one = seq!['"'] + label + seq!['"'];
    let two = seq!['"'] + second + seq!['"'];
    assert(quoted(seq![label]) == seq![one]);
    assert(quoted(seq![label, second]) == seq![one, two]);
    crate::text::a_separator_stands_between_two(one, seq![one], two, ","@);
}

/// An owner is asked for all pages of its open issues in any of the five columns, the oldest first.
pub proof fn an_owner_is_asked_for_all_of_its_cards(owner: Seq<char>, qualifier: Seq<char>)
    ensures
        ({
            let arguments = search_arguments((owner, qualifier));
            &&& arguments.take(5) == seq!["api"@, "-X"@, "GET"@, "--paginate"@, "/search/issues"@]
            &&& arguments[5] == "-f"@
            &&& arguments[6] == "q="@ + search_query(
                seq![
                    "board:backlog"@,
                    "board:ready"@,
                    "board:running"@,
                    "board:review"@,
                    "board:done"@,
                ],
                qualifier,
                owner,
            )
            &&& arguments[8] == "per_page=100"@
            &&& arguments[10] == "sort=created"@
            &&& arguments[12] == "order=asc"@
            &&& arguments[13] == "--jq"@
            &&& arguments.len() == 15
        }),
{
    let arguments = search_arguments((owner, qualifier));
    assert(arguments.take(5) == seq!["api"@, "-X"@, "GET"@, "--paginate"@, "/search/issues"@]);
    assert(words_of(BOARD_COLUMNS@) == seq![
        "board:backlog"@,
        "board:ready"@,
        "board:running"@,
        "board:review"@,
        "board:done"@,
    ]);
}

/// An issue belongs to the repository that the address of GitHub's interface names; any other
/// address names none.
pub proof fn an_address_names_its_repository(repo: Seq<char>, url: Seq<char>)
    ensures
        is_repo(repo) ==> repo_of_url("https://api.github.com/repos/"@ + repo) == Some(repo),
        repo_of_url(url) matches Some(found) ==> is_repo(found) && url
            == "https://api.github.com/repos/"@ + found,
{
    let start = "https://api.github.com/repos/"@;
    let whole = start + repo;
    assert(whole.take(start.len() as int) == start);
    assert(whole.skip(start.len() as int) == repo);
    if begins_with(url, start) {
        assert(url == start + url.skip(start.len() as int));
    }
}

/// The cards that were there stay, in their places; every issue that was found of a repository that
/// can be pushed to is on the board afterwards, under the name that the repository was listed with;
/// and nothing else was added.
pub proof fn every_found_issue_is_on_the_board(
    cards: Seq<RepositoryCardView>,
    pushable: Map<Seq<char>, String>,
    found: Seq<RawSearchIssue>,
    k: int,
)
    ensures
        ({
            let after = accept_all(cards, pushable, found);
            &&& after.len() >= cards.len()
            &&& after.take(cards.len() as int) == cards
            &&& 0 <= k < found.len() ==> match repo_of_url(found[k].repository_url@) {
                Some(name) => pushable.contains_key(lower(name)) ==> has_issue(
                    after,
                    pushable[lower(name)]@,
                    found[k].issue.number,
                ),
                None => true,
            }
            &&& forall|i: int|
                cards.len() <= i < after.len() ==> exists|j: int|
                    0 <= j < found.len() && (repo_of_url(
                        (#[trigger] found[j]).repository_url@,
                    ) matches Some(name) && pushable.contains_key(lower(name)) && (
                    #[trigger] after[i]) == (RepositoryCardView {
                        repo: pushable[lower(name)]@,
                        card: card_of(found[j].issue),
                    }))
        }),
    decreases found.len(),
{
    let after = accept_all(cards, pushable, found);
    if found.len() == 0 {
        assert(after.take(cards.len() as int) == cards);
    } else {
        let shorter = found.drop_last();
        let last = found.last();
        let earlier = accept_all(cards, pushable, shorter);
        every_found_issue_is_on_the_board(cards, pushable, shorter, k);
        assert(found[found.len() - 1] == last);
        assert(after.take(cards.len() as int) == earlier.take(cards.len() as int));
        assert forall|i: int| cards.len() <= i < after.len() implies exists|j: int|
            0 <= j < found.len() && (repo_of_url((#[trigger] found[j]).repository_url@) matches
                Some(name) && pushable.contains_key(lower(name)) && (#[trigger] after[i]) == (
            RepositoryCardView { repo: pushable[lower(name)]@, card: card_of(found[j].issue) })) by {
            if i < earlier.len() {
                assert(after[i] == earlier[i]);
                let j = choose|j: int|
                    0 <= j < shorter.len() && (repo_of_url(
                        (#[trigger] shorter[j]).repository_url@,
                    ) matches Some(name) && pushable.contains_key(lower(name)) && earlier[i] == (
                    RepositoryCardView {
                        repo: pushable[lower(name)]@,
                        card: card_of(shorter[j].issue),
                    }));
                assert(found[j] == shorter[j]);
            } else {
                assert(found[found.len() - 1] == last);
            }
        }
        if 0 <= k < found.len() {
            if let Some(name) = repo_of_url(found[k].repository_url@) {
                if pushable.contains_key(lower(name)) {
                    let repo = pushable[lower(name)]@;
                    let number = found[k].issue.number;
                    if k < shorter.len() {
                        assert(shorter[k] == found[k]);
                        let i = choose|i: int|
                            0 <= i < earlier.len() && crate::board::same_issue(
                                #[trigger] earlier[i],
                                repo,
                                number,
                            );
                        assert(after[i] == earlier[i]);
                    } else if has_issue(earlier, repo, number) {
                        assert(after == earlier);
                    } else {
                        let i = earlier.len() as int;
                        assert(after[i].repo == repo && after[i].card.number == number);
                        assert(crate::board::same_issue(after[i], repo, number));
                    }
                }
            }
        }
    }
}

/// The owners are asked one after the other, until all were asked.
pub proof fn the_next_owner_is_asked(search: &BoardSearch, arguments: Option<Vec<String>>)
    requires
        0 <= search@.next,
        call_ensures(BoardSearch::next_arguments, (search,), arguments),
    ensures
        arguments is Some <==> search@.next < search@.owners.len(),
        arguments matches Some(arguments) ==> texts(arguments@) == search_arguments(
            search@.owners[search@.next],
        ),
{
}

/// A search that could not list the repositories has failed, and says why.
pub proof fn a_search_without_repositories_failed(error: ApiError, outcome: SearchOutcome)
    requires
        call_ensures(access_failure, (error,), outcome),
    ensures
        outcome matches SearchOutcome::Failed(failure) && failure.error@ == error@
            && failure.unavailable_owners@ == Seq::<String>::empty(),
{
    if let SearchOutcome::Failed(failure) = outcome {
        assert(failure.unavailable_owners@ == Seq::<String>::empty());
    }
}

/// A search has failed exactly where no owner was reached and one could not be; otherwise it comes
/// to the cards that were found.
pub proof fn a_search_comes_to_what_was_found(search: BoardSearch, outcome: SearchOutcome)
    requires
        call_ensures(BoardSearch::finish, (search,), outcome),
    ensures
        outcome is Failed <==> !search@.reached && search@.last_error is Some,
        outcome matches SearchOutcome::Found(found) ==> entries(found.cards@) == search@.cards
            && texts(found.unavailable_owners@) == search@.unavailable_owners,
        outcome matches SearchOutcome::Failed(failure) ==> Some(failure.error@)
            == search@.last_error && texts(failure.unavailable_owners@)
            == search@.unavailable_owners,
{
}

} // verus!
