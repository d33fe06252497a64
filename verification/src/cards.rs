//! Issues as cards: reading them, listing them, moving them, and telling an agent about them.
use crate::board::Github;
use crate::config::{is_trusted, trusted};
use crate::error::{fault, ApiError, ErrorView};
use crate::github::{bad_page, ISSUE_FIELDS};
use crate::model::{is_column, maybe_str, valid_column, Card, CardView, Comment, Page, Repo};
use crate::order::{
    lemma_filter_all, lemma_filter_none, lemma_precedes_total, lemma_precedes_transitive, precedes,
    sorts, stable_sort, text_precedes, Ranked,
};
use crate::text::{
    begins_with, blank, decimal, decimal_of, is_blank, lines, lines_of, list_contains, maybe_text,
    same_text, split_at_char, split_once, strings, strip_prefix, texts,
};
use vstd::prelude::*;

verus! {

// ---------------------------------------------------------------------------------------------
// Issues
// ---------------------------------------------------------------------------------------------

/// An issue as GitHub describes it.
#[derive(Clone, Debug)]
pub struct RawIssue {
    pub number: u64,
    pub author: Option<RawAuthor>,
    pub title: String,
    pub body: Option<String>,
    pub labels: Vec<RawLabel>,
    pub url: String,
    pub created_at: String,
    pub updated_at: String,
}

#[derive(Clone, Debug)]
pub struct RawAuthor {
    pub login: String,
}

#[derive(Clone, Debug)]
pub struct RawLabel {
    pub name: String,
}

/// The names of labels.
pub open spec fn label_names(labels: Seq<RawLabel>) -> Seq<Seq<char>> {
    labels.map_values(|label: RawLabel| label.name@)
}

/// The first of some labels that is a column of the board.
pub open spec fn first_column(labels: Seq<Seq<char>>) -> Option<Seq<char>>
    decreases labels.len(),
{
    if labels.len() == 0 {
        None
    } else if is_column(labels[0]) {
        Some(labels[0])
    } else {
        first_column(labels.skip(1))
    }
}

/// An issue as a card.
pub open spec fn card_of(issue: RawIssue) -> CardView {
    let labels = label_names(issue.labels@);
    CardView {
        number: issue.number,
        author_login: match issue.author {
            Some(author) => Some(author.login@),
            None => None,
        },
        title: issue.title@,
        body: match issue.body {
            Some(body) => body@,
            None => seq![],
        },
        column: first_column(labels),
        labels,
        url: issue.url@,
        created_at: issue.created_at@,
        updated_at: issue.updated_at@,
    }
}

fn names_of(labels: &Vec<RawLabel>) -> (names: Vec<String>)
    ensures
        texts(names@) == label_names(labels@),
{
    let mut names: Vec<String> = Vec::new();
    let mut i: usize = 0;
    while i < labels.len()
        invariant
            i <= labels@.len(),
            texts(names@) == label_names(labels@).take(i as int),
        decreases labels@.len() - i,
    {
        let ghost before = names@;
        names.push(labels[i].name.clone());
        assert(texts(names@) == texts(before).push(labels@[i as int].name@));
        assert(label_names(labels@).take(i + 1) == label_names(labels@).take(i as int).push(
            labels@[i as int].name@,
        ));
        i += 1;
    }
    assert(label_names(labels@).take(i as int) == label_names(labels@));
    names
}

fn column_of(labels: &Vec<String>) -> (column: Option<String>)
    ensures
        maybe_text(column) == first_column(texts(labels@)),
{
    let ghost all = texts(labels@);
    let mut i: usize = 0;
    assert(all.skip(0) == all);
    while i < labels.len()
        invariant
            all == texts(labels@),
            i <= labels@.len(),
            first_column(all) == first_column(all.skip(i as int)),
        decreases labels@.len() - i,
    {
        assert(all.skip(i as int)[0] == labels@[i as int]@);
        assert(all.skip(i as int).skip(1) == all.skip(i + 1));
        if valid_column(labels[i].as_str()) {
            return Some(labels[i].clone());
        }
        i += 1;
    }
    None
}

/// An issue as a card. Its column is the first of its labels that is one; a missing author stays
/// missing.
pub fn card_from_raw(issue: RawIssue) -> (card: Card)
    ensures
        card@ == card_of(issue),
{
    let labels = names_of(&issue.labels);
    let column = column_of(&labels);
    Card {
        number: issue.number,
        author_login: match issue.author {
            Some(author) => Some(author.login),
            None => None,
        },
        title: issue.title,
        body: match issue.body {
            Some(body) => body,
            None => String::new(),
        },
        column,
        labels,
        url: issue.url,
        created_at: issue.created_at,
        updated_at: issue.updated_at,
    }
}

/// What each of a sequence of cards says.
pub open spec fn card_views(cards: Seq<Card>) -> Seq<CardView> {
    cards.map_values(|card: Card| card@)
}

/// The issues as cards.
pub open spec fn cards_of(issues: Seq<RawIssue>) -> Seq<CardView> {
    issues.map_values(|issue: RawIssue| card_of(issue))
}

/// What is said of JSON that is not what it should be.
pub open spec fn bad_issue_json(reason: Seq<char>) -> ErrorView {
    fault("invalid gh issue JSON: "@ + reason)
}

/// The issue that the command line printed, once its JSON is decoded.
pub fn parse_issue(decoded: Result<RawIssue, String>) -> (result: Result<Card, ApiError>)
    ensures
        match decoded {
            Ok(issue) => result is Ok && result->Ok_0@ == card_of(issue),
            Err(reason) => result is Err && result->Err_0@ == bad_issue_json(reason@),
        },
{
    match decoded {
        Ok(issue) => Ok(card_from_raw(issue)),
        Err(reason) => Err(
            ApiError::internal("invalid gh issue JSON: ".to_owned().concat(reason.as_str())),
        ),
    }
}

/// The issues that the command line printed, once their JSON is decoded.
pub fn parse_issues(decoded: Result<Vec<RawIssue>, String>) -> (result: Result<Vec<Card>, ApiError>)
    ensures
        match decoded {
            Ok(issues) => result is Ok && card_views(result->Ok_0@) == cards_of(issues@),
            Err(reason) => result is Err && result->Err_0@ == bad_issue_json(reason@),
        },
{
    match decoded {
        Ok(issues) => {
            let ghost all = issues@;
            let mut cards: Vec<Card> = Vec::new();
            for issue in iter: issues
                invariant
                    iter.seq() == all,
                    card_views(cards@) == cards_of(all.take(iter.index() as int)),
            {
                let ghost before = cards@;
                let ghost done = iter.index() as int;
                cards.push(card_from_raw(issue));
                assert(all.take(done + 1) == all.take(done).push(issue));
                assert(card_views(cards@) == card_views(before).push(card_of(issue)));
                assert(cards_of(all.take(done + 1)) == cards_of(all.take(done)).push(
                    card_of(issue),
                ));
            }
            assert(all.take(all.len() as int) == all);
            Ok(cards)
        },
        Err(reason) => Err(
            ApiError::internal("invalid gh issue JSON: ".to_owned().concat(reason.as_str())),
        ),
    }
}

// ---------------------------------------------------------------------------------------------
// One JSON value on each line
// ---------------------------------------------------------------------------------------------

/// The lines that hold anything but white space.
pub open spec fn filled_lines(lines: Seq<Seq<char>>) -> Seq<Seq<char>>
    decreases lines.len(),
{
    if lines.len() == 0 {
        seq![]
    } else if is_blank(lines.last()) {
        filled_lines(lines.drop_last())
    } else {
        filled_lines(lines.drop_last()).push(lines.last())
    }
}

/// `decode` may give `result` for a line with these characters.
pub open spec fn decodes<T, F: Fn(&str) -> Result<T, String>>(
    decode: F,
    line: Seq<char>,
    result: Result<T, String>,
) -> bool {
    exists|text: &str| text@ == line && #[trigger] decode.ensures((text,), result)
}

/// `decode` may give an item for a line with these characters.
pub open spec fn decodable<T, F: Fn(&str) -> Result<T, String>>(decode: F, line: Seq<char>) -> bool {
    exists|item: T| #[trigger] decodes(decode, line, Ok::<T, String>(item))
}

/// What is said of a line that cannot be decoded, counted from one among the filled lines.
pub open spec fn bad_line(kind: Seq<char>, number: nat, reason: Seq<char>) -> ErrorView {
    fault("invalid "@ + kind + " JSON on line "@ + decimal(number) + ": "@ + reason)
}

fn bad_line_error(kind: &str, number: usize, reason: &str) -> (error: ApiError)
    ensures
        error@ == bad_line(kind@, number as nat, reason@),
{
    let mut message = "invalid ".to_owned();
    message.append(kind);
    message.append(" JSON on line ");
    message.append(decimal_of(number as u64).as_str());
    message.append(": ");
    message.append(reason);
    ApiError::internal(message)
}

/// What comes of decoding each line that holds anything but white space: all items, or the first
/// line that cannot be decoded.
pub open spec fn reads_lines<T, F: Fn(&str) -> Result<T, String>>(
    output: Seq<char>,
    kind: Seq<char>,
    decode: F,
    result: Result<Vec<T>, ApiError>,
) -> bool {
    let wanted = filled_lines(lines(output));
    match result {
        Ok(items) => items@.len() == wanted.len() && forall|i: int|
            0 <= i < items@.len() ==> decodes(
                decode,
                wanted[i],
                Ok::<T, String>(#[trigger] items@[i]),
            ),
        Err(error) => exists|bad: int, reason: String|
            0 <= bad < wanted.len() && #[trigger] decodes(
                decode,
                wanted[bad],
                Err::<T, String>(reason),
            ) && error@ == bad_line(kind, (bad + 1) as nat, reason@) && forall|i: int|
                0 <= i < bad ==> decodable::<T, F>(decode, #[trigger] wanted[i]),
    }
}

/// Decodes each line that holds anything but white space. The first line that cannot be decoded
/// is the error.
pub fn parse_json_lines<T, F: Fn(&str) -> Result<T, String>>(
    output: &str,
    kind: &str,
    decode: F,
) -> (result: Result<Vec<T>, ApiError>)
    requires
        forall|line: &str| decode.requires((line,)),
    ensures
        reads_lines(output@, kind@, decode, result),
{
    let all = lines_of(output);
    let ghost views = texts(all@);
    let mut items: Vec<T> = Vec::new();
    let mut i: usize = 0;
    assert(views.take(0) == Seq::<Seq<char>>::empty());
    while i < all.len()
        invariant
            views == texts(all@),
            views == lines(output@),
            i <= all@.len(),
            items@.len() <= i,
            forall|line: &str| decode.requires((line,)),
            items@.len() == filled_lines(views.take(i as int)).len(),
            forall|k: int|
                0 <= k < items@.len() ==> decodes(
                    decode,
                    filled_lines(views.take(i as int))[k],
                    Ok::<T, String>(#[trigger] items@[k]),
                ),
        decreases all@.len() - i,
    {
        let ghost done = filled_lines(views.take(i as int));
        assert(views.take(i + 1).drop_last() == views.take(i as int));
        assert(views.take(i + 1).last() == all@[i as int]@);
        if !blank(all[i].as_str()) {
            let ghost next = filled_lines(views.take(i + 1));
            assert(next == done.push(all@[i as int]@));
            let ghost before = items@;
            let line = all[i].as_str();
            let decoded = decode(line);
            assert(decodes(decode, line@, decoded));
            match decoded {
                Ok(item) => {
                    items.push(item);
                    assert forall|k: int| 0 <= k < items@.len() implies decodes(
                        decode,
                        next[k],
                        Ok::<T, String>(#[trigger] items@[k]),
                    ) by {
                        if k < before.len() {
                            assert(decodes(decode, done[k], Ok::<T, String>(before[k])));
                            assert(next[k] == done[k]);
                        }
                    }
                },
                Err(reason) => {
                    let error = bad_line_error(kind, items.len() + 1, reason.as_str());
                    proof {
                        let full = filled_lines(views);
                        lemma_filled_start(views, i + 1);
                        let bad = done.len() as int;
                        assert(full[bad] == next[bad]);
                        assert(decodes(decode, full[bad], Err::<T, String>(reason)));
                        assert forall|k: int| 0 <= k < bad implies decodable::<T, F>(
                            decode,
                            #[trigger] full[k],
                        ) by {
                            assert(full[k] == next[k]);
                            assert(next[k] == done[k]);
                            assert(decodes(decode, done[k], Ok::<T, String>(items@[k])));
                        }
                    }
                    return Err(error);
                },
            }
        }
        i += 1;
    }
    assert(views.take(i as int) == views);
    Ok(items)
}

/// The repositories that the command line printed, one on each line.
pub fn parse_repo_stream<F: Fn(&str) -> Result<Repo, String>>(output: &str, decode: F) -> (result:
    Result<Vec<Repo>, ApiError>)
    requires
        forall|line: &str| decode.requires((line,)),
    ensures
        reads_lines(output@, "gh repository"@, decode, result),
{
    parse_json_lines(output, "gh repository", decode)
}

/// The filled lines of a start are a start of the filled lines.
proof fn lemma_filled_start(lines: Seq<Seq<char>>, len: int)
    requires
        0 <= len <= lines.len(),
    ensures
        filled_lines(lines.take(len)).len() <= filled_lines(lines).len(),
        forall|k: int|
            0 <= k < filled_lines(lines.take(len)).len() ==> #[trigger] filled_lines(
                lines.take(len),
            )[k] == filled_lines(lines)[k],
    decreases lines.len() - len,
{
    if len < lines.len() {
        lemma_filled_start(lines, len + 1);
        assert(lines.take(len + 1).drop_last() == lines.take(len));
        assert(lines.take(len + 1).last() == lines[len]);
        let shorter = filled_lines(lines.take(len));
        let longer = filled_lines(lines.take(len + 1));
        assert forall|k: int| 0 <= k < shorter.len() implies #[trigger] shorter[k]
            == filled_lines(lines)[k] by {
            assert(longer[k] == shorter[k]);
        }
    } else {
        assert(lines.take(len) == lines);
    }
}

// ---------------------------------------------------------------------------------------------
// Pages
// ---------------------------------------------------------------------------------------------

/// At most `size` of the things from position `start` on.
pub open spec fn page_slice<T>(items: Seq<T>, start: int, size: int) -> Seq<T> {
    let len = items.len() as int;
    let from = if start <= len {
        start
    } else {
        len
    };
    let to = if start + size <= len {
        start + size
    } else {
        len
    };
    items.subrange(from, to)
}

/// At most `size` of the things from position `start` on.
pub fn take_page<T>(items: Vec<T>, start: usize, size: usize) -> (page: Vec<T>)
    ensures
        page@ == page_slice(items@, start as int, size as int),
{
    let mut items = items;
    let ghost all = items@;
    if start >= items.len() {
        let none: Vec<T> = Vec::new();
        assert(none@ == page_slice(all, start as int, size as int));
        return none;
    }
    let mut page = items.split_off(start);
    assert(page@ == all.subrange(start as int, all.len() as int));
    if page.len() > size {
        page.truncate(size);
    }
    assert(page@ == page_slice(all, start as int, size as int));
    page
}

/// The arguments that list as many open issues as the pages up to the wanted one hold.
pub open spec fn list_arguments(repo: Seq<char>, limit: nat) -> Seq<Seq<char>> {
    seq![
        "issue"@,
        "list"@,
        "--repo"@,
        repo,
        "--state"@,
        "open"@,
        "--limit"@,
        decimal(limit),
        "--json"@,
        ISSUE_FIELDS@,
    ]
}

/// The arguments that list the issues for a page; there are at most 5000.
pub fn list_cards_arguments(repo: &str, page: usize, per_page: usize) -> (result: Result<
    Vec<String>,
    ApiError,
>)
    ensures
        match result {
            Ok(arguments) => page * per_page <= 5_000 && texts(arguments@) == list_arguments(
                repo@,
                (page * per_page) as nat,
            ),
            Err(error) => page * per_page > 5_000 && error@ == bad_page(),
        },
{
    let limit = match page.checked_mul(per_page) {
        Some(limit) => if limit <= 5_000 {
            limit
        } else {
            return Err(ApiError::bad_request("page_too_large", "requested page is too large"));
        },
        None => {
            return Err(ApiError::bad_request("page_too_large", "requested page is too large"));
        },
    };
    let count = decimal_of(limit as u64);
    Ok(
        strings(
            vec![
                "issue",
                "list",
                "--repo",
                repo,
                "--state",
                "open",
                "--limit",
                count.as_str(),
                "--json",
                ISSUE_FIELDS,
            ],
        ),
    )
}

/// The cards of a column, or all cards.
pub open spec fn in_column(column: Option<Seq<char>>) -> spec_fn(CardView) -> bool {
    |card: CardView| column is None || card.column == column
}

fn is_in_column(card: &Card, column: Option<&str>) -> (yes: bool)
    ensures
        yes == in_column(maybe_str(column))(card@),
{
    match column {
        None => true,
        Some(column) => match &card.column {
            Some(own) => same_text(own.as_str(), column),
            None => false,
        },
    }
}

/// A page of the cards of a column, or of all cards.
pub open spec fn is_card_page(
    cards: Seq<CardView>,
    column: Option<Seq<char>>,
    page: int,
    per_page: int,
    result: Page<Card>,
) -> bool {
    let kept = cards.filter(in_column(column));
    let start = (page - 1) * per_page;
    &&& card_views(result.items@) == page_slice(kept, start, per_page)
    &&& result.has_more == (kept.len() > start + per_page)
    &&& result.page == page
    &&& result.per_page == per_page
}

/// One page of the cards of a column, or of all cards.
pub fn card_page(cards: Vec<Card>, column: Option<&str>, page: usize, per_page: usize) -> (result:
    Page<Card>)
    requires
        page >= 1,
        page * per_page <= 5_000,
    ensures
        is_card_page(
            card_views(cards@),
            maybe_str(column),
            page as int,
            per_page as int,
            result,
        ),
{
    let ghost all = cards@;
    let ghost views = card_views(all);
    let ghost keep = in_column(maybe_str(column));
    let mut kept: Vec<Card> = Vec::new();
    proof {
        reveal(Seq::filter);
        assert(views.take(0) == Seq::<CardView>::empty());
        assert(card_views(kept@) == Seq::<CardView>::empty());
    }
    for card in iter: cards
        invariant
            iter.seq() == all,
            views == card_views(all),
            keep == in_column(maybe_str(column)),
            card_views(kept@) == views.take(iter.index() as int).filter(keep),
    {
        let ghost done = iter.index() as int;
        let ghost before = kept@;
        proof {
            reveal(Seq::filter);
            assert(views.take(done + 1).drop_last() == views.take(done));
            assert(views.take(done + 1).last() == card@);
        }
        if is_in_column(&card, column) {
            kept.push(card);
            assert(card_views(kept@) == card_views(before).push(card@));
        }
    }
    assert(views.take(views.len() as int) == views);
    let ghost filtered = kept@;
    assert(filtered.len() == views.filter(keep).len());
    assert((page - 1) * per_page <= page * per_page) by (nonlinear_arith)
        requires
            page >= 1,
    ;
    assert((page - 1) * per_page + per_page == page * per_page) by (nonlinear_arith)
        requires
            page >= 1,
    ;
    let start: usize = (page - 1) * per_page;
    let has_more = kept.len() > start + per_page;
    let items = take_page(kept, start, per_page);
    assert(card_views(items@) == page_slice(views.filter(keep), start as int, per_page as int)) by {
        assert(card_views(page_slice(filtered, start as int, per_page as int)) == page_slice(
            card_views(filtered),
            start as int,
            per_page as int,
        ));
    }
    Page { items, page, per_page, has_more }
}

// ---------------------------------------------------------------------------------------------
// Moving a card
// ---------------------------------------------------------------------------------------------

/// The columns that a card leaves when it goes to `column`.
pub open spec fn left_columns(column: Seq<char>) -> spec_fn(Seq<char>) -> bool {
    |label: Seq<char>| is_column(label) && label != column
}

/// The arguments that take labels away.
pub open spec fn removals(labels: Seq<Seq<char>>) -> Seq<Seq<char>>
    decreases labels.len(),
{
    if labels.len() == 0 {
        seq![]
    } else {
        removals(labels.drop_last()).push("--remove-label"@).push(labels.last())
    }
}

/// The arguments that move a card: the other columns go, and the wanted one comes unless it is
/// there. Nothing else of the issue is named.
pub open spec fn move_arguments(
    repo: Seq<char>,
    number: nat,
    column: Seq<char>,
    labels: Seq<Seq<char>>,
) -> Seq<Seq<char>> {
    let start = seq!["issue"@, "edit"@, decimal(number), "--repo"@, repo] + removals(
        labels.filter(left_columns(column)),
    );
    if labels.contains(column) {
        start
    } else {
        start.push("--add-label"@).push(column)
    }
}

/// The arguments that move a card with the given labels to a column.
pub fn move_card_arguments(repo: &str, number: u64, column: &str, labels: &Vec<String>) -> (
    arguments: Vec<String>)
    ensures
        texts(arguments@) == move_arguments(repo@, number as nat, column@, texts(labels@)),
{
    let issue = decimal_of(number);
    let mut arguments = strings(vec!["issue", "edit", issue.as_str(), "--repo", repo]);
    let ghost start = texts(arguments@);
    let ghost all = texts(labels@);
    let ghost leave = left_columns(column@);
    let mut i: usize = 0;
    proof {
        reveal(Seq::filter);
        assert(all.take(0) == Seq::<Seq<char>>::empty());
        assert(start + removals(Seq::<Seq<char>>::empty()) == start);
    }
    while i < labels.len()
        invariant
            all == texts(labels@),
            leave == left_columns(column@),
            i <= labels@.len(),
            texts(arguments@) == start + removals(all.take(i as int).filter(leave)),
        decreases labels@.len() - i,
    {
        let ghost before = arguments@;
        let ghost gone = all.take(i as int).filter(leave);
        proof {
            reveal(Seq::filter);
            assert(all.take(i + 1).drop_last() == all.take(i as int));
            assert(all.take(i + 1).last() == labels@[i as int]@);
        }
        if valid_column(labels[i].as_str()) && !same_text(labels[i].as_str(), column) {
            arguments.push("--remove-label".to_owned());
            arguments.push(labels[i].clone());
            proof {
                let label = labels@[i as int]@;
                assert(gone.push(label).drop_last() == gone);
                assert(texts(arguments@) == texts(before).push("--remove-label"@).push(label));
                assert(texts(arguments@) == start + removals(gone.push(label)));
            }
        }
        i += 1;
    }
    assert(all.take(i as int) == all);
    if !list_contains(labels, column) {
        let ghost before = arguments@;
        arguments.push("--add-label".to_owned());
        arguments.push(column.to_owned());
        assert(texts(arguments@) == texts(before).push("--add-label"@).push(column@));
    }
    arguments
}

/// The labels of an issue once the arguments that move it have been carried out.
pub open spec fn moved_labels(labels: Seq<Seq<char>>, column: Seq<char>) -> Seq<Seq<char>> {
    let kept = labels.filter(|label: Seq<char>| !left_columns(column)(label));
    if labels.contains(column) {
        kept
    } else {
        kept.push(column)
    }
}

proof fn lemma_filter_has<T>(items: Seq<T>, keep: spec_fn(T) -> bool, item: T)
    ensures
        items.filter(keep).contains(item) <==> items.contains(item) && keep(item),
    decreases items.len(),
{
    reveal(Seq::filter);
    if items.len() > 0 {
        let shorter = items.drop_last();
        lemma_filter_has(shorter, keep, item);
        let rest = shorter.filter(keep);
        if items.contains(item) && !shorter.contains(item) {
            let i = choose|i: int| 0 <= i < items.len() && items[i] == item;
            if i < items.len() - 1 {
                assert(shorter[i] == item);
            }
            assert(items.last() == item);
        }
        if shorter.contains(item) {
            let i = choose|i: int| 0 <= i < shorter.len() && shorter[i] == item;
            assert(items[i] == item);
        }
        if keep(items.last()) {
            assert(rest.push(items.last())[rest.len() as int] == items.last());
            if rest.contains(item) {
                let i = choose|i: int| 0 <= i < rest.len() && rest[i] == item;
                assert(rest.push(items.last())[i] == item);
            }
            if items.filter(keep).contains(item) && !rest.contains(item) {
                let whole = rest.push(items.last());
                let i = choose|i: int| 0 <= i < whole.len() && whole[i] == item;
                if i < rest.len() {
                    assert(rest[i] == item);
                }
            }
        }
        assert(items[items.len() - 1] == items.last());
    }
}

/// After a move the card is in exactly the wanted column, and its other labels are as they were.
pub proof fn a_moved_card_is_in_one_column(
    labels: Seq<Seq<char>>,
    column: Seq<char>,
    label: Seq<char>,
)
    requires
        is_column(column),
    ensures
        is_column(label) ==> (moved_labels(labels, column).contains(label) <==> label == column),
        !is_column(label) ==> (moved_labels(labels, column).contains(label) <==> labels.contains(
            label,
        )),
{
    let keep = |label: Seq<char>| !left_columns(column)(label);
    lemma_filter_has(labels, keep, label);
    let kept = labels.filter(keep);
    if !labels.contains(column) {
        let after = kept.push(column);
        assert(after[kept.len() as int] == column);
        if kept.contains(label) {
            let i = choose|i: int| 0 <= i < kept.len() && kept[i] == label;
            assert(after[i] == label);
        }
        if after.contains(label) {
            let i = choose|i: int| 0 <= i < after.len() && after[i] == label;
            if i < kept.len() {
                assert(kept[i] == label);
            }
        }
    }
}

proof fn lemma_first_column(labels: Seq<Seq<char>>)
    ensures
        match first_column(labels) {
            Some(column) => is_column(column) && labels.contains(column),
            None => forall|label: Seq<char>| labels.contains(label) ==> !is_column(label),
        },
    decreases labels.len(),
{
    if labels.len() > 0 {
        let rest = labels.skip(1);
        lemma_first_column(rest);
        assert(labels.contains(labels[0]));
        assert forall|label: Seq<char>| labels.contains(label) implies label == labels[0]
            || rest.contains(label) by {
            let i = choose|i: int| 0 <= i < labels.len() && labels[i] == label;
            if i > 0 {
                assert(rest[i - 1] == label);
            }
        }
        if let Some(column) = first_column(rest) {
            let i = choose|i: int| 0 <= i < rest.len() && rest[i] == column;
            assert(labels[i + 1] == column);
        }
    }
}

/// After a move the card's column is the wanted one.
pub proof fn a_moved_card_is_where_it_was_sent(labels: Seq<Seq<char>>, column: Seq<char>)
    requires
        is_column(column),
    ensures
        first_column(moved_labels(labels, column)) == Some(column),
{
    let after = moved_labels(labels, column);
    lemma_first_column(after);
    a_moved_card_is_in_one_column(labels, column, column);
    if let Some(found) = first_column(after) {
        a_moved_card_is_in_one_column(labels, column, found);
    }
}

// ---------------------------------------------------------------------------------------------
// Comments, and what an agent is told
// ---------------------------------------------------------------------------------------------

impl Ranked for Comment {
    /// Older comments come first.
    open spec fn ranks(self, other: Comment) -> bool {
        !precedes(other.created_at@, self.created_at@)
    }

    proof fn ranks_total(left: Comment, right: Comment) {
        lemma_precedes_total(left.created_at@, right.created_at@);
    }

    proof fn ranks_transitive(first: Comment, second: Comment, third: Comment) {
        if precedes(third.created_at@, first.created_at@) {
            lemma_precedes_total(first.created_at@, second.created_at@);
            if first.created_at@ != second.created_at@ {
                lemma_precedes_transitive(
                    third.created_at@,
                    first.created_at@,
                    second.created_at@,
                );
            }
        }
    }

    fn may_precede(&self, other: &Comment) -> (yes: bool) {
        !text_precedes(other.created_at.as_str(), self.created_at.as_str())
    }
}

/// The arguments that read the comments of an issue.
pub fn list_comments_arguments(repo: &str, number: u64) -> (arguments: Vec<String>)
    ensures
        texts(arguments@) == seq![
            "api"@,
            "--paginate"@,
            "/repos/"@ + repo@ + "/issues/"@ + decimal(number as nat) + "/comments?per_page=100"@,
            "--jq"@,
            ".[] | {author: (if .user == null then null else {login: .user.login} end), body, url: .html_url, createdAt: .created_at, updatedAt: .updated_at}"@,
        ],
{
    let mut address = "/repos/".to_owned();
    address.append(repo);
    address.append("/issues/");
    address.append(decimal_of(number).as_str());
    address.append("/comments?per_page=100");
    strings(
        vec![
            "api",
            "--paginate",
            address.as_str(),
            "--jq",
            ".[] | {author: (if .user == null then null else {login: .user.login} end), body, url: .html_url, createdAt: .created_at, updatedAt: .updated_at}",
        ],
    )
}

/// The arguments that add a comment to an issue and read it back.
pub fn create_comment_arguments(repo: &str, number: u64, body: &str) -> (arguments: Vec<String>)
    ensures
        texts(arguments@) == seq![
            "api"@,
            "-X"@,
            "POST"@,
            "/repos/"@ + repo@ + "/issues/"@ + decimal(number as nat) + "/comments"@,
            "-f"@,
            "body="@ + body@,
            "--jq"@,
            "{author: (if .user == null then null else {login: .user.login} end), body, url: .html_url, createdAt: .created_at, updatedAt: .updated_at}"@,
        ],
{
    let mut address = "/repos/".to_owned();
    address.append(repo);
    address.append("/issues/");
    address.append(decimal_of(number).as_str());
    address.append("/comments");
    let field = "body=".to_owned().concat(body);
    strings(
        vec![
            "api",
            "-X",
            "POST",
            address.as_str(),
            "-f",
            field.as_str(),
            "--jq",
            "{author: (if .user == null then null else {login: .user.login} end), body, url: .html_url, createdAt: .created_at, updatedAt: .updated_at}",
        ],
    )
}

/// A page of comments.
pub open spec fn comments_page(
    comments: Seq<Comment>,
    page: int,
    per_page: int,
    result: Page<Comment>,
) -> bool {
    let start = (page - 1) * per_page;
    exists|sorted: Seq<Comment>| #[trigger]
        sorts(comments, sorted) && result.items@ == page_slice(sorted, start, per_page)
            && result.has_more == (comments.len() > start + per_page) && result.page == page
            && result.per_page == per_page
}

/// Where a page starts, unless that is beyond position 5000.
pub fn page_start(page: usize, per_page: usize) -> (start: Option<usize>)
    requires
        page >= 1,
    ensures
        match start {
            Some(start) => start == (page - 1) * per_page && start <= 5_000,
            None => (page - 1) * per_page > 5_000,
        },
{
    match (page - 1).checked_mul(per_page) {
        Some(start) => if start <= 5_000 {
            Some(start)
        } else {
            None
        },
        None => None,
    }
}

/// One page of comments, oldest first.
pub fn list_comments(comments: Vec<Comment>, page: usize, per_page: usize) -> (result: Result<
    Page<Comment>,
    ApiError,
>)
    requires
        page >= 1,
    ensures
        match result {
            Ok(result) => (page - 1) * per_page <= 5_000 && comments_page(
                comments@,
                page as int,
                per_page as int,
                result,
            ),
            Err(error) => (page - 1) * per_page > 5_000 && error@ == bad_page(),
        },
{
    match page_start(page, per_page) {
        Some(start) => {
            let sorted = stable_sort(comments);
            let count: usize = sorted.len();
            let has_more = count > start && count - start > per_page;
            let ghost view = sorted@;
            let result = Page { items: take_page(sorted, start, per_page), page, per_page, has_more };
            assert(sorts(comments@, view));
            assert(result.items@ == page_slice(view, (page - 1) * per_page, per_page as int));
            Ok(result)
        },
        None => Err(ApiError::bad_request("page_too_large", "requested page is too large")),
    }
}

/// A comment in which the service itself reports on a job.
pub open spec fn is_job_report(body: Seq<char>) -> bool {
    let start = "Board job `"@;
    begins_with(body, start) && match split_once(body.skip(start.len() as int), '`') {
        Some((_, rest)) => begins_with(rest, " opened "@) || begins_with(
            rest,
            " did not open a pull request"@,
        ),
        None => false,
    }
}

/// Whether the service itself reports on a job in a comment.
pub fn job_report(body: &str) -> (yes: bool)
    ensures
        yes == is_job_report(body@),
{
    match strip_prefix(body, "Board job `") {
        Some(rest) => match split_at_char(rest.as_str(), '`') {
            Some((_, tail)) => crate::text::starts_with(tail.as_str(), " opened ")
                || crate::text::starts_with(tail.as_str(), " did not open a pull request"),
            None => false,
        },
        None => false,
    }
}

/// A comment that an agent is told: its author is trusted, and it is not a report on a job.
pub open spec fn is_told(comment: Comment, allowed: Seq<Seq<char>>) -> bool {
    trusted(allowed, maybe_text(comment.author_login)) && !is_job_report(comment.body@)
}

/// What an agent is told of one comment.
pub open spec fn told_comment(comment: Comment) -> Seq<char> {
    "\n\nComment by "@ + maybe_text(comment.author_login)->0 + ":\n"@ + comment.body@
}

/// What an agent is told of the comments.
pub open spec fn told_comments(comments: Seq<Comment>, allowed: Seq<Seq<char>>) -> Seq<char>
    decreases comments.len(),
{
    if comments.len() == 0 {
        seq![]
    } else {
        let earlier = told_comments(comments.drop_last(), allowed);
        if is_told(comments.last(), allowed) {
            earlier + told_comment(comments.last())
        } else {
            earlier
        }
    }
}

/// What an agent is told of an issue.
pub open spec fn prompt_of(
    card: CardView,
    number: nat,
    comments: Seq<Comment>,
    allowed: Seq<Seq<char>>,
) -> Seq<char> {
    "Work GitHub issue #"@ + decimal(number) + ": "@ + card.title + "\n\n"@ + card.body
        + "\n\nIssue URL: "@ + card.url + told_comments(comments, allowed)
}

impl Github {
    /// What an agent is told of an issue and of the comments of trusted authors.
    pub fn issue_prompt(card: &Card, number: u64, comments: &Vec<Comment>, allowed: &Vec<String>) -> (
        prompt: String)
        ensures
            prompt@ == prompt_of(card@, number as nat, comments@, texts(allowed@)),
    {
        let mut prompt = "Work GitHub issue #".to_owned();
        prompt.append(decimal_of(number).as_str());
        prompt.append(": ");
        prompt.append(card.title.as_str());
        prompt.append("\n\n");
        prompt.append(card.body.as_str());
        prompt.append("\n\nIssue URL: ");
        prompt.append(card.url.as_str());
        let ghost start = prompt@;
        let mut i: usize = 0;
        assert(start + Seq::<char>::empty() == start);
        assert(comments@.take(0) == Seq::<Comment>::empty());
        while i < comments.len()
            invariant
                i <= comments@.len(),
                prompt@ == start + told_comments(comments@.take(i as int), texts(allowed@)),
            decreases comments@.len() - i,
        {
            let ghost before = prompt@;
            let comment = &comments[i];
            assert(comments@.take(i + 1).drop_last() == comments@.take(i as int));
            assert(comments@.take(i + 1).last() == *comment);
            if let Some(login) = &comment.author_login {
                if is_trusted(allowed, Some(login.as_str())) && !job_report(comment.body.as_str()) {
                    prompt.append("\n\nComment by ");
                    prompt.append(login.as_str());
                    prompt.append(":\n");
                    prompt.append(comment.body.as_str());
                    assert(prompt@ == before + told_comment(*comment));
                    assert(prompt@ == start + told_comments(
                        comments@.take(i + 1),
                        texts(allowed@),
                    ));
                }
            }
            i += 1;
        }
        assert(comments@.take(i as int) == comments@);
        prompt
    }
}

/// What an agent is told of the issue's comments depends only on those of trusted authors that are
/// not reports on jobs: all others could as well not be there.
pub proof fn untrusted_comments_are_never_told(
    card: CardView,
    number: nat,
    comments: Seq<Comment>,
    allowed: Seq<Seq<char>>,
)
    ensures
        prompt_of(card, number, comments, allowed) == prompt_of(
            card,
            number,
            comments.filter(|comment: Comment| is_told(comment, allowed)),
            allowed,
        ),
{
    lemma_told(comments, allowed);
}

proof fn lemma_told(comments: Seq<Comment>, allowed: Seq<Seq<char>>)
    ensures
        told_comments(comments, allowed) == told_comments(
            comments.filter(|comment: Comment| is_told(comment, allowed)),
            allowed,
        ),
    decreases comments.len(),
{
    reveal(Seq::filter);
    if comments.len() > 0 {
        let keep = |comment: Comment| is_told(comment, allowed);
        lemma_told(comments.drop_last(), allowed);
        let kept = comments.drop_last().filter(keep);
        if is_told(comments.last(), allowed) {
            assert(kept.push(comments.last()).drop_last() == kept);
        }
    }
}

// ---------------------------------------------------------------------------------------------
// Laws
// ---------------------------------------------------------------------------------------------

/// A card says what its issue says: nothing is changed on the way, a missing body is empty, and a
/// missing author stays missing.
pub proof fn a_card_says_what_its_issue_says(issue: RawIssue, k: int)
    ensures
        card_of(issue).number == issue.number,
        card_of(issue).title == issue.title@,
        card_of(issue).url == issue.url@,
        card_of(issue).created_at == issue.created_at@,
        card_of(issue).updated_at == issue.updated_at@,
        issue.body matches Some(body) ==> card_of(issue).body == body@,
        issue.body is None ==> card_of(issue).body.len() == 0,
        issue.author matches Some(author) ==> card_of(issue).author_login == Some(author.login@),
        issue.author is None ==> card_of(issue).author_login is None,
        card_of(issue).labels.len() == issue.labels@.len(),
        0 <= k < issue.labels@.len() ==> card_of(issue).labels[k] == issue.labels@[k].name@,
{
}


/// A card is in the column of the first of its labels that is one of the five, and in none exactly
/// where it has no such label.
pub proof fn a_card_is_in_its_first_column(labels: Seq<Seq<char>>)
    ensures
        match first_column(labels) {
            Some(column) => is_column(column) && exists|i: int|
                0 <= i < labels.len() && #[trigger] labels[i] == column && forall|k: int|
                    0 <= k < i ==> !is_column(#[trigger] labels[k]),
            None => forall|k: int| 0 <= k < labels.len() ==> !is_column(#[trigger] labels[k]),
        },
    decreases labels.len(),
{
    if labels.len() > 0 {
        if is_column(labels[0]) {
            assert(labels[0] == first_column(labels)->0);
        } else {
            let rest = labels.skip(1);
            a_card_is_in_its_first_column(rest);
            if let Some(column) = first_column(rest) {
                let i = choose|i: int|
                    0 <= i < rest.len() && #[trigger] rest[i] == column && forall|k: int|
                        0 <= k < i ==> !is_column(#[trigger] rest[k]);
                assert(labels[i + 1] == column);
                assert forall|k: int| 0 <= k < i + 1 implies !is_column(#[trigger] labels[k]) by {
                    if k > 0 {
                        assert(rest[k - 1] == labels[k]);
                    }
                }
            } else {
                assert forall|k: int| 0 <= k < labels.len() implies !is_column(
                    #[trigger] labels[k],
                ) by {
                    if k > 0 {
                        assert(rest[k - 1] == labels[k]);
                    }
                }
            }
        }
    }
}

/// A page holds the things from its start on, in order, as many as there are and fit on it.
pub proof fn a_page_holds_what_follows_its_start<T>(items: Seq<T>, start: int, size: int, k: int)
    requires
        0 <= start,
        0 <= size,
    ensures
        start >= items.len() ==> page_slice(items, start, size).len() == 0,
        start < items.len() ==> page_slice(items, start, size).len() == if items.len() - start
            < size {
            items.len() - start
        } else {
            size
        },
        0 <= k < page_slice(items, start, size).len() ==> page_slice(items, start, size)[k]
            == items[start + k],
{
}

/// Without a column every card is listed; with one, a card is kept exactly where its own column is
/// that one.
pub proof fn a_column_keeps_its_own_cards(
    cards: Seq<CardView>,
    column: Seq<char>,
    card: CardView,
)
    ensures
        cards.filter(in_column(None)) == cards,
        in_column(None)(card),
        in_column(Some(column))(card) <==> card.column == Some(column),
        cards.filter(in_column(Some(column))).contains(card) <==> cards.contains(card)
            && card.column == Some(column),
{
    lemma_filter_all(cards, in_column(None));
    lemma_filter_has(cards, in_column(Some(column)), card);
}

/// Without a column the first page of a listing that fits on it holds every card that was listed, in
/// order, and says that there are no more; with a column it holds those of the column.
pub proof fn a_listing_that_fits_is_shown_whole(
    cards: Seq<CardView>,
    column: Option<Seq<char>>,
    per_page: int,
    page: Page<Card>,
)
    requires
        is_card_page(cards, column, 1, per_page, page),
        cards.len() <= per_page,
    ensures
        column is None ==> card_views(page.items@) == cards && !page.has_more,
        column matches Some(wanted) ==> !page.has_more && forall|card: CardView| #[trigger]
            card_views(page.items@).contains(card) <==> cards.contains(card) && card.column
                == Some(wanted),
        page.page == 1,
        page.per_page == per_page,
{
    let kept = cards.filter(in_column(column));
    cards.lemma_filter_len(in_column(column));
    assert((1 - 1) * per_page == 0);
    assert(page_slice(kept, 0, per_page) == kept);
    match column {
        None => {
            lemma_filter_all(cards, in_column(None));
        },
        Some(wanted) => {
            assert forall|card: CardView| #[trigger] card_views(page.items@).contains(card)
                <==> cards.contains(card) && card.column == Some(wanted) by {
                lemma_filter_has(cards, in_column(column), card);
            }
        },
    }
}

/// The cards of several pages, one page behind the other.
pub open spec fn all_cards(pages: Seq<Page<Card>>) -> Seq<CardView>
    decreases pages.len(),
{
    if pages.len() == 0 {
        seq![]
    } else {
        all_cards(pages.drop_last()) + card_views(pages.last().items@)
    }
}

/// The first pages of a listing together show the start of it, in order and nothing twice, and where
/// the last of them says that there are no more, all of it; without a column that is every card.
pub proof fn the_pages_together_show_the_listing(
    cards: Seq<CardView>,
    column: Option<Seq<char>>,
    per_page: int,
    pages: Seq<Page<Card>>,
)
    requires
        0 <= per_page,
        forall|k: int|
            0 <= k < pages.len() ==> is_card_page(
                cards,
                column,
                k + 1,
                per_page,
                #[trigger] pages[k],
            ),
    ensures
        all_cards(pages) == page_slice(cards.filter(in_column(column)), 0, pages.len() * per_page),
        pages.len() > 0 && !pages.last().has_more ==> all_cards(pages) == cards.filter(
            in_column(column),
        ),
        pages.len() > 0 && !pages.last().has_more && column is None ==> all_cards(pages) == cards,
    decreases pages.len(),
{
    let kept = cards.filter(in_column(column));
    lemma_filter_all(cards, in_column(None));
    if pages.len() == 0 {
        assert(page_slice(kept, 0, 0) == Seq::<CardView>::empty());
    } else {
        let earlier = pages.drop_last();
        let last = pages.len() - 1;
        assert forall|k: int| 0 <= k < earlier.len() implies is_card_page(
            cards,
            column,
            k + 1,
            per_page,
            #[trigger] earlier[k],
        ) by {
            assert(earlier[k] == pages[k]);
        }
        the_pages_together_show_the_listing(cards, column, per_page, earlier);
        let page = pages[last];
        assert(is_card_page(cards, column, last + 1, per_page, page));
        let start = last * per_page;
        assert((last + 1 - 1) * per_page == start);
        assert(pages.len() * per_page == start + per_page) by (nonlinear_arith)
            requires
                last == pages.len() - 1,
                start == last * per_page,
        ;
        assert(0 <= start) by (nonlinear_arith)
            requires
                start == last * per_page,
                0 <= last,
                0 <= per_page,
        ;
        assert(page_slice(kept, 0, start) + page_slice(kept, start, per_page) == page_slice(
            kept,
            0,
            start + per_page,
        ));
        if !page.has_more {
            assert(page_slice(kept, 0, start + per_page) == kept);
        }
    }
}

/// A page of comments shows them oldest first, the pages in a row show all of them once, and a page
/// says whether there are more.
pub proof fn a_page_of_comments_is_in_order(
    comments: Seq<Comment>,
    page: int,
    per_page: int,
    result: Page<Comment>,
    i: int,
    j: int,
)
    requires
        comments_page(comments, page, per_page, result),
        page >= 1,
        per_page >= 0,
        0 <= i < j < result.items@.len(),
    ensures
        !precedes(result.items@[j].created_at@, result.items@[i].created_at@),
        comments.contains(result.items@[i]),
        result.page == page,
        result.per_page == per_page,
        result.has_more <==> comments.len() > page * per_page,
{
    let start = (page - 1) * per_page;
    let sorted = choose|sorted: Seq<Comment>| #[trigger]
        sorts(comments, sorted) && result.items@ == page_slice(sorted, start, per_page)
            && result.has_more == (comments.len() > start + per_page) && result.page == page
            && result.per_page == per_page;
    assert(0 <= start) by (nonlinear_arith)
        requires
            start == (page - 1) * per_page,
            page >= 1,
            per_page >= 0,
    ;
    assert(start + per_page == page * per_page) by (nonlinear_arith)
        requires
            start == (page - 1) * per_page,
    ;
    a_page_holds_what_follows_its_start(sorted, start, per_page, i);
    a_page_holds_what_follows_its_start(sorted, start, per_page, j);
    assert(sorted[start + i].ranks(sorted[start + j]));
    crate::order::sorting_keeps_everything(comments, sorted);
    sorted.to_multiset_ensures();
    comments.to_multiset_ensures();
    assert(sorted.contains(sorted[start + i]));
    assert(comments.to_multiset().count(sorted[start + i]) > 0);
}

/// Where all comments fit on the first page, it shows each of them as often as it is there.
pub proof fn comments_that_fit_are_all_shown(
    comments: Seq<Comment>,
    per_page: int,
    result: Page<Comment>,
)
    requires
        comments_page(comments, 1, per_page, result),
        comments.len() <= per_page,
    ensures
        result.items@.to_multiset() == comments.to_multiset(),
        !result.has_more,
{
    assert((1 - 1) * per_page == 0);
    let sorted = choose|sorted: Seq<Comment>| #[trigger]
        sorts(comments, sorted) && result.items@ == page_slice(sorted, 0, per_page)
            && result.has_more == (comments.len() > 0 + per_page) && result.page == 1
            && result.per_page == per_page;
    crate::order::sorting_keeps_everything(comments, sorted);
    assert(page_slice(sorted, 0, per_page) == sorted);
}

/// The issues that are listed are the open ones of the repository, as many as asked for.
pub proof fn open_issues_are_listed(repo: Seq<char>, limit: nat)
    ensures
        list_arguments(repo, limit) == seq!["issue"@, "list"@] + seq!["--repo"@, repo] + seq![
            "--state"@,
            "open"@,
        ] + seq!["--limit"@, decimal(limit)] + seq![
            "--json"@,
            "number,author,title,body,labels,url,createdAt,updatedAt"@,
        ],
{
    assert(list_arguments(repo, limit) == seq!["issue"@, "list"@] + seq!["--repo"@, repo] + seq![
        "--state"@,
        "open"@,
    ] + seq!["--limit"@, decimal(limit)] + seq![
        "--json"@,
        "number,author,title,body,labels,url,createdAt,updatedAt"@,
    ]);
}

/// Behind its first five arguments a change of an issue names labels in pairs: what is done to a
/// label, and the label.
pub open spec fn changes_label(
    arguments: Seq<Seq<char>>,
    change: Seq<char>,
    label: Seq<char>,
) -> bool {
    exists|k: int|
        0 <= k && 5 + 2 * k + 1 < arguments.len() && #[trigger] arguments[5 + 2 * k] == change
            && arguments[5 + 2 * k + 1] == label
}

proof fn lemma_removals(labels: Seq<Seq<char>>)
    ensures
        removals(labels).len() == 2 * labels.len(),
        forall|k: int|
            0 <= k < labels.len() ==> #[trigger] removals(labels)[2 * k] == "--remove-label"@
                && removals(labels)[2 * k + 1] == labels[k],
    decreases labels.len(),
{
    if labels.len() > 0 {
        let shorter = labels.drop_last();
        lemma_removals(shorter);
        let all = removals(labels);
        assert forall|k: int| 0 <= k < labels.len() implies #[trigger] all[2 * k]
            == "--remove-label"@ && all[2 * k + 1] == labels[k] by {
            if k < shorter.len() {
                assert(all[2 * k] == removals(shorter)[2 * k]);
                assert(all[2 * k + 1] == removals(shorter)[2 * k + 1]);
            }
        }
    }
}

/// A move is one change of the one issue. It takes away exactly the other columns that the card has,
/// and adds the wanted one exactly where the card does not have it; no other label is named.
pub proof fn a_move_changes_the_columns_alone(
    repo: Seq<char>,
    number: nat,
    column: Seq<char>,
    labels: Seq<Seq<char>>,
    label: Seq<char>,
)
    ensures
        ({
            let arguments = move_arguments(repo, number, column, labels);
            &&& arguments.take(5) == seq!["issue"@, "edit"@, decimal(number), "--repo"@, repo]
            &&& changes_label(arguments, "--remove-label"@, label) <==> labels.contains(label)
                && is_column(label) && label != column
            &&& changes_label(arguments, "--add-label"@, label) <==> label == column
                && !labels.contains(column)
            &&& forall|k: int|
                0 <= k && 5 + 2 * k + 1 < arguments.len() ==> #[trigger] arguments[5 + 2 * k]
                    == "--remove-label"@ || arguments[5 + 2 * k] == "--add-label"@
        }),
{
    reveal_strlit("--remove-label");
    reveal_strlit("--add-label");
    assert("--remove-label"@.len() == 14 && "--add-label"@.len() == 11);
    let gone = labels.filter(left_columns(column));
    let taken = removals(gone);
    let start = seq!["issue"@, "edit"@, decimal(number), "--repo"@, repo];
    let arguments = move_arguments(repo, number, column, labels);
    lemma_removals(gone);
    lemma_filter_has(labels, left_columns(column), label);
    assert(arguments.take(5) == start);
    assert forall|k: int| 0 <= k < gone.len() implies #[trigger] arguments[5 + 2 * k]
        == "--remove-label"@ && arguments[5 + 2 * k + 1] == gone[k] by {
        assert(arguments[5 + 2 * k] == taken[2 * k]);
        assert(arguments[5 + 2 * k + 1] == taken[2 * k + 1]);
    }
    if gone.contains(label) {
        let k = choose|k: int| 0 <= k < gone.len() && gone[k] == label;
        assert(arguments[5 + 2 * k] == "--remove-label"@);
    }
    let end = gone.len() as int;
    if !labels.contains(column) {
        assert(arguments[5 + 2 * end] == "--add-label"@);
        assert(arguments[5 + 2 * end + 1] == column);
    }
    assert forall|k: int| 0 <= k && 5 + 2 * k + 1 < arguments.len() implies
        #[trigger] arguments[5 + 2 * k] == "--remove-label"@ || arguments[5 + 2 * k]
        == "--add-label"@ by {
        if k < end {
            assert(arguments[5 + 2 * k] == "--remove-label"@);
        }
    }
    if changes_label(arguments, "--remove-label"@, label) {
        let k = choose|k: int|
            0 <= k && 5 + 2 * k + 1 < arguments.len() && #[trigger] arguments[5 + 2 * k]
                == "--remove-label"@ && arguments[5 + 2 * k + 1] == label;
        if k < end {
            assert(gone[k] == label);
        }
    }
    if changes_label(arguments, "--add-label"@, label) {
        let k = choose|k: int|
            0 <= k && 5 + 2 * k + 1 < arguments.len() && #[trigger] arguments[5 + 2 * k]
                == "--add-label"@ && arguments[5 + 2 * k + 1] == label;
        if k < end {
            assert(arguments[5 + 2 * k] == "--remove-label"@);
        }
    }
}

/// What an agent is told of an issue: its number, title, body and address, and behind them the
/// comments.
pub proof fn the_prompt_tells_the_issue(
    card: CardView,
    number: nat,
    comments: Seq<Comment>,
    allowed: Seq<Seq<char>>,
)
    ensures
        prompt_of(card, number, seq![], allowed) == "Work GitHub issue #"@ + decimal(number) + ": "@
            + card.title + "\n\n"@ + card.body + "\n\nIssue URL: "@ + card.url,
        begins_with(
            prompt_of(card, number, comments, allowed),
            prompt_of(card, number, seq![], allowed),
        ),
{
    let start = "Work GitHub issue #"@ + decimal(number) + ": "@ + card.title + "\n\n"@ + card.body
        + "\n\nIssue URL: "@ + card.url;
    assert(told_comments(seq![], allowed) == Seq::<char>::empty());
    assert(prompt_of(card, number, seq![], allowed) == start);
    assert(prompt_of(card, number, comments, allowed).take(start.len() as int) == start);
}

/// The comments that are told are told in order. One is told exactly where its author is on the list
/// in some letter case and it is not a report on a job, and then with its author's name and its
/// body.
pub proof fn trusted_comments_are_told_in_order(
    first: Seq<Comment>,
    second: Seq<Comment>,
    allowed: Seq<Seq<char>>,
    comment: Comment,
)
    ensures
        told_comments(first + second, allowed) == told_comments(first, allowed) + told_comments(
            second,
            allowed,
        ),
        ({
            let trusted = comment.author_login matches Some(login) && exists|i: int|
                0 <= i < allowed.len() && crate::text::lower(#[trigger] allowed[i])
                    == crate::text::lower(login@);
            told_comments(seq![comment], allowed) == if trusted && !is_job_report(comment.body@) {
                "\n\nComment by "@ + comment.author_login->0@ + ":\n"@ + comment.body@
            } else {
                seq![]
            }
        }),
    decreases second.len(),
{
    assert(seq![comment].drop_last() == Seq::<Comment>::empty());
    assert(told_comments(seq![], allowed) == Seq::<char>::empty());
    assert(Seq::<char>::empty() + told_comment(comment) == told_comment(comment));
    if let Some(login) = comment.author_login {
        crate::config::trust_ignores_letter_case(allowed, login@, login@);
    }
    if second.len() == 0 {
        assert(first + second == first);
        assert(told_comments(second, allowed) == Seq::<char>::empty());
        assert(told_comments(first, allowed) + Seq::<char>::empty() == told_comments(
            first,
            allowed,
        ));
    } else {
        let shorter = second.drop_last();
        trusted_comments_are_told_in_order(first, shorter, allowed, comment);
        assert((first + second).drop_last() == first + shorter);
        assert((first + second).last() == second.last());
        assert(told_comments(first, allowed) + (told_comments(shorter, allowed) + told_comment(
            second.last(),
        )) == told_comments(first, allowed) + told_comments(shorter, allowed) + told_comment(
            second.last(),
        ));
    }
}

/// A comment is a report on a job exactly where it names a job in the words that the service uses
/// for it.
pub proof fn only_the_words_of_the_service_are_reports(id: Seq<char>, rest: Seq<char>, body: Seq<char>)
    requires
        !id.contains('`'),
    ensures
        is_job_report("Board job `"@ + id + "`"@ + rest) <==> begins_with(rest, " opened "@)
            || begins_with(rest, " did not open a pull request"@),
        !begins_with(body, "Board job `"@) ==> !is_job_report(body),
{
    reveal_strlit("`");
    let start = "Board job `"@;
    let whole = start + id + "`"@ + rest;
    assert(whole.take(start.len() as int) == start);
    assert(whole.skip(start.len() as int) == id.push('`') + rest);
    crate::text::a_joined_text_is_split_there(id, '`', rest);
}

/// The lines that are read of two texts' lines, one behind the other, are those of the first and
/// then those of the second; a line is read exactly where it holds anything but white space.
pub proof fn every_filled_line_is_read(
    first: Seq<Seq<char>>,
    second: Seq<Seq<char>>,
    line: Seq<char>,
)
    ensures
        filled_lines(first + second) == filled_lines(first) + filled_lines(second),
        filled_lines(seq![line]) == if exists|k: int|
            0 <= k < line.len() && !crate::text::is_space(#[trigger] line[k]) {
            seq![line]
        } else {
            seq![]
        },
        filled_lines(seq![]) == Seq::<Seq<char>>::empty(),
    decreases second.len(),
{
    assert(seq![line].drop_last() == Seq::<Seq<char>>::empty());
    assert(filled_lines(seq![]) == Seq::<Seq<char>>::empty());
    assert(Seq::<Seq<char>>::empty().push(line) == seq![line]);
    if second.len() == 0 {
        assert(first + second == first);
        assert(filled_lines(second) == Seq::<Seq<char>>::empty());
    } else {
        every_filled_line_is_read(first, second.drop_last(), line);
        assert((first + second).drop_last() == first + second.drop_last());
        assert((first + second).last() == second.last());
    }
}

/// Without a column a page that holds them all shows every card, in order; with one it shows the
/// cards of the column.
pub proof fn all_cards_are_on_the_page(
    cards: Vec<Card>,
    column: Option<&str>,
    per_page: usize,
    page: Page<Card>,
)
    requires
        per_page <= 5_000,
        cards@.len() <= per_page,
        call_ensures(card_page, (cards, column, 1usize, per_page), page),
    ensures
        column is None ==> card_views(page.items@) == card_views(cards@),
        column matches Some(wanted) ==> forall|card: CardView| #[trigger]
            card_views(page.items@).contains(card) <==> card_views(cards@).contains(card)
                && card.column == Some(wanted@),
        !page.has_more,
{
    assert(1 * per_page == per_page);
    assert(call_requires(card_page, (cards, column, 1usize, per_page)));
    a_listing_that_fits_is_shown_whole(
        card_views(cards@),
        maybe_str(column),
        per_page as int,
        page,
    );
}

/// As many issues are asked for as the pages up to the wanted one hold, and never more than 5000.
pub proof fn no_more_is_listed_than_is_shown(
    repo: &str,
    page: usize,
    per_page: usize,
    result: Result<Vec<String>, ApiError>,
)
    requires
        call_ensures(list_cards_arguments, (repo, page, per_page), result),
    ensures
        result is Ok <==> page * per_page <= 5_000,
        result matches Ok(arguments) ==> texts(arguments@).contains(
            decimal((page * per_page) as nat),
        ) && texts(arguments@).contains(repo@) && texts(arguments@).contains("open"@),
        result matches Err(error) ==> error@.status == 400 && error@.code == "page_too_large"@
            && error@.message == "requested page is too large"@,
{
    if let Ok(arguments) = result {
        let all = texts(arguments@);
        assert(all[7] == decimal((page * per_page) as nat));
        assert(all[3] == repo@);
        assert(all[5] == "open"@);
    }
}

/// A page of comments begins at most at position 5000.
pub proof fn comments_are_shown_up_to_a_bound(
    comments: Vec<Comment>,
    page: usize,
    per_page: usize,
    result: Result<Page<Comment>, ApiError>,
)
    requires
        page >= 1,
        call_ensures(list_comments, (comments, page, per_page), result),
    ensures
        result is Ok <==> (page - 1) * per_page <= 5_000,
        result matches Ok(shown) ==> shown.has_more == (comments@.len() > (page - 1) * per_page
            + per_page),
        result matches Err(error) ==> error@.status == 400 && error@.code == "page_too_large"@
            && error@.message == "requested page is too large"@,
{
}

/// An issue that was decoded is a card, and what could not be decoded is a fault that says why.
pub proof fn a_decoded_issue_is_a_card(
    decoded: Result<RawIssue, String>,
    result: Result<Card, ApiError>,
)
    requires
        call_ensures(parse_issue, (decoded,), result),
    ensures
        result is Ok <==> decoded is Ok,
        decoded matches Ok(issue) ==> result->Ok_0.number == issue.number && result->Ok_0.title@
            == issue.title@ && result->Ok_0.url@ == issue.url@,
        decoded matches Err(reason) ==> result->Err_0@.status == 500 && result->Err_0@.message
            == "invalid gh issue JSON: "@ + reason@,
{
    if let Ok(issue) = decoded {
        assert(result->Ok_0@ == card_of(issue));
        assert(result->Ok_0@.number == card_of(issue).number);
        assert(result->Ok_0@.title == card_of(issue).title);
        assert(result->Ok_0@.url == card_of(issue).url);
    }
}

/// A line that cannot be decoded is named by what it should be, by its number, and by the reason.
pub proof fn a_bad_line_is_named(kind: Seq<char>, number: nat, reason: Seq<char>)
    ensures
        bad_line(kind, number, reason).status == 500,
        bad_line(kind, number, reason).message == "invalid "@ + kind + " JSON on line "@ + decimal(
            number,
        ) + ": "@ + reason,
{
}

} // verus!
