//! The part of the host document that tells the operator how to link the first client.
use crate::auth::{PAIR_MARKER_END, PAIR_MARKER_START};
use crate::error::ApiError;
use crate::model::PairResponse;
use crate::outside::{draw_qr, qr_drawing};
use crate::text::{
    chars_of, end_trimmed, find, find_chars, first_at, lemma_find, lemma_trim_end_is_start, occurs,
    occurs_at, same_text, string_of, trim_end,
};
use crate::util::{instant_text, iso_from_epoch, SECOND};
use vstd::prelude::*;
use vstd::slice::slice_subrange;

verus! {

/// The QR code that holds a pairing code.
pub fn render_pair_qr(code: &str) -> (drawing: Result<String, String>)
    ensures
        match drawing {
            Ok(drawing) => qr_drawing(code@) == Ok::<Seq<char>, Seq<char>>(drawing@),
            Err(message) => qr_drawing(code@) is Err && message@
                == "cannot encode pairing QR code: "@ + qr_drawing(code@)->Err_0,
        },
{
    pair_qr(draw_qr(code))
}

/// The drawing of a pairing code, or the error that says why there is none.
pub fn pair_qr(drawing: Result<String, String>) -> (result: Result<String, String>)
    ensures
        match drawing {
            Ok(text) => result is Ok && result->Ok_0@ == text@,
            Err(message) => result is Err && result->Err_0@ == "cannot encode pairing QR code: "@
                + message@,
        },
{
    match drawing {
        Ok(text) => Ok(text),
        Err(message) => Err(
            "cannot encode pairing QR code: ".to_owned().concat(message.as_str()),
        ),
    }
}

/// The block that shows a pairing code.
pub open spec fn pair_block(code: Seq<char>, expires: i64, qr: Seq<char>) -> Seq<char> {
    PAIR_MARKER_START@ + "\n## Current pairing\n\nPair code: `"@ + code
        + "`\n\nScan this QR code with your phone camera. It contains the pair code only.\n\n```text\n"@
        + qr + "\n```\n\nExpires: `"@ + instant_text(expires * SECOND, expires as int)
        + "`\n\nPair with `POST /v1/pair`; code works once.\n"@ + PAIR_MARKER_END@
}

/// The block that says why there is no pairing code.
pub open spec fn cleared_block(message: Seq<char>) -> Seq<char> {
    PAIR_MARKER_START@ + "\n## Current pairing\n\n"@ + message + "\n"@ + PAIR_MARKER_END@
}

/// A document with its block replaced, or with one added where it has none.
pub open spec fn replace_block(current: Seq<char>, replacement: Seq<char>) -> Seq<char> {
    let start = find(current, PAIR_MARKER_START@);
    let end = find(current, PAIR_MARKER_END@);
    if start is Some && end is Some {
        current.take(start->0) + replacement + current.skip(end->0 + PAIR_MARKER_END@.len())
    } else if current.len() == 0 {
        "# board host\n\n"@ + replacement + "\n"@
    } else {
        trim_end(current) + "\n\n"@ + replacement + "\n"@
    }
}

/// Replaces the block of a document, or adds one where it has none.
pub fn replace_pair_block(current: &str, replacement: &str) -> (updated: String)
    ensures
        updated@ == replace_block(current@, replacement@),
{
    let chars = chars_of(current);
    let end_marker = chars_of(PAIR_MARKER_END);
    let start = find_chars(chars.as_slice(), chars_of(PAIR_MARKER_START).as_slice());
    let end = find_chars(chars.as_slice(), end_marker.as_slice());
    match (start, end) {
        (Some(start), Some(end)) => {
            let mut updated = string_of(slice_subrange(chars.as_slice(), 0, start));
            let len: usize = chars.len();
            assert(end + end_marker@.len() <= len);
            let behind: usize = end + end_marker.len();
            let tail = string_of(slice_subrange(chars.as_slice(), behind, len));
            assert(updated@ == current@.take(start as int));
            assert(tail@ == current@.skip(behind as int));
            updated.append(replacement);
            updated.append(tail.as_str());
            updated
        },
        _ => {
            if current.is_empty() {
                let mut updated = "# board host\n\n".to_owned();
                updated.append(replacement);
                updated.append("\n");
                updated
            } else {
                let mut updated = end_trimmed(current);
                updated.append("\n\n");
                updated.append(replacement);
                updated.append("\n");
                updated
            }
        },
    }
}

/// The document with a block that shows a pairing code.
pub fn write_pair_block(current: &str, code: &str, expires: i64, qr: &str) -> (updated: String)
    ensures
        updated@ == replace_block(current@, pair_block(code@, expires, qr@)),
{
    let mut block = PAIR_MARKER_START.to_owned();
    block.append("\n## Current pairing\n\nPair code: `");
    block.append(code);
    block.append(
        "`\n\nScan this QR code with your phone camera. It contains the pair code only.\n\n```text\n",
    );
    block.append(qr);
    block.append("\n```\n\nExpires: `");
    block.append(iso_from_epoch(expires).as_str());
    block.append("`\n\nPair with `POST /v1/pair`; code works once.\n");
    block.append(PAIR_MARKER_END);
    replace_pair_block(current, block.as_str())
}

/// The document with a block that says why there is no pairing code.
pub fn clear_pair_block(current: &str, message: &str) -> (updated: String)
    ensures
        updated@ == replace_block(current@, cleared_block(message@)),
{
    let mut block = PAIR_MARKER_START.to_owned();
    block.append("\n## Current pairing\n\n");
    block.append(message);
    block.append("\n");
    block.append(PAIR_MARKER_END);
    replace_pair_block(current, block.as_str())
}

/// What the host document says after an attempt to link a client: that the code was used, that
/// it expired, or what it said before.
pub fn pair_notice(answer: &Result<PairResponse, ApiError>) -> (message: Option<&'static str>)
    ensures
        match *answer {
            Ok(_) => message is Some && message->0@
                == "Pair code consumed; no active one-time code."@,
            Err(error) => if error.code@ == "pairing_expired"@ {
                message is Some && message->0@
                    == "Pair code expired. Restart board-api to mint another."@
            } else {
                message is None
            },
        },
{
    match answer {
        Ok(_) => Some("Pair code consumed; no active one-time code."),
        Err(error) => if same_text(error.code, "pairing_expired") {
            Some("Pair code expired. Restart board-api to mint another.")
        } else {
            None
        },
    }
}

// ---------------------------------------------------------------------------------------------
// The document holds one block
// ---------------------------------------------------------------------------------------------

/// Text between the two markers, without a further marker.
pub open spec fn is_block(block: Seq<char>, middle: Seq<char>) -> bool {
    &&& block == PAIR_MARKER_START@ + middle + PAIR_MARKER_END@
    &&& !occurs(middle, PAIR_MARKER_START@)
    &&& !occurs(middle, PAIR_MARKER_END@)
}

/// A document without markers, or with the first start marker before the first end marker.
pub open spec fn is_orderly(document: Seq<char>) -> bool {
    let start = find(document, PAIR_MARKER_START@);
    let end = find(document, PAIR_MARKER_END@);
    ||| start is None && end is None
    ||| start is Some && end is Some && start->0 < end->0
}

/// A marker begins with its only opening bracket, and holds no line feed.
spec fn is_marker(marker: Seq<char>) -> bool {
    &&& marker.len() > 0
    &&& marker[0] == '<'
    &&& forall|k: int| 0 < k < marker.len() ==> #[trigger] marker[k] != '<'
    &&& forall|k: int| 0 <= k < marker.len() ==> #[trigger] marker[k] != '\n'
}

proof fn lemma_markers()
    ensures
        is_marker(PAIR_MARKER_START@),
        is_marker(PAIR_MARKER_END@),
        PAIR_MARKER_START@.len() == 29,
        PAIR_MARKER_END@.len() == 27,
        PAIR_MARKER_START@[20] != PAIR_MARKER_END@[20],
{
    reveal_strlit("<!-- board-api-pair:start -->");
    reveal_strlit("<!-- board-api-pair:end -->");
}

/// Where a marker stands in two texts in a row, it stands in the first, or where the second
/// begins, or behind; if the second begins with an opening bracket or a line feed.
proof fn lemma_marker_in_two(first: Seq<char>, second: Seq<char>, marker: Seq<char>, at: int)
    requires
        is_marker(marker),
        second.len() > 0 ==> second[0] == '<' || second[0] == '\n',
        occurs_at(first + second, marker, at),
    ensures
        at < first.len() ==> occurs_at(first, marker, at),
        at >= first.len() ==> occurs_at(second, marker, at - first.len()),
{
    let whole = first + second;
    let part = whole.subrange(at, at + marker.len());
    if at < first.len() {
        if at + marker.len() > first.len() {
            let k = first.len() - at;
            assert(part[k] == whole[first.len() as int]);
            assert(marker[k] == second[0]);
        }
        assert(first.subrange(at, at + marker.len()) == part);
    } else {
        assert(second.subrange(at - first.len(), at - first.len() + marker.len()) == part);
    }
}

/// A text that stands in a part of another stands in the whole, further behind.
proof fn lemma_shift(first: Seq<char>, second: Seq<char>, pattern: Seq<char>, at: int)
    requires
        occurs_at(second, pattern, at),
    ensures
        occurs_at(first + second, pattern, first.len() + at),
{
    assert((first + second).subrange(first.len() + at, first.len() + at + pattern.len())
        == second.subrange(at, at + pattern.len()));
}

/// Within a block, and whatever stands behind it, the first end marker is the block's own.
proof fn lemma_end_in_block(middle: Seq<char>, tail: Seq<char>, at: int)
    requires
        !occurs(middle, PAIR_MARKER_END@),
        at < PAIR_MARKER_START@.len() + middle.len(),
    ensures
        !occurs_at(PAIR_MARKER_START@ + (middle + (PAIR_MARKER_END@ + tail)), PAIR_MARKER_END@, at),
{
    lemma_markers();
    let start = PAIR_MARKER_START@;
    let end = PAIR_MARKER_END@;
    let behind_middle = end + tail;
    let behind_start = middle + behind_middle;
    let whole = start + behind_start;
    if occurs_at(whole, end, at) {
        let part = whole.subrange(at, at + end.len());
        if at < start.len() {
            if at > 0 {
                assert(part[0] == start[at]);
            } else {
                assert(part[20] == start[20]);
            }
        } else {
            let k = at - start.len();
            assert(behind_start.subrange(k, k + end.len()) == part);
            assert(occurs_at(behind_start, end, k));
            assert(behind_middle[0] == '<');
            lemma_marker_in_two(middle, behind_middle, end, k);
            assert(occurs_at(middle, end, k));
        }
    }
}

/// Behind a text without markers, the first markers are those of the block.
proof fn lemma_block_markers(head: Seq<char>, block: Seq<char>, middle: Seq<char>, tail: Seq<char>)
    requires
        is_block(block, middle),
        !occurs(head, PAIR_MARKER_START@),
        !occurs(head, PAIR_MARKER_END@),
    ensures
        find(head + block + tail, PAIR_MARKER_START@) == Some(head.len() as int),
        find(head + block + tail, PAIR_MARKER_END@) == Some(
            (head.len() + PAIR_MARKER_START@.len() + middle.len()) as int,
        ),
{
    lemma_markers();
    let start = PAIR_MARKER_START@;
    let end = PAIR_MARKER_END@;
    let behind_middle = end + tail;
    let behind_start = middle + behind_middle;
    let behind_head = start + behind_start;
    let whole = head + behind_head;
    assert(head + block + tail == whole);
    lemma_find(whole, start);
    lemma_find(whole, end);
    assert(behind_head[0] == '<');
    assert(occurs_at(behind_head, start, 0)) by {
        assert(behind_head.subrange(0, start.len() as int) == start);
    }
    lemma_shift(head, behind_head, start, 0);
    assert forall|before: int| before < head.len() implies !occurs_at(whole, start, before) by {
        if occurs_at(whole, start, before) {
            lemma_marker_in_two(head, behind_head, start, before);
            assert(occurs_at(head, start, before));
        }
    }
    assert(first_at(whole, start, head.len() as int));
    let first_end = (head.len() + start.len() + middle.len()) as int;
    assert(occurs_at(behind_middle, end, 0)) by {
        assert(behind_middle.subrange(0, end.len() as int) == end);
    }
    lemma_shift(middle, behind_middle, end, 0);
    lemma_shift(start, behind_start, end, middle.len() as int);
    lemma_shift(head, behind_head, end, (start.len() + middle.len()) as int);
    assert forall|before: int| before < first_end implies !occurs_at(whole, end, before) by {
        if occurs_at(whole, end, before) {
            lemma_marker_in_two(head, behind_head, end, before);
            if before < head.len() {
                assert(occurs_at(head, end, before));
            } else {
                lemma_end_in_block(middle, tail, before - head.len());
            }
        }
    }
    assert(first_at(whole, end, first_end));
}

/// A text without a marker has none in its start, nor once line feeds stand behind it.
proof fn lemma_start_without_marker(text: Seq<char>, len: int, marker: Seq<char>)
    requires
        is_marker(marker),
        0 <= len <= text.len(),
        forall|at: int| at + marker.len() <= len ==> !occurs_at(text, marker, at),
    ensures
        !occurs(text.take(len), marker),
        !occurs(text.take(len) + "\n\n"@, marker),
{
    reveal_strlit("\n\n");
    let head = text.take(len);
    assert forall|at: int| !occurs_at(head, marker, at) by {
        if occurs_at(head, marker, at) {
            assert(text.subrange(at, at + marker.len()) == head.subrange(at, at + marker.len()));
            assert(occurs_at(text, marker, at));
        }
    }
    let feeds = "\n\n"@;
    assert forall|at: int| !occurs_at(head + feeds, marker, at) by {
        if occurs_at(head + feeds, marker, at) {
            lemma_marker_in_two(head, feeds, marker, at);
            if at >= head.len() {
                let part = feeds.subrange(at - head.len(), at - head.len() + marker.len());
                assert(part[0] == feeds[at - head.len()]);
            }
        }
    }
}

/// Replacing the block twice is replacing it once with what came last: the document never holds
/// two.
pub proof fn the_last_block_stands_alone(
    document: Seq<char>,
    first: Seq<char>,
    middle: Seq<char>,
    second: Seq<char>,
)
    requires
        is_orderly(document),
        is_block(first, middle),
    ensures
        replace_block(replace_block(document, first), second) == replace_block(document, second),
{
    lemma_markers();
    let start_marker = PAIR_MARKER_START@;
    let end_marker = PAIR_MARKER_END@;
    let start = find(document, start_marker);
    let end = find(document, end_marker);
    lemma_find(document, start_marker);
    lemma_find(document, end_marker);
    let once = replace_block(document, first);
    let behind = (start_marker.len() + middle.len() + end_marker.len()) as int;
    assert(first.len() == behind);
    if start is Some && end is Some {
        let head = document.take(start->0);
        let tail = document.skip(end->0 + end_marker.len());
        lemma_start_without_marker(document, start->0, start_marker);
        lemma_start_without_marker(document, start->0, end_marker);
        lemma_block_markers(head, first, middle, tail);
        assert(once.take(head.len() as int) == head);
        assert(once.skip(head.len() + behind) == tail);
    } else if document.len() == 0 {
        let head = "# board host\n\n"@;
        let tail = "\n"@;
        reveal_strlit("# board host\n\n");
        assert forall|at: int| !occurs_at(head, start_marker, at) && !occurs_at(
            head,
            end_marker,
            at,
        ) by {}
        lemma_block_markers(head, first, middle, tail);
        assert(once.take(head.len() as int) == head);
        assert(once.skip(head.len() + behind) == tail);
    } else {
        lemma_trim_end_is_start(document);
        let kept = trim_end(document);
        let head = kept + "\n\n"@;
        let tail = "\n"@;
        lemma_start_without_marker(document, kept.len() as int, start_marker);
        lemma_start_without_marker(document, kept.len() as int, end_marker);
        lemma_block_markers(head, first, middle, tail);
        assert(once.take(head.len() as int) == head);
        assert(once.skip(head.len() + behind) == tail);
    }
}

/// A text without opening brackets.
pub open spec fn no_bracket(text: Seq<char>) -> bool {
    forall|k: int| 0 <= k < text.len() ==> #[trigger] text[k] != '<'
}

proof fn lemma_no_bracket(text: Seq<char>)
    requires
        no_bracket(text),
    ensures
        !occurs(text, PAIR_MARKER_START@),
        !occurs(text, PAIR_MARKER_END@),
{
    lemma_markers();
    assert forall|marker: Seq<char>, at: int| is_marker(marker) implies !occurs_at(
        text,
        marker,
        at,
    ) by {
        if occurs_at(text, marker, at) {
            assert(text.subrange(at, at + marker.len())[0] == text[at]);
        }
    }
}

/// Once the block of a used or expired code is cleared, the document says what it would say had
/// the code never stood there.
pub proof fn a_cleared_code_leaves_no_trace(
    document: Seq<char>,
    code: Seq<char>,
    expires: i64,
    qr: Seq<char>,
    message: Seq<char>,
)
    requires
        is_orderly(document),
        no_bracket(code),
        no_bracket(qr),
        no_bracket(instant_text(expires * SECOND, expires as int)),
    ensures
        replace_block(
            replace_block(document, pair_block(code, expires, qr)),
            cleared_block(message),
        ) == replace_block(document, cleared_block(message)),
{
    let time = instant_text(expires * SECOND, expires as int);
    let one = "\n## Current pairing\n\nPair code: `"@;
    let two =
        "`\n\nScan this QR code with your phone camera. It contains the pair code only.\n\n```text\n"@;
    let three = "\n```\n\nExpires: `"@;
    let four = "`\n\nPair with `POST /v1/pair`; code works once.\n"@;
    reveal_strlit("\n## Current pairing\n\nPair code: `");
    reveal_strlit(
        "`\n\nScan this QR code with your phone camera. It contains the pair code only.\n\n```text\n",
    );
    reveal_strlit("\n```\n\nExpires: `");
    reveal_strlit("`\n\nPair with `POST /v1/pair`; code works once.\n");
    assert(no_bracket(one) && no_bracket(two) && no_bracket(three) && no_bracket(four));
    let middle = one + code + two + qr + three + time + four;
    assert(no_bracket(one + code));
    assert(no_bracket(one + code + two));
    assert(no_bracket(one + code + two + qr));
    assert(no_bracket(one + code + two + qr + three));
    assert(no_bracket(one + code + two + qr + three + time));
    assert(no_bracket(middle));
    lemma_no_bracket(middle);
    assert(pair_block(code, expires, qr) == PAIR_MARKER_START@ + middle + PAIR_MARKER_END@);
    the_last_block_stands_alone(
        document,
        pair_block(code, expires, qr),
        middle,
        cleared_block(message),
    );
}

/// What stands around the block of a document stays as it is when the block is replaced.
pub proof fn what_stands_around_the_block_stays(
    head: Seq<char>,
    block: Seq<char>,
    middle: Seq<char>,
    tail: Seq<char>,
    replacement: Seq<char>,
)
    requires
        is_block(block, middle),
        !occurs(head, PAIR_MARKER_START@),
        !occurs(head, PAIR_MARKER_END@),
    ensures
        replace_block(head + block + tail, replacement) == head + replacement + tail,
{
    let document = head + block + tail;
    lemma_block_markers(head, block, middle, tail);
    assert(document.take(head.len() as int) == head);
    assert(document.skip(
        (head.len() + PAIR_MARKER_START@.len() + middle.len() + PAIR_MARKER_END@.len()) as int,
    ) == tail);
}

/// A document without a block keeps all that it says, but for white space at its end, and the block
/// comes behind it; an empty one gets a heading.
pub proof fn a_block_is_added_behind_the_document(document: Seq<char>, replacement: Seq<char>)
    requires
        !occurs(document, PAIR_MARKER_START@) || !occurs(document, PAIR_MARKER_END@),
    ensures
        document.len() > 0 ==> replace_block(document, replacement) == trim_end(document) + "\n\n"@
            + replacement + "\n"@,
        document.len() == 0 ==> replace_block(document, replacement) == "# board host\n\n"@
            + replacement + "\n"@,
{
    lemma_find(document, PAIR_MARKER_START@);
    lemma_find(document, PAIR_MARKER_END@);
}

/// A text stands in another where parts before and behind it make up the other.
proof fn lemma_stands_within(before: Seq<char>, text: Seq<char>, behind: Seq<char>)
    ensures
        occurs(before + text + behind, text),
{
    let whole = before + text + behind;
    let at = before.len() as int;
    assert(whole.subrange(at, at + text.len()) == text);
    assert(occurs_at(whole, text, at));
}

/// The block that shows a code holds the code, its drawing and the time at which it expires, between
/// the two markers; the block without a code holds the message, and nothing of a code.
pub proof fn a_block_shows_the_code(
    code: Seq<char>,
    expires: i64,
    qr: Seq<char>,
    message: Seq<char>,
)
    ensures
        occurs(pair_block(code, expires, qr), "Pair code: `"@ + code + "`"@),
        occurs(pair_block(code, expires, qr), qr),
        occurs(
            pair_block(code, expires, qr),
            "Expires: `"@ + instant_text(expires * SECOND, expires as int) + "`"@,
        ),
        pair_block(code, expires, qr).take(PAIR_MARKER_START@.len() as int) == PAIR_MARKER_START@,
        pair_block(code, expires, qr).skip(
            pair_block(code, expires, qr).len() - PAIR_MARKER_END@.len(),
        ) == PAIR_MARKER_END@,
        cleared_block(message) == PAIR_MARKER_START@ + "\n## Current pairing\n\n"@ + message + "\n"@
            + PAIR_MARKER_END@,
{
    reveal_strlit("\n## Current pairing\n\nPair code: `");
    reveal_strlit("Pair code: `");
    reveal_strlit("`");
    reveal_strlit(
        "`\n\nScan this QR code with your phone camera. It contains the pair code only.\n\n```text\n",
    );
    reveal_strlit("\n```\n\nExpires: `");
    reveal_strlit("Expires: `");
    reveal_strlit("`\n\nPair with `POST /v1/pair`; code works once.\n");
    let time = instant_text(expires * SECOND, expires as int);
    let one = "\n## Current pairing\n\nPair code: `"@;
    let two =
        "`\n\nScan this QR code with your phone camera. It contains the pair code only.\n\n```text\n"@;
    let three = "\n```\n\nExpires: `"@;
    let four = "`\n\nPair with `POST /v1/pair`; code works once.\n"@;
    let start = PAIR_MARKER_START@;
    let end = PAIR_MARKER_END@;
    let block = pair_block(code, expires, qr);
    let shown = "Pair code: `"@ + code + "`"@;
    assert(one == one.take(21) + "Pair code: `"@);
    assert(two == "`"@ + two.skip(1));
    let behind_code = two.skip(1) + qr + three + time + four + end;
    assert(block == (start + one.take(21)) + shown + behind_code);
    lemma_stands_within(start + one.take(21), shown, behind_code);
    assert(block == (start + one + code + two) + qr + (three + time + four + end));
    lemma_stands_within(start + one + code + two, qr, three + time + four + end);
    let due = "Expires: `"@ + time + "`"@;
    assert(three == three.take(6) + "Expires: `"@);
    assert(four == "`"@ + four.skip(1));
    let before_due = start + one + code + two + qr + three.take(6);
    assert(block == before_due + due + (four.skip(1) + end));
    lemma_stands_within(before_due, due, four.skip(1) + end);
    assert(block.take(start.len() as int) == start);
    assert(block.skip(block.len() - end.len()) == end);
}

/// The block stands between two comments that a reader of the document does not see.
pub proof fn the_markers_are_comments()
    ensures
        PAIR_MARKER_START@ == "<!-- board-api-pair:start -->"@,
        PAIR_MARKER_END@ == "<!-- board-api-pair:end -->"@,
{
}

/// After an attempt to link a client the host document changes exactly where the code is of no use
/// any more: it was used, or it expired.
pub proof fn a_code_of_no_use_is_taken_away(
    answer: &Result<PairResponse, ApiError>,
    message: Option<&'static str>,
)
    requires
        call_ensures(pair_notice, (answer,), message),
    ensures
        message is Some <==> *answer is Ok || (*answer matches Err(error) && error.code@
            == "pairing_expired"@),
        *answer is Ok ==> message->0@ == "Pair code consumed; no active one-time code."@,
        *answer is Err && message is Some ==> message->0@
            == "Pair code expired. Restart board-api to mint another."@,
{
}

/// A drawing is handed on as it is, and a fault is told as one of the drawing.
pub proof fn a_drawing_is_handed_on(
    drawing: Result<String, String>,
    result: Result<String, String>,
)
    requires
        call_ensures(pair_qr, (drawing,), result),
    ensures
        result is Ok <==> drawing is Ok,
        drawing matches Ok(text) ==> result->Ok_0@ == text@,
        drawing matches Err(reason) ==> result->Err_0@ == "cannot encode pairing QR code: "@
            + reason@,
{
}

} // verus!
