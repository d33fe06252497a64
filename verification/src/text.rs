//! Text as sequences of characters: searching, trimming, splitting, case and numbers.
use vstd::prelude::*;
use vstd::slice::slice_subrange;
use vstd::utf8::encode_utf8;

verus! {

/// `String::push` appends one character to the end of a string.
pub assume_specification[ String::push ](text: &mut String, character: char)
    ensures
        final(text)@ == old(text)@.push(character),
;

// ---------------------------------------------------------------------------------------------
// Characters and strings
// ---------------------------------------------------------------------------------------------

/// The characters of a string, in order.
pub fn chars_of(text: &str) -> (chars: Vec<char>)
    ensures
        chars@ == text@,
{
    let mut chars: Vec<char> = Vec::new();
    for character in iter: text.chars()
        invariant
            chars@ == iter.seq().take(iter.index() as int),
            iter.seq() == text@,
    {
        chars.push(character);
    }
    chars
}

/// The string with the given characters.
pub fn string_of(chars: &[char]) -> (text: String)
    ensures
        text@ == chars@,
{
    let mut text = String::new();
    let mut i: usize = 0;
    while i < chars.len()
        invariant
            i <= chars@.len(),
            text@ == chars@.take(i as int),
        decreases chars@.len() - i,
    {
        text.push(chars[i]);
        i += 1;
        assert(chars@.take(i as int) == chars@.take(i - 1).push(chars@[i - 1]));
    }
    assert(chars@.take(i as int) == chars@);
    text
}

/// Whether two strings hold the same characters.
pub fn same_text(left: &str, right: &str) -> (same: bool)
    ensures
        same == (left@ == right@),
{
    left.to_owned() == right.to_owned()
}

/// How many bytes a text takes.
pub open spec fn utf8_len(text: Seq<char>) -> nat {
    encode_utf8(text).len()
}

/// How many bytes a text takes.
pub fn byte_len(text: &str) -> (len: usize)
    ensures
        len == utf8_len(text@),
{
    text.as_bytes().len()
}

/// A text takes at least one byte for each character.
pub proof fn lemma_utf8_len(text: Seq<char>)
    ensures
        utf8_len(text) >= text.len(),
    decreases text.len(),
{
    if text.len() > 0 {
        lemma_utf8_len(text.drop_first());
    }
}

// ---------------------------------------------------------------------------------------------
// Searching
// ---------------------------------------------------------------------------------------------

/// `pattern` stands in `text` at position `at`.
pub open spec fn occurs_at(text: Seq<char>, pattern: Seq<char>, at: int) -> bool {
    0 <= at && at + pattern.len() <= text.len() && text.subrange(at, at + pattern.len()) == pattern
}

/// `pattern` stands somewhere in `text`.
pub open spec fn occurs(text: Seq<char>, pattern: Seq<char>) -> bool {
    exists|at: int| occurs_at(text, pattern, at)
}

/// `at` is the first position at which `pattern` stands in `text`.
pub open spec fn first_at(text: Seq<char>, pattern: Seq<char>, at: int) -> bool {
    occurs_at(text, pattern, at) && forall|before: int| before < at ==> !occurs_at(
        text,
        pattern,
        before,
    )
}

/// Where `pattern` first stands in `text`, if it does.
pub open spec fn find(text: Seq<char>, pattern: Seq<char>) -> Option<int> {
    if occurs(text, pattern) {
        Some(choose|at: int| first_at(text, pattern, at))
    } else {
        None
    }
}

/// A pattern that occurs has a first position.
pub proof fn lemma_first_exists(text: Seq<char>, pattern: Seq<char>, at: int)
    requires
        occurs_at(text, pattern, at),
    ensures
        exists|first: int| first_at(text, pattern, first),
    decreases at,
{
    if exists|before: int| before < at && occurs_at(text, pattern, before) {
        let before = choose|before: int| before < at && occurs_at(text, pattern, before);
        lemma_first_exists(text, pattern, before);
    } else {
        assert(first_at(text, pattern, at));
    }
}

/// `find` is the one first position, and is missing exactly where the pattern does not occur.
pub proof fn lemma_find(text: Seq<char>, pattern: Seq<char>)
    ensures
        find(text, pattern) is Some <==> occurs(text, pattern),
        find(text, pattern) is Some ==> first_at(text, pattern, find(text, pattern)->0),
        forall|at: int| first_at(text, pattern, at) ==> find(text, pattern) == Some(at),
{
    if occurs(text, pattern) {
        let at = choose|at: int| occurs_at(text, pattern, at);
        lemma_first_exists(text, pattern, at);
    }
    assert forall|at: int| first_at(text, pattern, at) implies find(text, pattern) == Some(at) by {
        assert(occurs_at(text, pattern, at));
        let first = find(text, pattern)->0;
        assert(first_at(text, pattern, first));
        if first < at {
            assert(!occurs_at(text, pattern, first));
        }
        if at < first {
            assert(!occurs_at(text, pattern, at));
        }
    }
}

/// Whether `pattern` stands in `text` at position `at`.
pub fn matches_at(text: &[char], pattern: &[char], at: usize) -> (found: bool)
    requires
        at <= text@.len(),
    ensures
        found == occurs_at(text@, pattern@, at as int),
{
    if text.len() - at < pattern.len() {
        return false;
    }
    let mut i: usize = 0;
    while i < pattern.len()
        invariant
            i <= pattern@.len(),
            at + pattern@.len() <= text@.len(),
            text.len() == text@.len(),
            forall|k: int| 0 <= k < i ==> text@[at + k] == pattern@[k],
        decreases pattern@.len() - i,
    {
        if text[at + i] != pattern[i] {
            proof {
                let part = text@.subrange(at as int, at + pattern@.len());
                assert(part[i as int] == text@[at + i]);
            }
            return false;
        }
        i += 1;
    }
    assert(text@.subrange(at as int, at + pattern@.len()) == pattern@);
    true
}

/// The first position at which `pattern` stands in `text`.
pub fn find_chars(text: &[char], pattern: &[char]) -> (found: Option<usize>)
    ensures
        match found {
            Some(at) => find(text@, pattern@) == Some(at as int) && first_at(
                text@,
                pattern@,
                at as int,
            ),
            None => find(text@, pattern@) is None && !occurs(text@, pattern@),
        },
{
    proof {
        lemma_find(text@, pattern@);
    }
    let mut at: usize = 0;
    while at < text.len()
        invariant
            at <= text@.len(),
            forall|before: int| before < at ==> !occurs_at(text@, pattern@, before),
        decreases text@.len() - at,
    {
        if matches_at(text, pattern, at) {
            assert(first_at(text@, pattern@, at as int));
            return Some(at);
        }
        at += 1;
    }
    if matches_at(text, pattern, at) {
        assert(first_at(text@, pattern@, at as int));
        return Some(at);
    }
    None
}

/// Whether `pattern` stands somewhere in `text`.
pub fn contains_text(text: &str, pattern: &str) -> (found: bool)
    ensures
        found == occurs(text@, pattern@),
{
    find_chars(chars_of(text).as_slice(), chars_of(pattern).as_slice()).is_some()
}

/// `text` begins with `prefix`.
pub open spec fn begins_with(text: Seq<char>, prefix: Seq<char>) -> bool {
    prefix.len() <= text.len() && text.take(prefix.len() as int) == prefix
}

/// Whether `text` begins with `prefix`.
pub fn starts_with(text: &str, prefix: &str) -> (yes: bool)
    ensures
        yes == begins_with(text@, prefix@),
{
    let chars = chars_of(text);
    assert(text@.subrange(0, prefix@.len() as int) == text@.take(prefix@.len() as int));
    matches_at(chars.as_slice(), chars_of(prefix).as_slice(), 0)
}

/// What is left of `text` behind `prefix`, where it begins with it.
pub fn strip_prefix(text: &str, prefix: &str) -> (rest: Option<String>)
    ensures
        match rest {
            Some(rest) => begins_with(text@, prefix@) && rest@ == text@.skip(prefix@.len() as int),
            None => !begins_with(text@, prefix@),
        },
{
    let chars = chars_of(text);
    let start = chars_of(prefix);
    assert(text@.subrange(0, prefix@.len() as int) == text@.take(prefix@.len() as int));
    if matches_at(chars.as_slice(), start.as_slice(), 0) {
        let rest = string_of(slice_subrange(chars.as_slice(), start.len(), chars.len()));
        assert(rest@ == text@.skip(prefix@.len() as int));
        Some(rest)
    } else {
        None
    }
}

// ---------------------------------------------------------------------------------------------
// Runs of characters
// ---------------------------------------------------------------------------------------------

/// The first `len` characters of `text` are the longest start of it without a stop character.
pub open spec fn is_run(text: Seq<char>, stop: spec_fn(char) -> bool, len: int) -> bool {
    &&& 0 <= len <= text.len()
    &&& forall|k: int| 0 <= k < len ==> !stop(#[trigger] text[k])
    &&& len < text.len() ==> stop(text[len])
}

/// How many characters stand in `text` before the first stop character.
pub open spec fn run(text: Seq<char>, stop: spec_fn(char) -> bool) -> int {
    choose|len: int| is_run(text, stop, len)
}

/// Every text has exactly one such run.
pub proof fn lemma_run(text: Seq<char>, stop: spec_fn(char) -> bool)
    ensures
        is_run(text, stop, run(text, stop)),
        forall|len: int| is_run(text, stop, len) ==> len == run(text, stop),
{
    lemma_run_exists(text, stop, 0);
    let found = run(text, stop);
    assert forall|len: int| is_run(text, stop, len) implies len == found by {
        if len < found {
            assert(!stop(text[len]));
        }
        if found < len {
            assert(!stop(text[found]));
        }
    }
}

proof fn lemma_run_exists(text: Seq<char>, stop: spec_fn(char) -> bool, from: int)
    requires
        0 <= from <= text.len(),
        forall|k: int| 0 <= k < from ==> !stop(#[trigger] text[k]),
    ensures
        exists|len: int| is_run(text, stop, len),
    decreases text.len() - from,
{
    if from == text.len() || stop(text[from]) {
        assert(is_run(text, stop, from));
    } else {
        lemma_run_exists(text, stop, from + 1);
    }
}

/// Stops at one given character.
pub open spec fn at_char(stop: char) -> spec_fn(char) -> bool {
    |character: char| character == stop
}

/// How many characters stand before the first `stop`, or in the whole text.
pub fn run_to_char(text: &[char], stop: char) -> (len: usize)
    ensures
        len == run(text@, at_char(stop)),
        is_run(text@, at_char(stop), len as int),
{
    proof {
        lemma_run(text@, at_char(stop));
    }
    let mut len: usize = 0;
    while len < text.len()
        invariant
            len <= text@.len(),
            forall|k: int| 0 <= k < len ==> text@[k] != stop,
        ensures
            is_run(text@, at_char(stop), len as int),
        decreases text@.len() - len,
    {
        if text[len] == stop {
            break;
        }
        len += 1;
    }
    len
}

/// What stands before the first `separator`, and what stands behind it.
pub open spec fn split_once(text: Seq<char>, separator: char) -> Option<(Seq<char>, Seq<char>)> {
    let at = run(text, at_char(separator));
    if at < text.len() {
        Some((text.take(at), text.skip(at + 1)))
    } else {
        None
    }
}

/// Splits a text at the first `separator`.
pub fn split_at_char(text: &str, separator: char) -> (parts: Option<(String, String)>)
    ensures
        match parts {
            Some((before, behind)) => split_once(text@, separator) == Some((before@, behind@)),
            None => split_once(text@, separator) is None,
        },
{
    let chars = chars_of(text);
    let at = run_to_char(chars.as_slice(), separator);
    if at < chars.len() {
        let before = string_of(slice_subrange(chars.as_slice(), 0, at));
        let behind = string_of(slice_subrange(chars.as_slice(), at + 1, chars.len()));
        assert(before@ == text@.take(at as int));
        assert(behind@ == text@.skip(at + 1));
        Some((before, behind))
    } else {
        None
    }
}

/// The pieces of a text between separators; a text without one is a single piece.
pub open spec fn split(text: Seq<char>, separator: char) -> Seq<Seq<char>>
    decreases text.len(),
{
    proof {
        lemma_run(text, at_char(separator));
    }
    match split_once(text, separator) {
        Some((before, behind)) => seq![before] + split(behind, separator),
        None => seq![text],
    }
}

/// What stands behind the last separator, or the whole text where there is none.
pub open spec fn after_last(text: Seq<char>, separator: char) -> Seq<char>
    decreases text.len(),
{
    if text.len() == 0 || text.last() == separator {
        seq![]
    } else {
        after_last(text.drop_last(), separator).push(text.last())
    }
}

/// The part of a text behind its last separator.
pub fn last_part(text: &str, separator: char) -> (part: String)
    ensures
        part@ == after_last(text@, separator),
{
    let chars = chars_of(text);
    let mut start: usize = chars.len();
    assert(chars@.take(start as int) == chars@);
    assert(after_last(chars@, separator) == after_last(chars@, separator)
        + Seq::<char>::empty());
    assert(chars@.skip(start as int) == Seq::<char>::empty());
    while start > 0
        invariant
            chars@ == text@,
            start <= chars@.len(),
            after_last(text@, separator) == after_last(chars@.take(start as int), separator)
                + chars@.skip(start as int),
        ensures
            start <= chars@.len(),
            after_last(text@, separator) == chars@.skip(start as int),
        decreases start,
    {
        let ghost head = chars@.take(start as int);
        assert(head.last() == chars@[start - 1]);
        if chars[start - 1] == separator {
            assert(after_last(head, separator) == Seq::<char>::empty());
            assert(Seq::<char>::empty() + chars@.skip(start as int) == chars@.skip(start as int));
            break;
        }
        assert(head.drop_last() == chars@.take(start - 1));
        assert(chars@.skip(start - 1) == seq![chars@[start - 1]] + chars@.skip(start as int));
        assert(after_last(chars@.take(start - 1), separator).push(chars@[start - 1])
            + chars@.skip(start as int) == after_last(chars@.take(start - 1), separator)
            + chars@.skip(start - 1));
        start -= 1;
        assert(start == 0 ==> after_last(chars@.take(0), separator) + chars@.skip(0)
            == chars@.skip(0));
    }
    let part = string_of(slice_subrange(chars.as_slice(), start, chars.len()));
    assert(part@ == chars@.skip(start as int));
    part
}

// ---------------------------------------------------------------------------------------------
// White space, trimming and lines
// ---------------------------------------------------------------------------------------------

/// The characters with the Unicode property `White_Space`.
pub open spec fn is_space(character: char) -> bool {
    let code = character as u32;
    ||| 0x09 <= code <= 0x0d
    ||| code == 0x20
    ||| code == 0x85
    ||| code == 0xa0
    ||| code == 0x1680
    ||| 0x2000 <= code <= 0x200a
    ||| code == 0x2028
    ||| code == 0x2029
    ||| code == 0x202f
    ||| code == 0x205f
    ||| code == 0x3000
}

/// Whether a character is white space.
pub fn space(character: char) -> (yes: bool)
    ensures
        yes == is_space(character),
{
    let code: u32 = character as u32;
    (0x09 <= code && code <= 0x0d) || code == 0x20 || code == 0x85 || code == 0xa0 || code == 0x1680
        || (0x2000 <= code && code <= 0x200a) || code == 0x2028 || code == 0x2029 || code == 0x202f
        || code == 0x205f || code == 0x3000
}

/// Stops at the first character that is not white space.
pub open spec fn not_space() -> spec_fn(char) -> bool {
    |character: char| !is_space(character)
}

/// A text without the white space at its start.
pub open spec fn trim_start(text: Seq<char>) -> Seq<char> {
    text.skip(run(text, not_space()))
}

/// A text without the white space at its end.
pub open spec fn trim_end(text: Seq<char>) -> Seq<char>
    decreases text.len(),
{
    if text.len() > 0 && is_space(text.last()) {
        trim_end(text.drop_last())
    } else {
        text
    }
}

/// A text without the white space around it.
pub open spec fn trim(text: Seq<char>) -> Seq<char> {
    trim_end(trim_start(text))
}

/// Nothing but white space.
pub open spec fn is_blank(text: Seq<char>) -> bool {
    forall|k: int| 0 <= k < text.len() ==> is_space(#[trigger] text[k])
}

/// The bounds of a text without the white space around it.
fn trim_bounds(text: &[char]) -> (bounds: (usize, usize))
    ensures
        bounds.0 <= bounds.1 <= text@.len(),
        text@.subrange(bounds.0 as int, bounds.1 as int) == trim(text@),
        bounds.0 == run(text@, not_space()),
{
    proof {
        lemma_run(text@, not_space());
    }
    let mut start: usize = 0;
    while start < text.len()
        invariant
            start <= text@.len(),
            forall|k: int| 0 <= k < start ==> is_space(#[trigger] text@[k]),
        ensures
            is_run(text@, not_space(), start as int),
        decreases text@.len() - start,
    {
        if !space(text[start]) {
            break;
        }
        start += 1;
    }
    let end = trim_end_bound(text, start);
    assert(text@.skip(start as int) == text@.subrange(start as int, text@.len() as int));
    (start, end)
}

/// Where the text from `start` on ends without the white space at its end.
fn trim_end_bound(text: &[char], start: usize) -> (end: usize)
    requires
        start <= text@.len(),
    ensures
        start <= end <= text@.len(),
        text@.subrange(start as int, end as int) == trim_end(
            text@.subrange(start as int, text@.len() as int),
        ),
{
    let mut end: usize = text.len();
    while end > start
        invariant
            start <= end <= text@.len(),
            trim_end(text@.subrange(start as int, text@.len() as int)) == trim_end(
                text@.subrange(start as int, end as int),
            ),
        ensures
            start <= end <= text@.len(),
            text@.subrange(start as int, end as int) == trim_end(
                text@.subrange(start as int, text@.len() as int),
            ),
        decreases end,
    {
        if !space(text[end - 1]) {
            break;
        }
        assert(text@.subrange(start as int, end as int).drop_last() == text@.subrange(
            start as int,
            end - 1,
        ));
        end -= 1;
    }
    end
}

/// A text without the white space around it.
pub fn trimmed(text: &str) -> (result: String)
    ensures
        result@ == trim(text@),
{
    let chars = chars_of(text);
    let (start, end) = trim_bounds(chars.as_slice());
    string_of(slice_subrange(chars.as_slice(), start, end))
}

/// A text without the white space at its end.
pub fn end_trimmed(text: &str) -> (result: String)
    ensures
        result@ == trim_end(text@),
{
    let chars = chars_of(text);
    let end = trim_end_bound(chars.as_slice(), 0);
    assert(text@.subrange(0, text@.len() as int) == text@);
    string_of(slice_subrange(chars.as_slice(), 0, end))
}

/// Trimming leaves nothing exactly where there is nothing but white space.
pub proof fn lemma_trim_blank(text: Seq<char>)
    ensures
        trim(text).len() == 0 <==> is_blank(text),
{
    lemma_run(text, not_space());
    let start = run(text, not_space());
    if start < text.len() {
        let rest = text.skip(start);
        assert(!is_space(text[start]));
        assert(rest[0] == text[start]);
        lemma_trim_end_keeps(rest, 0);
    } else {
        assert(trim_start(text) == Seq::<char>::empty());
        assert forall|k: int| 0 <= k < text.len() implies is_space(#[trigger] text[k]) by {}
    }
}

/// Trimming the end leaves a start of the text.
pub proof fn lemma_trim_end_is_start(text: Seq<char>)
    ensures
        trim_end(text).len() <= text.len(),
        trim_end(text) == text.take(trim_end(text).len() as int),
    decreases text.len(),
{
    if text.len() > 0 && is_space(text.last()) {
        lemma_trim_end_is_start(text.drop_last());
        assert(text.drop_last().take(trim_end(text).len() as int) == text.take(
            trim_end(text).len() as int,
        ));
    } else {
        assert(text.take(text.len() as int) == text);
    }
}

/// What stands at or before a character that is not white space stays.
pub proof fn lemma_trim_end_keeps(text: Seq<char>, at: int)
    requires
        0 <= at < text.len(),
        !is_space(text[at]),
    ensures
        trim_end(text).len() > at,
    decreases text.len(),
{
    if is_space(text.last()) {
        lemma_trim_end_keeps(text.drop_last(), at);
    }
}

/// A text without white space has none to trim.
pub proof fn lemma_trim_nothing(text: Seq<char>)
    requires
        forall|k: int| 0 <= k < text.len() ==> !is_space(#[trigger] text[k]),
    ensures
        trim(text) == text,
{
    lemma_run(text, not_space());
    assert(is_run(text, not_space(), 0));
    assert(text.skip(0) == text);
}

/// Whether a text is nothing but white space.
pub fn blank(text: &str) -> (yes: bool)
    ensures
        yes == is_blank(text@),
        yes == (trim(text@).len() == 0),
{
    proof {
        lemma_trim_blank(text@);
    }
    let chars = chars_of(text);
    let (start, end) = trim_bounds(chars.as_slice());
    assert(text@.subrange(start as int, end as int).len() == end - start);
    start == end
}

/// A line without the carriage return before its line feed.
pub open spec fn strip_return(line: Seq<char>) -> Seq<char> {
    if line.len() > 0 && line.last() == '\r' {
        line.drop_last()
    } else {
        line
    }
}

/// The lines of a text, each without the line feed, or carriage return and line feed, that ends it.
pub open spec fn lines(text: Seq<char>) -> Seq<Seq<char>>
    decreases text.len(),
{
    proof {
        lemma_run(text, at_char('\n'));
    }
    if text.len() == 0 {
        seq![]
    } else {
        match split_once(text, '\n') {
            Some((before, behind)) => seq![strip_return(before)] + lines(behind),
            None => seq![text],
        }
    }
}

/// The contents of a sequence of strings.
pub open spec fn texts(strings: Seq<String>) -> Seq<Seq<char>> {
    strings.map_values(|text: String| text@)
}

/// The lines of a text.
pub fn lines_of(text: &str) -> (result: Vec<String>)
    ensures
        texts(result@) == lines(text@),
{
    let chars = chars_of(text);
    let mut result: Vec<String> = Vec::new();
    let mut start: usize = 0;
    assert(text@.skip(0) == text@);
    assert(texts(result@) + lines(text@) == lines(text@));
    while start < chars.len()
        invariant
            chars@ == text@,
            start <= chars@.len(),
            texts(result@) + lines(text@.skip(start as int)) == lines(text@),
        decreases chars@.len() - start,
    {
        let rest = slice_subrange(chars.as_slice(), start, chars.len());
        assert(rest@ == text@.skip(start as int));
        let len = run_to_char(rest, '\n');
        let ghost before_push = result@;
        if len < rest.len() {
            let end: usize = if len > 0 && rest[len - 1] == '\r' {
                len - 1
            } else {
                len
            };
            let line = string_of(slice_subrange(rest, 0, end));
            assert(line@ == strip_return(rest@.take(len as int)));
            result.push(line);
            assert(rest@.skip(len + 1) == text@.skip(start + len + 1));
            assert(texts(result@) == texts(before_push).push(line@));
            assert(texts(result@) + lines(text@.skip(start + len + 1)) == texts(before_push) + lines(
                rest@,
            ));
            start = start + len + 1;
        } else {
            let line = string_of(rest);
            result.push(line);
            assert(texts(result@) == texts(before_push).push(line@));
            assert(text@.skip(text@.len() as int) == Seq::<char>::empty());
            assert(lines(rest@) == seq![rest@]);
            assert(texts(result@) + lines(Seq::<char>::empty()) == texts(before_push) + lines(rest@));
            start = chars.len();
        }
    }
    assert(text@.skip(start as int) == Seq::<char>::empty());
    assert(texts(result@) + Seq::<Seq<char>>::empty() == texts(result@));
    result
}

// ---------------------------------------------------------------------------------------------
// Letter case
// ---------------------------------------------------------------------------------------------

/// A character with the letters `A` to `Z` in lower case.
pub open spec fn lower_char(character: char) -> char {
    if 'A' <= character <= 'Z' {
        (character as u32 + 32) as char
    } else {
        character
    }
}

/// A character with the letters `a` to `z` in upper case.
pub open spec fn upper_char(character: char) -> char {
    if 'a' <= character <= 'z' {
        (character as u32 - 32) as char
    } else {
        character
    }
}

/// A text with the letters `A` to `Z` in lower case.
pub open spec fn lower(text: Seq<char>) -> Seq<char> {
    text.map_values(|character: char| lower_char(character))
}

/// A text with the letters `a` to `z` in upper case.
pub open spec fn upper(text: Seq<char>) -> Seq<char> {
    text.map_values(|character: char| upper_char(character))
}

fn lowered_char(character: char) -> (result: char)
    ensures
        result == lower_char(character),
{
    if 'A' <= character && character <= 'Z' {
        ((character as u8) + 32) as char
    } else {
        character
    }
}

fn uppered_char(character: char) -> (result: char)
    ensures
        result == upper_char(character),
{
    if 'a' <= character && character <= 'z' {
        ((character as u8) - 32) as char
    } else {
        character
    }
}

/// A text with the letters `A` to `Z` in lower case.
pub fn lowered(text: &str) -> (result: String)
    ensures
        result@ == lower(text@),
{
    let chars = chars_of(text);
    let mut result = String::new();
    let mut i: usize = 0;
    while i < chars.len()
        invariant
            chars@ == text@,
            i <= chars@.len(),
            result@ == lower(text@.take(i as int)),
        decreases chars@.len() - i,
    {
        result.push(lowered_char(chars[i]));
        i += 1;
        assert(text@.take(i as int) == text@.take(i - 1).push(text@[i - 1]));
        assert(lower(text@.take(i as int)) == lower(text@.take(i - 1)).push(
            lower_char(text@[i - 1]),
        ));
    }
    assert(text@.take(i as int) == text@);
    result
}

/// A text with the letters `a` to `z` in upper case.
pub fn uppered(text: &str) -> (result: String)
    ensures
        result@ == upper(text@),
{
    let chars = chars_of(text);
    let mut result = String::new();
    let mut i: usize = 0;
    while i < chars.len()
        invariant
            chars@ == text@,
            i <= chars@.len(),
            result@ == upper(text@.take(i as int)),
        decreases chars@.len() - i,
    {
        result.push(uppered_char(chars[i]));
        i += 1;
        assert(text@.take(i as int) == text@.take(i - 1).push(text@[i - 1]));
        assert(upper(text@.take(i as int)) == upper(text@.take(i - 1)).push(
            upper_char(text@[i - 1]),
        ));
    }
    assert(text@.take(i as int) == text@);
    result
}

/// Two texts that differ at most in the case of the letters `A` to `Z`.
pub open spec fn same_ignoring_case(left: Seq<char>, right: Seq<char>) -> bool {
    lower(left) == lower(right)
}

/// Whether two texts differ at most in the case of the letters `A` to `Z`.
pub fn equal_ignoring_case(left: &str, right: &str) -> (same: bool)
    ensures
        same == same_ignoring_case(left@, right@),
{
    lowered(left) == lowered(right)
}

// ---------------------------------------------------------------------------------------------
// Numbers
// ---------------------------------------------------------------------------------------------

/// The digit for a number below ten.
pub open spec fn digit(value: nat) -> char {
    (('0' as u32) + value) as char
}

/// A number in decimal notation, without leading zeros.
pub open spec fn decimal(value: nat) -> Seq<char>
    decreases value,
{
    if value < 10 {
        seq![digit(value)]
    } else {
        decimal(value / 10).push(digit(value % 10))
    }
}

/// A signed number in decimal notation.
pub open spec fn signed_decimal(value: int) -> Seq<char> {
    if value < 0 {
        seq!['-'] + decimal((-value) as nat)
    } else {
        decimal(value as nat)
    }
}

/// Appends a number in decimal notation.
pub fn append_decimal(text: &mut String, value: u64)
    ensures
        final(text)@ == old(text)@ + decimal(value as nat),
    decreases value,
{
    if value >= 10 {
        append_decimal(text, value / 10);
    }
    text.push((48u8 + (value % 10) as u8) as char);
    assert(text@ == old(text)@ + decimal(value as nat));
}

/// A number in decimal notation.
pub fn decimal_of(value: u64) -> (text: String)
    ensures
        text@ == decimal(value as nat),
{
    let mut text = String::new();
    append_decimal(&mut text, value);
    assert(Seq::<char>::empty() + decimal(value as nat) == decimal(value as nat));
    text
}

/// A signed number in decimal notation.
pub fn signed_decimal_of(value: i64) -> (text: String)
    ensures
        text@ == signed_decimal(value as int),
{
    let mut text = String::new();
    if value < 0 {
        text.push('-');
        let magnitude: u64 = (-(value as i128)) as u64;
        append_decimal(&mut text, magnitude);
        assert(text@ == seq!['-'] + decimal(magnitude as nat));
    } else {
        append_decimal(&mut text, value as u64);
        assert(Seq::<char>::empty() + decimal(value as nat) == decimal(value as nat));
    }
    text
}

/// One of the characters `0` to `9`.
pub open spec fn is_digit(character: char) -> bool {
    '0' <= character <= '9'
}

/// At least one digit and nothing else.
pub open spec fn is_number(text: Seq<char>) -> bool {
    text.len() > 0 && forall|k: int| 0 <= k < text.len() ==> is_digit(#[trigger] text[k])
}

/// The value of a sequence of digits.
pub open spec fn number_value(digits: Seq<char>) -> nat
    decreases digits.len(),
{
    if digits.len() == 0 {
        0
    } else {
        number_value(digits.drop_last()) * 10 + (digits.last() as u32 - '0' as u32) as nat
    }
}

/// A text without one plus sign at its start.
pub open spec fn without_plus(text: Seq<char>) -> Seq<char> {
    if text.len() > 0 && text[0] == '+' {
        text.skip(1)
    } else {
        text
    }
}

/// The number that a text spells: digits with an optional plus sign, and at most `limit`.
pub open spec fn spelled_number(text: Seq<char>, limit: nat) -> Option<nat> {
    let digits = without_plus(text);
    if is_number(digits) && number_value(digits) <= limit {
        Some(number_value(digits))
    } else {
        None
    }
}

proof fn lemma_value_grows(digits: Seq<char>, len: int)
    requires
        0 <= len <= digits.len(),
    ensures
        number_value(digits.take(len)) <= number_value(digits),
    decreases digits.len() - len,
{
    if len < digits.len() {
        lemma_value_grows(digits, len + 1);
        assert(digits.take(len + 1).drop_last() == digits.take(len));
    } else {
        assert(digits.take(len) == digits);
    }
}

/// Reads an unsigned number: digits with an optional plus sign, of at most 64 bits.
pub fn parse_u64(text: &str) -> (value: Option<u64>)
    ensures
        match value {
            Some(value) => spelled_number(text@, u64::MAX as nat) == Some(value as nat),
            None => spelled_number(text@, u64::MAX as nat) is None,
        },
{
    let chars = chars_of(text);
    let start: usize = if chars.len() > 0 && chars[0] == '+' {
        1
    } else {
        0
    };
    let digits = slice_subrange(chars.as_slice(), start, chars.len());
    assert(digits@ == without_plus(text@));
    if digits.len() == 0 {
        return None;
    }
    let mut value: u64 = 0;
    let mut i: usize = 0;
    while i < digits.len()
        invariant
            digits@ == without_plus(text@),
            i <= digits@.len(),
            forall|k: int| 0 <= k < i ==> is_digit(#[trigger] digits@[k]),
            value == number_value(digits@.take(i as int)),
        decreases digits@.len() - i,
    {
        let character = digits[i];
        if !('0' <= character && character <= '9') {
            assert(!is_digit(digits@[i as int]));
            return None;
        }
        let unit: u64 = (character as u8 - 48u8) as u64;
        assert(digits@.take(i + 1).drop_last() == digits@.take(i as int));
        proof {
            lemma_value_grows(digits@, i + 1);
        }
        if value > (u64::MAX - unit) / 10 {
            return None;
        }
        value = value * 10 + unit;
        i += 1;
    }
    assert(digits@.take(i as int) == digits@);
    Some(value)
}

/// Reads an unsigned number that fits in `usize`.
pub fn parse_usize(text: &str) -> (value: Option<usize>)
    ensures
        match value {
            Some(value) => spelled_number(text@, usize::MAX as nat) == Some(value as nat),
            None => spelled_number(text@, usize::MAX as nat) is None,
        },
{
    match parse_u64(text) {
        Some(value) => if value <= usize::MAX as u64 {
            Some(value as usize)
        } else {
            None
        },
        None => None,
    }
}

// ---------------------------------------------------------------------------------------------
// Lists of strings
// ---------------------------------------------------------------------------------------------

/// Whether a list holds a text.
pub fn list_contains(list: &Vec<String>, text: &str) -> (found: bool)
    ensures
        found == texts(list@).contains(text@),
{
    let mut i: usize = 0;
    while i < list.len()
        invariant
            i <= list@.len(),
            forall|k: int| 0 <= k < i ==> (#[trigger] list@[k])@ != text@,
        decreases list@.len() - i,
    {
        if same_text(list[i].as_str(), text) {
            assert(texts(list@)[i as int] == text@);
            return true;
        }
        i += 1;
    }
    assert forall|k: int| 0 <= k < texts(list@).len() implies texts(list@)[k] != text@ by {
        assert(list@[k]@ != text@);
    }
    false
}

/// A list with copies of its strings.
pub fn copy_list(list: &Vec<String>) -> (copy: Vec<String>)
    ensures
        texts(copy@) == texts(list@),
{
    let mut copy: Vec<String> = Vec::new();
    let mut i: usize = 0;
    while i < list.len()
        invariant
            i <= list@.len(),
            copy@ == list@.take(i as int),
        decreases list@.len() - i,
    {
        copy.push(list[i].clone());
        i += 1;
    }
    assert(list@.take(i as int) == list@);
    copy
}

/// The contents of an optional string.
pub open spec fn maybe_text(text: Option<String>) -> Option<Seq<char>> {
    match text {
        Some(text) => Some(text@),
        None => None,
    }
}

/// A copy of an optional string.
pub fn copy_maybe(text: &Option<String>) -> (copy: Option<String>)
    ensures
        maybe_text(copy) == maybe_text(*text),
{
    match text {
        Some(text) => Some(text.clone()),
        None => None,
    }
}

/// The contents of a sequence of texts.
pub open spec fn words_of(words: Seq<&str>) -> Seq<Seq<char>> {
    words.map_values(|word: &str| word@)
}

/// A list of strings with the given contents.
pub fn strings(words: Vec<&str>) -> (list: Vec<String>)
    ensures
        texts(list@) == words_of(words@),
{
    let mut list: Vec<String> = Vec::new();
    let mut i: usize = 0;
    while i < words.len()
        invariant
            i <= words@.len(),
            texts(list@) == words_of(words@.take(i as int)),
        decreases words@.len() - i,
    {
        let ghost before = list@;
        list.push(words[i].to_owned());
        i += 1;
        assert(texts(list@) == texts(before).push(words@[i - 1]@));
        assert(words@.take(i as int) == words@.take(i - 1).push(words@[i - 1]));
        assert(words_of(words@.take(i as int)) == words_of(words@.take(i - 1)).push(
            words@[i - 1]@,
        ));
    }
    assert(words@.take(i as int) == words@);
    list
}

/// Texts joined with a separator between each two.
pub open spec fn join(parts: Seq<Seq<char>>, separator: Seq<char>) -> Seq<char>
    decreases parts.len(),
{
    if parts.len() == 0 {
        seq![]
    } else if parts.len() == 1 {
        parts[0]
    } else {
        join(parts.drop_last(), separator) + separator + parts.last()
    }
}

/// Joins strings with a separator between each two.
pub fn joined(parts: &Vec<String>, separator: &str) -> (text: String)
    ensures
        text@ == join(texts(parts@), separator@),
{
    let mut text = String::new();
    let mut i: usize = 0;
    while i < parts.len()
        invariant
            i <= parts@.len(),
            text@ == join(texts(parts@).take(i as int), separator@),
        decreases parts@.len() - i,
    {
        if i > 0 {
            text.append(separator);
        }
        text.append(parts[i].as_str());
        assert(texts(parts@).take(i + 1).drop_last() == texts(parts@).take(i as int));
        assert(texts(parts@).take(i + 1).last() == parts@[i as int]@);
        assert(text@ == join(texts(parts@).take(i + 1), separator@));
        i += 1;
    }
    assert(texts(parts@).take(i as int) == texts(parts@));
    text
}

// ---------------------------------------------------------------------------------------------
// Laws
// ---------------------------------------------------------------------------------------------

proof fn lemma_decimal(value: nat)
    ensures
        is_number(decimal(value)),
        number_value(decimal(value)) == value,
        decimal(value)[0] != '+',
    decreases value,
{
    let text = decimal(value);
    if value < 10 {
        assert(text.drop_last() == Seq::<char>::empty());
        assert(number_value(text.drop_last()) == 0);
        assert(text.last() == digit(value));
    } else {
        lemma_decimal(value / 10);
        let shorter = decimal(value / 10);
        assert(text.drop_last() == shorter);
        assert(text.last() == digit(value % 10));
        assert forall|k: int| 0 <= k < text.len() implies is_digit(#[trigger] text[k]) by {
            if k < shorter.len() {
                assert(text[k] == shorter[k]);
            }
        }
        assert(text[0] == shorter[0]);
    }
}

/// A number that was written down reads back as itself, with a plus sign before it too, and has no
/// white space around it. What reads as a number is made of digits, but for that sign.
pub proof fn numbers_read_back(value: nat, limit: nat, text: Seq<char>)
    ensures
        value <= limit ==> spelled_number(decimal(value), limit) == Some(value),
        value <= limit ==> spelled_number(seq!['+'] + decimal(value), limit) == Some(value),
        value > limit ==> spelled_number(decimal(value), limit) is None,
        trim(decimal(value)) == decimal(value),
        spelled_number(text, limit) matches Some(number) ==> number <= limit && text.len() > 0 && (
        forall|k: int|
            0 <= k < text.len() ==> '0' <= #[trigger] text[k] <= '9' || k == 0 && text[k] == '+'),
{
    lemma_decimal(value);
    assert((seq!['+'] + decimal(value)).skip(1) == decimal(value));
    lemma_trim_nothing(decimal(value));
    if spelled_number(text, limit) is Some {
        let digits = without_plus(text);
        assert forall|k: int| 0 <= k < text.len() implies '0' <= #[trigger] text[k] <= '9' || k == 0
            && text[k] == '+' by {
            if text[0] == '+' {
                if k > 0 {
                    assert(is_digit(digits[k - 1]));
                }
            } else {
                assert(is_digit(digits[k]));
            }
        }
    }
}

/// Trimming takes white space away, all that stands around the text, and nothing else.
pub proof fn trimming_takes_white_space_alone(text: Seq<char>)
    ensures
        exists|start: int, end: int|
            0 <= start <= end <= text.len() && trim(text) == #[trigger] text.subrange(start, end)
                && is_blank(text.take(start)) && is_blank(text.skip(end)),
        trim(text).len() > 0 ==> !is_space(trim(text)[0]) && !is_space(trim(text).last()),
        exists|end: int|
            0 <= end <= text.len() && trim_end(text) == #[trigger] text.take(end) && is_blank(
                text.skip(end),
            ),
        trim_end(text).len() > 0 ==> !is_space(trim_end(text).last()),
{
    lemma_run(text, not_space());
    let start = run(text, not_space());
    let rest = text.skip(start);
    lemma_trim_end_is_start(rest);
    lemma_end_is_blank(rest);
    let end = start + trim_end(rest).len();
    assert(trim(text) == text.subrange(start, end));
    assert forall|k: int| 0 <= k < text.skip(end).len() implies is_space(
        #[trigger] text.skip(end)[k],
    ) by {
        assert(text.skip(end)[k] == rest.skip(trim_end(rest).len() as int)[k]);
    }
    assert forall|k: int| 0 <= k < text.take(start).len() implies is_space(
        #[trigger] text.take(start)[k],
    ) by {
        assert(!not_space()(text[k]));
    }
    if trim(text).len() > 0 {
        assert(start < text.len());
        assert(not_space()(text[start]));
        assert(trim(text)[0] == text[start]);
    }
    lemma_trim_end_is_start(text);
    lemma_end_is_blank(text);
    assert(trim_end(text) == text.take(trim_end(text).len() as int));
}

proof fn lemma_end_is_blank(text: Seq<char>)
    ensures
        trim_end(text).len() <= text.len(),
        is_blank(text.skip(trim_end(text).len() as int)),
        trim_end(text).len() > 0 ==> !is_space(trim_end(text).last()),
    decreases text.len(),
{
    if text.len() > 0 && is_space(text.last()) {
        let shorter = text.drop_last();
        lemma_end_is_blank(shorter);
        let end = trim_end(text).len() as int;
        assert forall|k: int| 0 <= k < text.skip(end).len() implies is_space(
            #[trigger] text.skip(end)[k],
        ) by {
            if k + end < shorter.len() {
                assert(shorter.skip(end)[k] == text.skip(end)[k]);
            }
        }
    }
}

/// The space, the tab and the ends of lines are white space; no other character of ASCII that can
/// be seen is.
pub proof fn what_can_be_seen_is_no_white_space(character: char)
    ensures
        is_space(' '),
        is_space('\t'),
        is_space('\n'),
        is_space('\r'),
        '!' <= character <= '~' ==> !is_space(character),
{
}

/// The two parts of a text that is split at a separator make up the text again, and the first holds
/// no separator; a text without one is not split.
pub proof fn a_split_text_joins_again(text: Seq<char>, separator: char)
    ensures
        match split_once(text, separator) {
            Some((before, behind)) => text == before.push(separator) + behind
                && !before.contains(separator),
            None => !text.contains(separator),
        },
{
    lemma_run(text, at_char(separator));
    let at = run(text, at_char(separator));
    assert forall|k: int| 0 <= k < at implies text[k] != separator by {
        assert(!at_char(separator)(text[k]));
    }
    if at < text.len() {
        assert(text == text.take(at).push(separator) + text.skip(at + 1));
        assert forall|k: int| 0 <= k < at implies text.take(at)[k] != separator by {
            assert(text.take(at)[k] == text[k]);
        }
    }
}

/// A text that is put together around a separator is split there, where the first part holds none.
pub proof fn a_joined_text_is_split_there(before: Seq<char>, separator: char, behind: Seq<char>)
    requires
        !before.contains(separator),
    ensures
        split_once(before.push(separator) + behind, separator) == Some((before, behind)),
        split_once(before, separator) is None,
{
    let text = before.push(separator) + behind;
    lemma_run(text, at_char(separator));
    lemma_run(before, at_char(separator));
    let at = before.len() as int;
    assert(is_run(text, at_char(separator), at)) by {
        assert forall|k: int| 0 <= k < at implies !at_char(separator)(#[trigger] text[k]) by {
            assert(text[k] == before[k]);
            assert(before.contains(before[k]));
        }
        assert(text[at] == separator);
    }
    assert(text.take(at) == before);
    assert(text.skip(at + 1) == behind);
    assert(is_run(before, at_char(separator), at)) by {
        assert forall|k: int| 0 <= k < at implies !at_char(separator)(#[trigger] before[k]) by {
            assert(before.contains(before[k]));
        }
    }
}

/// What stands behind the last separator holds none, and ends the text.
pub proof fn the_last_part_ends_the_text(text: Seq<char>, separator: char)
    ensures
        !after_last(text, separator).contains(separator),
        after_last(text, separator).len() <= text.len(),
        text.skip(text.len() - after_last(text, separator).len()) == after_last(text, separator),
        after_last(text, separator).len() < text.len() ==> text[text.len() - after_last(
            text,
            separator,
        ).len() - 1] == separator,
    decreases text.len(),
{
    let part = after_last(text, separator);
    if !(text.len() == 0 || text.last() == separator) {
        let shorter = text.drop_last();
        the_last_part_ends_the_text(shorter, separator);
        let earlier = after_last(shorter, separator);
        assert forall|k: int| 0 <= k < part.len() implies part[k] != separator by {
            if k < earlier.len() {
                assert(part[k] == earlier[k]);
                assert(earlier.contains(earlier[k]));
            }
        }
        let at = text.len() - part.len();
        assert forall|k: int| 0 <= k < part.len() implies text.skip(at)[k] == part[k] by {
            if k < earlier.len() {
                assert(shorter.skip(at)[k] == earlier[k]);
            }
        }
        assert(text.skip(at) == part);
    } else {
        assert(text.skip(text.len() as int) == Seq::<char>::empty());
    }
}

/// What is written behind a separator is the last part, where it holds none itself.
pub proof fn the_last_part_is_what_was_appended(text: Seq<char>, separator: char, part: Seq<char>)
    requires
        !part.contains(separator),
    ensures
        after_last(text.push(separator) + part, separator) == part,
        after_last(part, separator) == part,
    decreases part.len(),
{
    let whole = text.push(separator) + part;
    if part.len() == 0 {
        assert(whole.last() == separator);
    } else {
        let shorter = part.drop_last();
        assert forall|k: int| 0 <= k < shorter.len() implies shorter[k] != separator by {
            assert(part.contains(part[k]));
        }
        the_last_part_is_what_was_appended(text, separator, shorter);
        assert(part.contains(part.last()));
        assert(whole.last() == part.last());
        assert(whole.drop_last() == text.push(separator) + shorter);
        assert(shorter.push(part.last()) == part);
    }
}

/// Letter case is that of the letters from a to z alone, and changes one character at a time.
pub proof fn letter_case_is_that_of_ascii(text: Seq<char>, k: int)
    requires
        0 <= k < text.len(),
    ensures
        lower(text).len() == text.len(),
        upper(text).len() == text.len(),
        'A' <= text[k] <= 'Z' ==> lower(text)[k] as u32 == text[k] as u32 + 32,
        !('A' <= text[k] <= 'Z') ==> lower(text)[k] == text[k],
        'a' <= text[k] <= 'z' ==> upper(text)[k] as u32 == text[k] as u32 - 32,
        !('a' <= text[k] <= 'z') ==> upper(text)[k] == text[k],
{
}

/// Two texts are the same but for letter case exactly where they are the same once in lower case,
/// and then once in upper case too.
pub proof fn letter_case_is_ignored(left: Seq<char>, right: Seq<char>)
    ensures
        same_ignoring_case(left, right) <==> lower(left) == lower(right),
        same_ignoring_case(left, right) ==> upper(left) == upper(right),
        same_ignoring_case(left, left),
        same_ignoring_case(left, lower(left)),
        same_ignoring_case(left, upper(left)),
        same_ignoring_case(left, right) == same_ignoring_case(right, left),
{
    assert(lower(lower(left)) == lower(left));
    assert(lower(upper(left)) == lower(left));
    if same_ignoring_case(left, right) {
        assert(left.len() == lower(left).len() && right.len() == lower(right).len());
        assert forall|k: int| 0 <= k < left.len() implies upper(left)[k] == upper(right)[k] by {
            assert(lower(left)[k] == lower(right)[k]);
            assert(lower(left)[k] == lower_char(left[k]));
            assert(lower(right)[k] == lower_char(right[k]));
        }
        assert(upper(left) == upper(right));
    }
}

/// A line feed ends a line, and the carriage return before it is not part of the line; what is
/// left without a line feed is a line of its own.
pub proof fn line_feeds_end_lines(line: Seq<char>, rest: Seq<char>)
    requires
        !line.contains('\n'),
    ensures
        lines(line.push('\n') + rest) == seq![
            if line.len() > 0 && line.last() == '\r' {
                line.drop_last()
            } else {
                line
            },
        ] + lines(rest),
        line.len() > 0 ==> lines(line) == seq![line],
        lines(seq![]) == Seq::<Seq<char>>::empty(),
{
    a_joined_text_is_split_there(line, '\n', rest);
}

/// One text joined is itself, and one more comes behind a separator.
pub proof fn a_separator_stands_between_two(
    first: Seq<char>,
    parts: Seq<Seq<char>>,
    last: Seq<char>,
    separator: Seq<char>,
)
    ensures
        join(seq![], separator) == Seq::<char>::empty(),
        join(seq![first], separator) == first,
        join(seq![first, last], separator) == first + separator + last,
        parts.len() > 0 ==> join(parts.push(last), separator) == join(parts, separator) + separator
            + last,
{
    assert(parts.push(last).drop_last() == parts);
    let two = seq![first, last];
    assert(two.drop_last() == seq![first]);
    assert(join(seq![first], separator) == first);
}

} // verus!
