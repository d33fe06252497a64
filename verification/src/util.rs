//! The time of day as text, and log lines without secrets.
use crate::outside::{
    clock_instant, format_rfc3339, rfc3339_instant, rfc3339_text, seconds_since_epoch,
    FIRST_INSTANT, LAST_INSTANT, YEAR_ZERO,
};
use crate::text::{
    chars_of, find, find_chars, first_at, is_run, is_space, lemma_find, lemma_run, occurs,
    occurs_at, run, signed_decimal, signed_decimal_of, space, string_of,
};
use vstd::prelude::*;
use vstd::slice::slice_subrange;

verus! {

// ---------------------------------------------------------------------------------------------
// Time
// ---------------------------------------------------------------------------------------------

/// The number of nanoseconds in a second.
pub const SECOND: i128 = 1_000_000_000;

/// Seconds since 1970 as a signed number; zero where the clock is set before 1970.
pub open spec fn epoch_of(elapsed: Option<u64>) -> i64 {
    match elapsed {
        Some(seconds) => seconds as i64,
        None => 0,
    }
}

/// Seconds since 1970 as a signed number.
pub fn epoch_seconds(elapsed: Option<u64>) -> (epoch: i64)
    ensures
        epoch == epoch_of(elapsed),
{
    match elapsed {
        Some(seconds) => seconds as i64,
        None => 0,
    }
}

/// The present second, counted from 1970.
pub fn now_epoch() -> (epoch: i64)
    ensures
        exists|elapsed: Option<u64>| epoch == epoch_of(elapsed),
{
    let elapsed = seconds_since_epoch();
    let epoch = epoch_seconds(elapsed);
    assert(epoch == epoch_of(elapsed));
    epoch
}

/// An instant as text: in the format of RFC 3339 where it has one, else the given second.
pub open spec fn instant_text(instant: int, epoch: int) -> Seq<char> {
    match rfc3339_text(instant) {
        Some(text) => text,
        None => signed_decimal(epoch).push('Z'),
    }
}

/// A second as text where the format of RFC 3339 does not reach it.
fn plain_epoch(epoch: i64) -> (text: String)
    ensures
        text@ == signed_decimal(epoch as int).push('Z'),
{
    let mut text = signed_decimal_of(epoch);
    text.push('Z');
    text
}

/// A text that names an instant: reading it gives the instant back, where the format of RFC 3339
/// reaches it.
pub open spec fn names_instant(text: Seq<char>, instant: int, epoch: int) -> bool {
    &&& text == instant_text(instant, epoch)
    &&& YEAR_ZERO <= instant <= LAST_INSTANT ==> rfc3339_instant(text) == Some(instant)
}

/// A text that names some instant that can be represented.
pub open spec fn is_timestamp(text: Seq<char>) -> bool {
    exists|instant: int, epoch: int|
        FIRST_INSTANT <= instant <= LAST_INSTANT && #[trigger] names_instant(text, instant, epoch)
}

/// The present instant as text.
pub fn iso_now() -> (text: String)
    ensures
        is_timestamp(text@),
{
    let instant = clock_instant();
    match format_rfc3339(instant) {
        Some(text) => {
            assert(names_instant(text@, instant as int, 0));
            text
        },
        None => {
            let epoch = now_epoch();
            let text = plain_epoch(epoch);
            assert(names_instant(text@, instant as int, epoch as int));
            text
        },
    }
}

/// A second, counted from 1970, as text.
pub fn iso_from_epoch(epoch: i64) -> (text: String)
    ensures
        names_instant(text@, epoch * SECOND, epoch as int),
{
    match format_rfc3339(epoch as i128 * SECOND) {
        Some(text) => text,
        None => plain_epoch(epoch),
    }
}

// ---------------------------------------------------------------------------------------------
// Secrets in log lines
// ---------------------------------------------------------------------------------------------

/// The starts of keys and of the tokens of GitHub.
pub open spec fn secret_prefixes() -> Seq<Seq<char>> {
    seq!["board_"@, "ghp_"@, "github_pat_"@, "gho_"@, "ghu_"@, "ghs_"@, "ghr_"@]
}

/// A character that ends a secret: white space, a quote, a comma or a closing brace.
pub open spec fn ends_secret(character: char) -> bool {
    is_space(character) || character == '\'' || character == '"' || character == ',' || character
        == '}'
}

/// Stops at the character that ends a secret.
pub open spec fn secret_end() -> spec_fn(char) -> bool {
    |character: char| ends_secret(character)
}

/// Where the secret that begins at `at` with `prefix` ends.
pub open spec fn secret_bound(text: Seq<char>, prefix: Seq<char>, at: int) -> int {
    let behind = at + prefix.len();
    behind + run(text.skip(behind), secret_end())
}

/// A text with every secret that begins with `prefix` replaced.
pub open spec fn redact(text: Seq<char>, prefix: Seq<char>) -> Seq<char>
    decreases text.len(),
{
    proof {
        lemma_find(text, prefix);
        lemma_run(text.skip(find(text, prefix)->0 + prefix.len()), secret_end());
    }
    match find(text, prefix) {
        Some(at) => if prefix.len() == 0 {
            text
        } else {
            text.take(at) + "[redacted]"@ + redact(
                text.skip(secret_bound(text, prefix, at)),
                prefix,
            )
        },
        None => text,
    }
}

/// A text with every secret that begins with one of the prefixes replaced, one prefix after the
/// other.
pub open spec fn redact_all(text: Seq<char>, prefixes: Seq<Seq<char>>) -> Seq<char>
    decreases prefixes.len(),
{
    if prefixes.len() == 0 {
        text
    } else {
        redact(redact_all(text, prefixes.drop_last()), prefixes.last())
    }
}

/// The first 4096 characters of a text.
pub open spec fn clipped(text: Seq<char>) -> Seq<char> {
    if text.len() <= 4096 {
        text
    } else {
        text.take(4096)
    }
}

/// A log line of at most 4096 characters before its secrets are replaced.
pub open spec fn scrub(line: Seq<char>) -> Seq<char> {
    redact_all(clipped(line), secret_prefixes())
}

/// How many characters stand before the end of a secret.
fn secret_run(text: &[char]) -> (len: usize)
    ensures
        len == run(text@, secret_end()),
        len <= text@.len(),
{
    proof {
        lemma_run(text@, secret_end());
    }
    let mut len: usize = 0;
    while len < text.len()
        invariant
            len <= text@.len(),
            forall|k: int| 0 <= k < len ==> !ends_secret(#[trigger] text@[k]),
        ensures
            is_run(text@, secret_end(), len as int),
        decreases text@.len() - len,
    {
        let character = text[len];
        if space(character) || character == '\'' || character == '"' || character == ','
            || character == '}' {
            break;
        }
        len += 1;
    }
    len
}

/// Replaces every secret that begins with `prefix`.
fn redacted(text: &str, prefix: &str) -> (result: String)
    requires
        prefix@.len() > 0,
    ensures
        result@ == redact(text@, prefix@),
{
    let chars = chars_of(text);
    let pattern = chars_of(prefix);
    let mut result = String::new();
    let mut start: usize = 0;
    assert(text@.skip(0) == text@);
    assert(result@ + redact(text@, prefix@) == redact(text@, prefix@));
    while start < chars.len()
        invariant
            chars@ == text@,
            pattern@ == prefix@,
            prefix@.len() > 0,
            start <= chars@.len(),
            result@ + redact(text@.skip(start as int), prefix@) == redact(text@, prefix@),
        decreases chars@.len() - start,
    {
        let rest = slice_subrange(chars.as_slice(), start, chars.len());
        assert(rest@ == text@.skip(start as int));
        let ghost before = result@;
        match find_chars(rest, pattern.as_slice()) {
            Some(at) => {
                let head = string_of(slice_subrange(rest, 0, at));
                assert(head@ == rest@.take(at as int));
                result.append(head.as_str());
                result.append("[redacted]");
                let behind: usize = at + pattern.len();
                let tail = slice_subrange(rest, behind, rest.len());
                assert(tail@ == rest@.skip(behind as int));
                let end: usize = behind + secret_run(tail);
                assert(end == secret_bound(rest@, prefix@, at as int));
                assert(rest@.skip(end as int) == text@.skip(start + end));
                assert(result@ + redact(text@.skip(start + end), prefix@) == before + redact(
                    rest@,
                    prefix@,
                ));
                start = start + end;
            },
            None => {
                let tail = string_of(rest);
                result.append(tail.as_str());
                assert(text@.skip(text@.len() as int) == Seq::<char>::empty());
                proof {
                    lemma_find(Seq::<char>::empty(), prefix@);
                    assert(!occurs(Seq::<char>::empty(), prefix@));
                }
                assert(result@ + Seq::<char>::empty() == before + redact(rest@, prefix@));
                start = chars.len();
            },
        }
    }
    proof {
        assert(text@.skip(start as int) == Seq::<char>::empty());
        lemma_find(Seq::<char>::empty(), prefix@);
        assert(!occurs(Seq::<char>::empty(), prefix@));
        assert(result@ + Seq::<char>::empty() == result@);
    }
    result
}

/// A log line of at most 4096 characters in which every key and every token of GitHub is replaced.
pub fn scrub_log_line(line: &str) -> (scrubbed: String)
    ensures
        scrubbed@ == scrub(line@),
{
    let chars = chars_of(line);
    let bound: usize = if chars.len() <= 4096 {
        chars.len()
    } else {
        4096
    };
    let clip = string_of(slice_subrange(chars.as_slice(), 0, bound));
    assert(clip@ == clipped(line@));
    proof {
        lemma_prefixes();
        reveal_with_fuel(redact_all, 8);
        let all = secret_prefixes();
        assert(all.drop_last().drop_last().drop_last().drop_last().drop_last().drop_last().drop_last()
            =~= Seq::<Seq<char>>::empty());
    }
    let board = redacted(clip.as_str(), "board_");
    let personal = redacted(board.as_str(), "ghp_");
    let fine_grained = redacted(personal.as_str(), "github_pat_");
    let oauth = redacted(fine_grained.as_str(), "gho_");
    let user = redacted(oauth.as_str(), "ghu_");
    let server = redacted(user.as_str(), "ghs_");
    redacted(server.as_str(), "ghr_")
}

/// A prefix that the replacement text cannot be part of.
spec fn plain_prefix(prefix: Seq<char>) -> bool {
    &&& prefix.len() > 0
    &&& prefix.last() == '_'
    &&& forall|k: int| 0 <= k < prefix.len() ==> #[trigger] prefix[k] != '[' && prefix[k] != ']'
}

proof fn lemma_prefixes()
    ensures
        secret_prefixes().len() == 7,
        forall|i: int| 0 <= i < 7 ==> plain_prefix(#[trigger] secret_prefixes()[i]),
{
    reveal_strlit("board_");
    reveal_strlit("ghp_");
    reveal_strlit("github_pat_");
    reveal_strlit("gho_");
    reveal_strlit("ghu_");
    reveal_strlit("ghs_");
    reveal_strlit("ghr_");
}

/// Where something stands in a part of a text, it stands in the text.
proof fn lemma_part(text: Seq<char>, from: int, to: int, pattern: Seq<char>, at: int)
    requires
        0 <= from <= to <= text.len(),
        occurs_at(text.subrange(from, to), pattern, at),
    ensures
        occurs_at(text, pattern, from + at),
{
    assert(text.subrange(from, to).subrange(at, at + pattern.len()) == text.subrange(
        from + at,
        from + at + pattern.len(),
    ));
}

/// The replacement text makes no prefix of what stands around it.
proof fn lemma_around(before: Seq<char>, behind: Seq<char>, prefix: Seq<char>)
    requires
        plain_prefix(prefix),
        !occurs(before, prefix),
        !occurs(behind, prefix),
    ensures
        !occurs(before + "[redacted]"@ + behind, prefix),
{
    reveal_strlit("[redacted]");
    let mark = "[redacted]"@;
    let whole = before + mark + behind;
    let a = before.len() as int;
    let n = prefix.len() as int;
    assert forall|k: int| !occurs_at(whole, prefix, k) by {
        if occurs_at(whole, prefix, k) {
            let part = whole.subrange(k, k + n);
            assert forall|j: int| 0 <= j < n implies whole[k + j] == prefix[j] by {
                assert(part[j] == whole[k + j]);
            }
            if k + n <= a {
                assert(before.subrange(k, k + n) == part);
                assert(occurs_at(before, prefix, k));
            } else if k >= a + 10 {
                assert(behind.subrange(k - a - 10, k - a - 10 + n) == part);
                assert(occurs_at(behind, prefix, k - a - 10));
            } else if k <= a {
                assert(whole[a] == mark[0]);
                assert(prefix[a - k] == '[');
            } else if k + n >= a + 10 {
                assert(whole[a + 9] == mark[9]);
                assert(prefix[a + 9 - k] == ']');
            } else {
                assert(whole[k + n - 1] == mark[k + n - 1 - a]);
                assert(prefix.last() == prefix[n - 1]);
            }
        }
    }
}

/// Replacing the secrets of one prefix leaves none of them, and adds none of another.
proof fn lemma_redact_clean(text: Seq<char>, prefix: Seq<char>, other: Seq<char>)
    requires
        prefix.len() > 0,
        plain_prefix(other),
        prefix == other || !occurs(text, other),
    ensures
        !occurs(redact(text, prefix), other),
    decreases text.len(),
{
    lemma_find(text, prefix);
    if let Some(at) = find(text, prefix) {
        assert(first_at(text, prefix, at));
        lemma_run(text.skip(at + prefix.len()), secret_end());
        let end = secret_bound(text, prefix, at);
        let head = text.take(at);
        let tail = text.skip(end);
        assert(head == text.subrange(0, at));
        assert(tail == text.subrange(end, text.len() as int));
        assert forall|k: int| !occurs_at(head, other, k) by {
            if occurs_at(head, other, k) {
                lemma_part(text, 0, at, other, k);
                assert(occurs_at(text, other, k));
            }
        }
        if prefix != other {
            assert forall|k: int| !occurs_at(tail, other, k) by {
                if occurs_at(tail, other, k) {
                    lemma_part(text, end, text.len() as int, other, k);
                    assert(occurs_at(text, other, end + k));
                }
            }
        }
        lemma_redact_clean(tail, prefix, other);
        lemma_around(head, redact(tail, prefix), other);
    }
}

proof fn lemma_redact_all_clean(text: Seq<char>, count: int, index: int)
    requires
        0 <= index < count <= 7,
    ensures
        !occurs(redact_all(text, secret_prefixes().take(count)), secret_prefixes()[index]),
    decreases count,
{
    lemma_prefixes();
    let some = secret_prefixes().take(count);
    assert(some.drop_last() == secret_prefixes().take(count - 1));
    assert(some.last() == secret_prefixes()[count - 1]);
    if index < count - 1 {
        lemma_redact_all_clean(text, count - 1, index);
    }
    assert(plain_prefix(secret_prefixes()[index]));
    assert(plain_prefix(secret_prefixes()[count - 1]));
    lemma_redact_clean(
        redact_all(text, some.drop_last()),
        some.last(),
        secret_prefixes()[index],
    );
}

/// No scrubbed line holds the start of a key or of a token of GitHub.
pub proof fn scrubbed_lines_hold_no_secret(line: Seq<char>, index: int)
    requires
        0 <= index < secret_prefixes().len(),
    ensures
        !occurs(scrub(line), secret_prefixes()[index]),
{
    lemma_prefixes();
    lemma_redact_all_clean(clipped(line), 7, index);
    assert(secret_prefixes().take(7) == secret_prefixes());
}

proof fn lemma_nothing_to_redact(text: Seq<char>, prefixes: Seq<Seq<char>>)
    requires
        forall|i: int| 0 <= i < prefixes.len() ==> !occurs(text, #[trigger] prefixes[i]),
    ensures
        redact_all(text, prefixes) == text,
    decreases prefixes.len(),
{
    if prefixes.len() > 0 {
        assert forall|i: int| 0 <= i < prefixes.drop_last().len() implies !occurs(
            text,
            #[trigger] prefixes.drop_last()[i],
        ) by {
            assert(prefixes.drop_last()[i] == prefixes[i]);
        }
        lemma_nothing_to_redact(text, prefixes.drop_last());
        assert(!occurs(text, prefixes[prefixes.len() - 1]));
        lemma_find(text, prefixes.last());
    }
}

/// A line without secrets is only cut to its first 4096 characters.
pub proof fn lines_without_secrets_stay(line: Seq<char>)
    requires
        forall|i: int|
            0 <= i < secret_prefixes().len() ==> !occurs(line, #[trigger] secret_prefixes()[i]),
    ensures
        scrub(line) == clipped(line),
{
    let clip = clipped(line);
    assert(clip == line.subrange(0, clip.len() as int));
    assert forall|i: int| 0 <= i < secret_prefixes().len() implies !occurs(
        clip,
        #[trigger] secret_prefixes()[i],
    ) by {
        let prefix = secret_prefixes()[i];
        assert forall|k: int| !occurs_at(clip, prefix, k) by {
            if occurs_at(clip, prefix, k) {
                lemma_part(line, 0, clip.len() as int, prefix, k);
                assert(occurs_at(line, prefix, k));
            }
        }
    }
    lemma_nothing_to_redact(clip, secret_prefixes());
}

/// Scrubbing a scrubbed line again changes nothing but its length, where that is above 4096.
pub proof fn scrubbing_twice_is_scrubbing_once(line: Seq<char>)
    ensures
        scrub(scrub(line)) == clipped(scrub(line)),
{
    assert forall|i: int| 0 <= i < secret_prefixes().len() implies !occurs(
        scrub(line),
        #[trigger] secret_prefixes()[i],
    ) by {
        scrubbed_lines_hold_no_secret(line, i);
    }
    lines_without_secrets_stay(scrub(line));
}

/// The starts of secrets are those of the service's own keys and of the six kinds of GitHub's
/// tokens; a secret ends at white space, a quote, a comma or a closing brace.
pub proof fn secrets_are_known_by_their_starts(character: char)
    ensures
        secret_prefixes().contains("board_"@),
        secret_prefixes().contains("ghp_"@),
        secret_prefixes().contains("github_pat_"@),
        secret_prefixes().contains("gho_"@),
        secret_prefixes().contains("ghu_"@),
        secret_prefixes().contains("ghs_"@),
        secret_prefixes().contains("ghr_"@),
        secret_prefixes().len() == 7,
        ends_secret(character) <==> is_space(character) || character == '\'' || character == '"'
            || character == ',' || character == '}',
{
    let all = secret_prefixes();
    assert(all[0] == "board_"@ && all[1] == "ghp_"@ && all[2] == "github_pat_"@ && all[3]
        == "gho_"@ && all[4] == "ghu_"@ && all[5] == "ghs_"@ && all[6] == "ghr_"@);
}

/// A secret is replaced as a whole and alone: what stands before it stays, all of it up to the
/// character that ends it goes, and what stands behind is treated the same way.
pub proof fn only_the_secret_is_replaced(
    before: Seq<char>,
    prefix: Seq<char>,
    secret: Seq<char>,
    behind: Seq<char>,
)
    requires
        prefix.len() > 0,
        first_at(before + prefix + secret + behind, prefix, before.len() as int),
        forall|k: int| 0 <= k < secret.len() ==> !ends_secret(#[trigger] secret[k]),
        behind.len() > 0 ==> ends_secret(behind[0]),
    ensures
        redact(before + prefix + secret + behind, prefix) == before + "[redacted]"@ + redact(
            behind,
            prefix,
        ),
{
    let text = before + prefix + secret + behind;
    let at = before.len() as int;
    lemma_find(text, prefix);
    let tail = text.skip(at + prefix.len());
    assert(tail == secret + behind);
    lemma_run(tail, secret_end());
    assert(is_run(tail, secret_end(), secret.len() as int)) by {
        assert forall|k: int| 0 <= k < secret.len() implies !secret_end()(#[trigger] tail[k]) by {
            assert(tail[k] == secret[k]);
        }
        if behind.len() > 0 {
            assert(tail[secret.len() as int] == behind[0]);
        }
    }
    assert(secret_bound(text, prefix, at) == at + prefix.len() + secret.len());
    assert(text.take(at) == before);
    assert(text.skip(at + prefix.len() + secret.len()) == behind);
}

/// A line is cut after 4096 characters and nowhere else.
pub proof fn lines_are_cut_at_their_limit(line: Seq<char>)
    ensures
        line.len() <= 4096 ==> clipped(line) == line,
        line.len() > 4096 ==> clipped(line).len() == 4096,
        forall|k: int| 0 <= k < clipped(line).len() ==> #[trigger] clipped(line)[k] == line[k],
{
}

/// Seconds since 1970 are told as they are; a clock that is set before counts as zero.
pub proof fn seconds_are_told_as_they_are(seconds: u64)
    ensures
        seconds <= i64::MAX ==> epoch_of(Some(seconds)) == seconds,
        epoch_of(None) == 0,
{
}

/// A time is told in the format of RFC 3339 where that reaches it, else as a number of seconds.
pub proof fn times_are_told_in_one_format(instant: int, epoch: int)
    ensures
        rfc3339_text(instant) matches Some(text) ==> instant_text(instant, epoch) == text,
        rfc3339_text(instant) is None && epoch >= 0 ==> instant_text(instant, epoch)
            == crate::text::decimal(epoch as nat).push('Z'),
{
}

proof fn lemma_one_kind(text: Seq<char>, index: int, count: int)
    requires
        0 <= index < 7,
        0 <= count <= 7,
        forall|i: int|
            0 <= i < 7 && i != index ==> !occurs(text, #[trigger] secret_prefixes()[i]),
    ensures
        redact_all(text, secret_prefixes().take(count)) == if index < count {
            redact(text, secret_prefixes()[index])
        } else {
            text
        },
    decreases count,
{
    lemma_prefixes();
    let all = secret_prefixes();
    if count > 0 {
        let some = all.take(count);
        let last = count - 1;
        assert(some.drop_last() == all.take(last));
        assert(some.last() == all[last]);
        lemma_one_kind(text, index, last);
        if last != index {
            assert(!occurs(text, all[last]));
            lemma_find(text, all[last]);
            assert(plain_prefix(all[last]));
            assert(plain_prefix(all[index]));
            lemma_redact_clean(text, all[index], all[last]);
            lemma_find(redact(text, all[index]), all[last]);
        }
    }
}

/// In a line that holds secrets of one kind alone, these are replaced and nothing else happens to
/// it.
pub proof fn a_line_loses_its_secrets_alone(line: Seq<char>, index: int)
    requires
        0 <= index < secret_prefixes().len(),
        line.len() <= 4096,
        forall|i: int|
            0 <= i < secret_prefixes().len() && i != index ==> !occurs(
                line,
                #[trigger] secret_prefixes()[i],
            ),
    ensures
        scrub(line) == redact(line, secret_prefixes()[index]),
{
    lemma_prefixes();
    lemma_one_kind(line, index, 7);
    assert(secret_prefixes().take(7) == secret_prefixes());
}

/// The present is told by an instant that can be represented, and reading it gives the instant back
/// where the format reaches it.
pub proof fn the_present_is_told_as_an_instant(text: String)
    requires
        call_ensures(iso_now, (), text),
    ensures
        exists|instant: int|
            FIRST_INSTANT <= instant <= LAST_INSTANT && (#[trigger] rfc3339_text(instant) == Some(
                text@,
            ) || rfc3339_text(instant) is None && text@.len() > 0 && text@.last() == 'Z') && (
            YEAR_ZERO <= instant ==> rfc3339_instant(text@) == Some(instant)),
{
    let (instant, epoch) = choose|instant: int, epoch: int|
        FIRST_INSTANT <= instant <= LAST_INSTANT && #[trigger] names_instant(text@, instant, epoch);
    assert(rfc3339_text(instant) == Some(text@) || rfc3339_text(instant) is None);
}

} // verus!
