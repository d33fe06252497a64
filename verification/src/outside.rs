//! Calls into other crates. The contracts here are what the rest of the library relies on
//! without proof; everything else is proved from them.
use crate::text::lower;
use qrcode::render::unicode::Dense1x2;
use qrcode::QrCode;
use sha2::{Digest, Sha256};
use time::format_description::well_known::Rfc3339;
use time::{Date, OffsetDateTime, PrimitiveDateTime, Time};
use time_tz::{timezones, OffsetDateTimeExt, OffsetResult, PrimitiveDateTimeExt};
use uuid::Uuid;
use vstd::prelude::*;

verus! {

// ---------------------------------------------------------------------------------------------
// The clock
// ---------------------------------------------------------------------------------------------

/// The first instant that `time` can represent, in nanoseconds since 1970-01-01T00:00:00Z: the
/// start of the year -9999.
pub const FIRST_INSTANT: i128 = -377_705_116_800_000_000_000;

/// The last instant that `time` can represent: the last nanosecond of the year 9999.
pub const LAST_INSTANT: i128 = 253_402_300_799_999_999_999;

/// The first instant of the year 0.
pub const YEAR_ZERO: i128 = -62_167_219_200_000_000_000;

/// The largest distance between local time and UTC, 25:59:59, in nanoseconds.
pub const WIDEST_OFFSET: i128 = 93_599_000_000_000;

/// `SystemTime::elapsed` of `UNIX_EPOCH`: the whole seconds since 1970, or `None` where the clock
/// is set before it. Nothing is claimed of the value, which is the machine's.
#[verifier::external_body]
pub(crate) fn seconds_since_epoch() -> (seconds: Option<u64>) {
    std::time::UNIX_EPOCH.elapsed().ok().map(|elapsed| elapsed.as_secs())
}

/// `OffsetDateTime::now_utc`: the present instant. All that is claimed of it is that it is one
/// that `time` can represent.
#[verifier::external_body]
pub(crate) fn clock_instant() -> (instant: i128)
    ensures
        FIRST_INSTANT <= instant <= LAST_INSTANT,
{
    OffsetDateTime::now_utc().unix_timestamp_nanos()
}

/// The instant that a text in the format of RFC 3339 names, in nanoseconds since 1970, as
/// `OffsetDateTime::parse` reads it.
pub uninterp spec fn rfc3339_instant(text: Seq<char>) -> Option<int>;

/// `OffsetDateTime::parse` with `Rfc3339`: the instant that the text names, or `None` where it is
/// not in that format.
#[verifier::external_body]
pub(crate) fn parse_rfc3339(text: &str) -> (instant: Option<i128>)
    ensures
        match instant {
            Some(instant) => rfc3339_instant(text@) == Some(instant as int),
            None => rfc3339_instant(text@) is None,
        },
{
    OffsetDateTime::parse(text, &Rfc3339).ok().map(|value| value.unix_timestamp_nanos())
}

/// An instant in UTC as `OffsetDateTime::format` writes it in the format of RFC 3339.
pub uninterp spec fn rfc3339_text(instant: int) -> Option<Seq<char>>;

/// `OffsetDateTime::format` with `Rfc3339`, in UTC. There is a text exactly for the instants of
/// the years 0 to 9999, and reading it gives the instant back.
#[verifier::external_body]
pub(crate) fn format_rfc3339(instant: i128) -> (text: Option<String>)
    ensures
        text is Some <==> YEAR_ZERO <= instant <= LAST_INSTANT,
        match text {
            Some(text) => rfc3339_text(instant as int) == Some(text@) && rfc3339_instant(text@)
                == Some(instant as int),
            None => rfc3339_text(instant as int) is None,
        },
{
    OffsetDateTime::from_unix_timestamp_nanos(instant).ok()?.format(&Rfc3339).ok()
}

// ---------------------------------------------------------------------------------------------
// Local time
// ---------------------------------------------------------------------------------------------

/// What a clock in a time zone shows at an instant: the Julian day and the hour of that day.
/// `None` where no zone has that name.
pub uninterp spec fn local_reading(zone: Seq<char>, instant: int) -> Option<(int, int)>;

/// `OffsetDateTimeExt::to_timezone` in the zone that `timezones::get_by_name` finds: the local
/// Julian day and hour at an instant. The hour is below 24. Instants whose local time could fall
/// outside what `time` represents are left out, since the conversion panics there.
#[verifier::external_body]
pub(crate) fn local_day_and_hour(zone: &str, instant: i128) -> (reading: Option<(i32, u8)>)
    requires
        FIRST_INSTANT + WIDEST_OFFSET <= instant <= LAST_INSTANT - WIDEST_OFFSET,
    ensures
        match reading {
            Some((day, hour)) => local_reading(zone@, instant as int) == Some(
                (day as int, hour as int),
            ) && hour < 24,
            None => local_reading(zone@, instant as int) is None,
        },
{
    let zone = timezones::get_by_name(zone)?;
    let local = OffsetDateTime::from_unix_timestamp_nanos(instant).ok()?.to_timezone(zone);
    Some((local.to_julian_day(), local.hour()))
}

/// The instants, in seconds since 1970, at which a clock in a time zone shows a full hour of a
/// Julian day: the earlier first where it shows it twice, none where the clock skips it. `None`
/// where no zone has that name or the calendar does not reach that far.
pub uninterp spec fn local_occurrences(zone: Seq<char>, day: int, hour: int) -> Option<Seq<int>>;

/// How often a local time occurs, and when.
pub enum Occurrence {
    Never,
    Once(i64),
    Twice(i64, i64),
}

impl Occurrence {
    /// The instants at which the local time occurs.
    pub open spec fn instants(self) -> Seq<int> {
        match self {
            Occurrence::Never => seq![],
            Occurrence::Once(only) => seq![only as int],
            Occurrence::Twice(first, second) => seq![first as int, second as int],
        }
    }
}

/// `PrimitiveDateTimeExt::assume_timezone` in the zone that `timezones::get_by_name` finds: when
/// the clock there shows the full hour of that day.
#[verifier::external_body]
pub(crate) fn occurrences_of_hour(zone: &str, day: i32, hour: u8) -> (found: Option<Occurrence>)
    requires
        hour < 24,
    ensures
        match found {
            Some(found) => local_occurrences(zone@, day as int, hour as int) == Some(
                found.instants(),
            ),
            None => local_occurrences(zone@, day as int, hour as int) is None,
        },
{
    let zone = timezones::get_by_name(zone)?;
    let date = Date::from_julian_day(day).ok()?;
    let time = Time::from_hms(hour, 0, 0).ok()?;
    Some(match PrimitiveDateTime::new(date, time).assume_timezone(zone) {
        OffsetResult::None => Occurrence::Never,
        OffsetResult::Some(only) => Occurrence::Once(only.unix_timestamp()),
        OffsetResult::Ambiguous(first, second) => {
            Occurrence::Twice(first.unix_timestamp(), second.unix_timestamp())
        },
    })
}

// ---------------------------------------------------------------------------------------------
// Identifiers
// ---------------------------------------------------------------------------------------------

/// The lower-case hexadecimal digit for a number below sixteen.
pub open spec fn hex_digit(value: int) -> char {
    if value < 10 {
        (('0' as u32) + value) as char
    } else {
        (('a' as u32) + value - 10) as char
    }
}

/// Four of the 128 bits of an identifier, counted from the most significant.
pub open spec fn nibble(value: u128, index: int) -> int {
    ((value >> ((4 * (31 - index)) as u128)) & 0xf) as int
}

/// A random identifier: the version digit says 4, and the variant digit says RFC 4122.
pub open spec fn is_random_id(value: u128) -> bool {
    nibble(value, 12) == 4 && 8 <= nibble(value, 16) <= 11
}

/// The 32 hexadecimal digits of an identifier.
pub open spec fn uuid_digits(value: u128) -> Seq<char> {
    Seq::new(32, |index: int| hex_digit(nibble(value, index)))
}

/// An identifier in groups of 8, 4, 4, 4 and 12 digits.
pub open spec fn hyphenated(value: u128) -> Seq<char> {
    let digits = uuid_digits(value);
    digits.subrange(0, 8) + seq!['-'] + digits.subrange(8, 12) + seq!['-'] + digits.subrange(12, 16)
        + seq!['-'] + digits.subrange(16, 20) + seq!['-'] + digits.subrange(20, 32)
}

/// `text` is one of the spellings of an identifier: digits alone, in groups, in groups within
/// braces, or in groups behind `urn:uuid:`, in any letter case.
pub open spec fn spells_uuid(text: Seq<char>, value: u128) -> bool {
    let text = lower(text);
    ||| text == uuid_digits(value)
    ||| text == hyphenated(value)
    ||| text == seq!['{'] + hyphenated(value) + seq!['}']
    ||| text == "urn:uuid:"@ + hyphenated(value)
}

/// `Uuid::parse_str`: the identifier that a text spells, in any of the four spellings.
#[verifier::external_body]
pub(crate) fn parse_uuid(text: &str) -> (found: Option<u128>)
    ensures
        match found {
            Some(value) => spells_uuid(text@, value),
            None => forall|value: u128| !spells_uuid(text@, value),
        },
{
    Uuid::parse_str(text).ok().map(|uuid| uuid.as_u128())
}

/// `Uuid`'s `Display`: an identifier in groups of lower-case digits.
#[verifier::external_body]
pub(crate) fn uuid_text(value: u128) -> (text: String)
    ensures
        text@ == hyphenated(value),
{
    Uuid::from_u128(value).to_string()
}

/// `Uuid::new_v4`: a random identifier. The version bits say 4 and the variant bits say RFC 4122;
/// nothing is claimed of the rest.
#[verifier::external_body]
pub(crate) fn random_uuid() -> (value: u128)
    ensures
        nibble(value, 12) == 4,
        8 <= nibble(value, 16) <= 11,
{
    Uuid::new_v4().as_u128()
}

// ---------------------------------------------------------------------------------------------
// Hashing, QR codes and JSON
// ---------------------------------------------------------------------------------------------

/// The SHA-256 digest of a sequence of bytes.
pub uninterp spec fn sha256(bytes: Seq<u8>) -> Seq<u8>;

/// `Sha256::digest`: the digest of the bytes, which is 32 bytes long.
#[verifier::external_body]
pub(crate) fn sha256_digest(bytes: &[u8]) -> (digest: Vec<u8>)
    ensures
        digest@ == sha256(bytes@),
        digest@.len() == 32,
{
    Sha256::digest(bytes).to_vec()
}

/// The QR code that holds a text, drawn with two modules per character, light on dark and with
/// its quiet zone; or why the text cannot be encoded.
pub uninterp spec fn qr_drawing(text: Seq<char>) -> Result<Seq<char>, Seq<char>>;

/// `QrCode::new` on the bytes of the text, and `Renderer::build` with `Dense1x2` modules whose
/// colours are swapped. The error is `QrError`'s own message.
#[verifier::external_body]
pub(crate) fn draw_qr(text: &str) -> (drawing: Result<String, String>)
    ensures
        match drawing {
            Ok(drawing) => qr_drawing(text@) == Ok::<Seq<char>, Seq<char>>(drawing@),
            Err(message) => qr_drawing(text@) == Err::<Seq<char>, Seq<char>>(message@),
        },
{
    let code = QrCode::new(text.as_bytes()).map_err(|error| error.to_string())?;
    let mut renderer = code.render::<Dense1x2>();
    renderer.dark_color(Dense1x2::Light).light_color(Dense1x2::Dark);
    Ok(renderer.quiet_zone(true).build())
}

/// The text under two nested names in a JSON document, where the document is valid and holds a
/// text there.
pub uninterp spec fn json_text(document: Seq<char>, outer: Seq<char>, inner: Seq<char>) -> Option<
    Seq<char>,
>;

/// `serde_json::from_str` to a `Value`, `Value::get` twice and `Value::as_str`.
#[verifier::external_body]
pub(crate) fn read_json_text(document: &str, outer: &str, inner: &str) -> (text: Option<String>)
    ensures
        match text {
            Some(text) => json_text(document@, outer@, inner@) == Some(text@),
            None => json_text(document@, outer@, inner@) is None,
        },
{
    let value = serde_json::from_str::<serde_json::Value>(document).ok()?;
    value.get(outer)?.get(inner)?.as_str().map(|text| text.to_string())
}

} // verus!
