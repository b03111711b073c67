use vstd::prelude::*;

verus! {

/// Last second of the year 9999, the last with a four-digit year.
pub const LAST_SECOND_OF_YEAR_9999: i64 = 253_402_300_799;

/// The UTC calendar text `YYYY-MM-DDTHH:MM:SSZ` of a whole second since the epoch.
pub uninterp spec fn utc_text(secs: int) -> Seq<char>;

pub open spec fn hex_digit(d: int) -> char {
    seq!['0', '1', '2', '3', '4', '5', '6', '7', '8', '9', 'a', 'b', 'c', 'd', 'e', 'f'][d]
}

/// How one character stands inside a JSON string literal: quote, backslash
/// and control characters are escaped, everything else is copied.
pub open spec fn escaped_char(c: char) -> Seq<char> {
    if c == '"' {
        seq!['\\', '"']
    } else if c == '\\' {
        seq!['\\', '\\']
    } else if c == '\x08' {
        seq!['\\', 'b']
    } else if c == '\t' {
        seq!['\\', 't']
    } else if c == '\n' {
        seq!['\\', 'n']
    } else if c == '\x0C' {
        seq!['\\', 'f']
    } else if c == '\r' {
        seq!['\\', 'r']
    } else if (c as u32) < 0x20 {
        seq!['\\', 'u', '0', '0', hex_digit((c as u32) as int / 16), hex_digit((c as u32) as int % 16)]
    } else {
        seq![c]
    }
}

pub open spec fn escaped(s: Seq<char>) -> Seq<char>
    decreases s.len(),
{
    if s.len() == 0 {
        Seq::empty()
    } else {
        escaped(s.drop_last()) + escaped_char(s.last())
    }
}

/// The JSON string literal of a text: quotes around its escaped characters.
pub open spec fn json_quoted(s: Seq<char>) -> Seq<char> {
    seq!['"'] + escaped(s) + seq!['"']
}

/// Relies on chrono's `DateTime::<Utc>::from_timestamp` and `format` with
/// `%Y-%m-%dT%H:%M:%SZ`: the calendar text of that second. `from_timestamp`
/// fails only for seconds far outside the years 0 to 9999.
#[verifier::external_body]
pub(crate) fn utc_second_text(secs: i64) -> (r: Option<String>)
    ensures
        0 <= secs <= LAST_SECOND_OF_YEAR_9999 ==> r is Some,
        r is Some ==> r.unwrap()@ == utc_text(secs as int),
{
    match chrono::DateTime::<chrono::Utc>::from_timestamp(secs, 0) {
        Some(t) => Some(t.format("%Y-%m-%dT%H:%M:%SZ").to_string()),
        None => None,
    }
}

/// Relies on `serde_json::to_string` on a `str`: quoting a `str` into a buffer
/// never fails, and escapes by the table of `format_escaped_str_contents`.
#[verifier::external_body]
pub(crate) fn json_string(s: &str) -> (r: Option<String>)
    ensures
        r is Some,
        r.unwrap()@ == json_quoted(s@),
{
    serde_json::to_string(s).ok()
}

} // verus!
