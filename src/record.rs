use vstd::prelude::*;
use crate::external::{json_quoted, json_string, utc_second_text, utc_text};

verus! {

/// Severity of an event.
#[derive(Clone, Copy, Debug, PartialEq, Eq, Structural)]
pub enum Level {
    Trace,
    Debug,
    Info,
    Warn,
    Error,
}

pub open spec fn level_text(l: Level) -> Seq<char> {
    match l {
        Level::Trace => "TRACE"@,
        Level::Debug => "DEBUG"@,
        Level::Info => "INFO"@,
        Level::Warn => "WARN"@,
        Level::Error => "ERROR"@,
    }
}

impl Level {
    /// The display form of the level.
    pub fn as_str(&self) -> (r: &'static str)
        ensures
            r@ == level_text(*self),
    {
        match self {
            Level::Trace => "TRACE",
            Level::Debug => "DEBUG",
            Level::Info => "INFO",
            Level::Warn => "WARN",
            Level::Error => "ERROR",
        }
    }
}

pub open spec fn digit_text(d: nat) -> Seq<char> {
    if d == 0 { "0"@ } else if d == 1 { "1"@ } else if d == 2 { "2"@ } else if d == 3 { "3"@ }
    else if d == 4 { "4"@ } else if d == 5 { "5"@ } else if d == 6 { "6"@ } else if d == 7 { "7"@ }
    else if d == 8 { "8"@ } else { "9"@ }
}

/// Decimal text of a natural number, without leading zeros.
pub open spec fn decimal_text(n: nat) -> Seq<char>
    decreases n,
{
    if n < 10 {
        digit_text(n)
    } else {
        decimal_text(n / 10) + digit_text(n % 10)
    }
}

fn digit_str(d: u64) -> (r: &'static str)
    requires
        d < 10,
    ensures
        r@ == digit_text(d as nat),
{
    if d == 0 { "0" } else if d == 1 { "1" } else if d == 2 { "2" } else if d == 3 { "3" }
    else if d == 4 { "4" } else if d == 5 { "5" } else if d == 6 { "6" } else if d == 7 { "7" }
    else if d == 8 { "8" } else { "9" }
}

/// Appends the decimal text of `n`.
pub fn push_decimal(out: &mut String, n: u64)
    ensures
        final(out)@ == old(out)@ + decimal_text(n as nat),
    decreases n,
{
    if n >= 10 {
        push_decimal(out, n / 10);
    }
    out.append(digit_str(n % 10));
    proof {
        if n >= 10 {
            assert(final(out)@ =~= old(out)@ + decimal_text(n as nat));
        } else {
            assert(final(out)@ =~= old(out)@ + decimal_text(n as nat));
        }
    }
}

/// The `,"key":N` segment of an id, empty when the id is unset.
pub open spec fn id_segment(key: Seq<char>, id: Option<u64>) -> Seq<char> {
    match id {
        Some(x) => key + decimal_text(x as nat),
        None => Seq::empty(),
    }
}

/// One JSON line, from the quoted forms of the message and the time text.
pub open spec fn line_text(
    level: Level,
    message_json: Seq<char>,
    trace_id: Option<u64>,
    span_id: Option<u64>,
    timestamp: u64,
    ts_json: Seq<char>,
) -> Seq<char> {
    "{\"level\":\""@ + level_text(level) + "\",\"message\":"@ + message_json
        + id_segment(",\"dd.trace_id\":"@, trace_id) + id_segment(",\"dd.span_id\":"@, span_id)
        + ",\"timestamp\":"@ + decimal_text(timestamp as nat) + ",\"ts\":"@ + ts_json + "}\n"@
}

/// A structured record of one event.
#[derive(Clone, Debug, PartialEq, Eq)]
pub struct LogEntry {
    pub level: Level,
    pub message: String,
    pub trace_id: Option<u64>,
    pub span_id: Option<u64>,
    /// Milliseconds since the epoch.
    pub timestamp: u64,
    /// The same instant as calendar text of its second.
    pub ts: String,
}

/// The line of an entry whose text fields were serialised as given.
pub open spec fn entry_line(e: LogEntry) -> Seq<char> {
    line_text(e.level, json_quoted(e.message@), e.trace_id, e.span_id, e.timestamp,
        json_quoted(e.ts@))
}

/// Last millisecond of the year 9999: later instants have no four-digit year.
pub const LAST_MILLIS_OF_YEAR_9999: u64 = 253_402_300_799_999;

/// The second that a millisecond instant falls in.
pub open spec fn second_of(millis: u64) -> int {
    millis as int / 1000
}

impl LogEntry {
    /// An entry at instant `timestamp` (milliseconds since the epoch), with an
    /// empty message and no ids. Both time fields come from that one instant.
    /// Always an entry up to the end of the year 9999; `None` only when the
    /// calendar text of that second cannot be had.
    pub fn new(level: Level, timestamp: u64) -> (r: Option<LogEntry>)
        ensures
            timestamp <= LAST_MILLIS_OF_YEAR_9999 ==> r is Some,
            r is Some ==> ({
                let e = r.unwrap();
                &&& e.level == level
                &&& e.message@.len() == 0
                &&& e.trace_id is None
                &&& e.span_id is None
                &&& e.timestamp == timestamp
                &&& e.ts@ == utc_text(second_of(timestamp))
            }),
    {
        let secs = (timestamp / 1000) as i64;
        match utc_second_text(secs) {
            Some(ts) => Some(
                LogEntry { level, message: String::new(), trace_id: None, span_id: None, timestamp, ts },
            ),
            None => None,
        }
    }
}

fn push_id(out: &mut String, key: &str, id: Option<u64>)
    ensures
        final(out)@ == old(out)@ + id_segment(key@, id),
{
    if let Some(x) = id {
        out.append(key);
        push_decimal(out, x);
        assert(final(out)@ =~= old(out)@ + id_segment(key@, id));
    } else {
        assert(final(out)@ =~= old(out)@ + id_segment(key@, id));
    }
}

/// Frames a line from the entry and the JSON string literals of its message
/// and its time text.
pub fn json_line(entry: &LogEntry, message_json: &String, ts_json: &String) -> (r: String)
    ensures
        r@ == line_text(entry.level, message_json@, entry.trace_id, entry.span_id,
            entry.timestamp, ts_json@),
{
    let mut out = String::new();
    out.append("{\"level\":\"");
    out.append(entry.level.as_str());
    out.append("\",\"message\":");
    out.append(message_json.as_str());
    push_id(&mut out, ",\"dd.trace_id\":", entry.trace_id);
    push_id(&mut out, ",\"dd.span_id\":", entry.span_id);
    out.append(",\"timestamp\":");
    push_decimal(&mut out, entry.timestamp);
    out.append(",\"ts\":");
    out.append(ts_json.as_str());
    out.append("}\n");
    assert(out@ =~= line_text(entry.level, message_json@, entry.trace_id, entry.span_id,
        entry.timestamp, ts_json@));
    out
}

/// Serialises an entry as one newline-terminated JSON line.
pub fn to_json_line(entry: &LogEntry) -> (r: String)
    ensures
        r@ == entry_line(*entry),
{
    let message_json = json_string(entry.message.as_str()).unwrap();
    let ts_json = json_string(entry.ts.as_str()).unwrap();
    json_line(entry, &message_json, &ts_json)
}

} // verus!
