//! The in-memory event log shown to the user: how long it grows, which lines
//! a search keeps, and how each line is marked.

use vstd::prelude::*;
use vstd::string::StringSliceAdditionalSpecFns;
use crate::text::{contains, contains_key, occurs_at, starts_with_key};

verus! {

/// How a log line is shown.
#[derive(Clone, Copy, Debug, PartialEq, Eq, Structural)]
pub enum LogTone {
    Error,
    Warning,
    Plain,
}

/// The last `max` entries of `s`, or all of them where there are fewer.
pub open spec fn keep_last<T>(s: Seq<T>, max: nat) -> Seq<T> {
    if s.len() > max {
        s.subrange(s.len() - max, s.len() as int)
    } else {
        s
    }
}

/// Appends `line` to the log and drops the oldest entries beyond `max`.
pub fn push_bounded(lines: &mut Vec<String>, line: String, max: usize)
    ensures
        final(lines)@ == keep_last(old(lines)@.push(line), max as nat),
{
    lines.push(line);
    if lines.len() > max {
        let overflow = lines.len() - max;
        let kept = lines.split_off(overflow);
        *lines = kept;
    }
}

/// The lowercase form of a text, as Unicode defines it.
pub uninterp spec fn lower_of(s: Seq<char>) -> Seq<char>;

/// Relies on `str::to_lowercase`: the lowercase form of each character, which
/// depends on the characters alone.
#[verifier::external_body]
fn lowercase(s: &str) -> (r: String)
    ensures
        r@ == lower_of(s@),
{
    s.to_lowercase()
}

/// Whether `line` passes the search `filter`: an empty filter passes every
/// line, any other must occur in the line once both are in lowercase.
pub open spec fn passes_filter(line: Seq<char>, filter: Seq<char>) -> bool {
    filter.len() == 0 || contains_key(
        vstd::utf8::encode_utf8(lower_of(line)),
        vstd::utf8::encode_utf8(lower_of(filter)),
    )
}

/// Whether the lowercase filter occurs in the lowercase line.
pub fn matches_folded(lower_line: &str, lower_filter: &str) -> (r: bool)
    ensures
        r == contains_key(lower_line.spec_bytes(), lower_filter.spec_bytes()),
{
    contains(lower_line.as_bytes(), lower_filter.as_bytes())
}

/// Whether `line` passes the search `filter`, case aside.
pub fn matches_filter(line: &str, filter: &str) -> (r: bool)
    ensures
        r == passes_filter(line@, filter@),
{
    if filter.is_empty() {
        return true;
    }
    let l = lowercase(line);
    let f = lowercase(filter);
    matches_folded(l.as_str(), f.as_str())
}

/// A line that mentions `ERROR` is an error, else one that mentions `WARN` a
/// warning.
pub open spec fn tone_of(line: Seq<u8>) -> LogTone {
    if contains_key(line, "ERROR".spec_bytes()) {
        LogTone::Error
    } else if contains_key(line, "WARN".spec_bytes()) {
        LogTone::Warning
    } else {
        LogTone::Plain
    }
}

pub fn log_tone(line: &str) -> (r: LogTone)
    ensures
        r == tone_of(line.spec_bytes()),
{
    let b = line.as_bytes();
    if contains(b, "ERROR".as_bytes()) {
        LogTone::Error
    } else if contains(b, "WARN".as_bytes()) {
        LogTone::Warning
    } else {
        LogTone::Plain
    }
}

/// Whether a line reports a failure of the connection: it starts with `[ERROR]`.
pub fn is_error_report(line: &str) -> (r: bool)
    ensures
        r == occurs_at(line.spec_bytes(), "[ERROR]".spec_bytes(), 0),
{
    starts_with_key(line.as_bytes(), "[ERROR]".as_bytes())
}

} // verus!
