//! How a line is written to the daily log: most lines get the time of day in
//! front; titles, rules and system notices stand alone.

use vstd::prelude::*;
use vstd::string::{StringExecFns, StringSliceAdditionalSpecFns};
use crate::text::{contains, contains_key};

verus! {

/// A line that is written without a time: an empty one, one that starts with
/// `*`, `-` or `=`, or one that mentions `SYSTEM`.
pub open spec fn is_bare_record(content: Seq<u8>) -> bool {
    ||| content.len() == 0
    ||| content[0] == 42
    ||| content[0] == 45
    ||| content[0] == 61
    ||| contains_key(content, "SYSTEM".spec_bytes())
}

/// The record for `content`, with `time` in front unless it is a bare record,
/// ended by CR LF.
pub open spec fn record_text(content: &str, time: &str) -> Seq<char> {
    if is_bare_record(content.spec_bytes()) {
        content@ + "\r\n"@
    } else {
        "["@ + time@ + "] "@ + content@ + "\r\n"@
    }
}

/// Whether `content` is written without a time.
pub fn is_bare(content: &str) -> (r: bool)
    ensures
        r == is_bare_record(content.spec_bytes()),
{
    let b = content.as_bytes();
    b.len() == 0 || b[0] == 42 || b[0] == 45 || b[0] == 61 || contains(b, "SYSTEM".as_bytes())
}

/// The text written to the log for `content`, read at the time of day `time`.
pub fn format_log_line(content: &str, time: &str) -> (r: String)
    ensures
        r@ == record_text(content, time),
{
    if is_bare(content) {
        let mut r = content.to_owned();
        r.append("\r\n");
        r
    } else {
        let mut r = "[".to_owned();
        r.append(time);
        r.append("] ");
        r.append(content);
        r.append("\r\n");
        r
    }
}

} // verus!
