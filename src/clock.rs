//! The wall clock, read through chrono.

use vstd::prelude::*;

verus! {

/// Relies on chrono's `Local::now` and `DateTime::format`: the local date and
/// time as "YYYY-MM-DD hh:mm:ss". It depends on the moment and on the machine's
/// time zone, so nothing is stated of it.
#[verifier::external_body]
pub(crate) fn local_timestamp() -> (r: String) {
    chrono::Local::now().format("%Y-%m-%d %H:%M:%S").to_string()
}

} // verus!
