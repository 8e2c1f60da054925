//! The session model and the line decoder that drives it.

use vstd::prelude::*;
use vstd::string::StringSliceAdditionalSpecFns;
use crate::clock::local_timestamp;
use crate::number::{fixed_after, fixed_literal_after, int_after, int_literal_after};
use crate::text::{
    clean_line, contains, contains_key, lemma_cleaning_keeps_key, sanitize_line, survives_cleaning,
};

verus! {

/// Digits after the point at which a `Duration` in milliseconds is read, so
/// that the result is in nanoseconds.
pub const MILLIS_TO_NANOS_DIGITS: u32 = 6;

/// Digits after the point at which an `Active Time` in seconds is read, so that
/// the result is in nanoseconds.
pub const SECONDS_TO_NANOS_DIGITS: u32 = 9;

/// Where the current active time came from.
#[derive(Clone, Copy, Debug, PartialEq, Eq, Structural)]
pub enum ActiveSource {
    /// Summed from the `Duration` of each stage report.
    Derived,
    /// Taken as the device reported it in an `Active Time` field.
    DeviceReported,
}

/// What one line changed.
#[derive(Clone, Copy, Debug, PartialEq, Eq, Structural)]
pub struct Change {
    /// The device acknowledged a reset.
    pub system_reset: bool,
    pub stage_changed: bool,
    pub active_changed: bool,
    pub total_changed: bool,
    /// The session was restored to its initial values: by a reset
    /// acknowledgement, or because the total went back.
    pub session_reset: bool,
}

/// A change with no flag set.
pub open spec fn no_change() -> Change {
    Change {
        system_reset: false,
        stage_changed: false,
        active_changed: false,
        total_changed: false,
        session_reset: false,
    }
}

impl Default for Change {
    fn default() -> (r: Change)
        ensures
            r == no_change(),
    {
        Change {
            system_reset: false,
            stage_changed: false,
            active_changed: false,
            total_changed: false,
            session_reset: false,
        }
    }
}

/// What a session holds, as plain values.
pub struct SessionModel {
    pub stage: i32,
    pub total: i32,
    /// Active time in nanoseconds.
    pub active_ns: i64,
    pub source: ActiveSource,
    /// When the total last went up.
    pub stamp: Option<Seq<char>>,
}

/// The running state of one session with the device.
#[derive(Debug, Clone)]
pub struct CoreState {
    /// The stage the device last reported.
    pub stage: i32,
    /// The pulse total the device last reported.
    pub current_total: i32,
    /// Active time in nanoseconds, summed from stage durations or as the
    /// device reported it.
    pub active_time_ns: i64,
    /// Local time at which the total last went up.
    pub last_timestamp: Option<String>,
    pub active_source: ActiveSource,
}

impl View for CoreState {
    type V = SessionModel;

    open spec fn view(&self) -> SessionModel {
        SessionModel {
            stage: self.stage,
            total: self.current_total,
            active_ns: self.active_time_ns,
            source: self.active_source,
            stamp: match self.last_timestamp {
                Some(t) => Some(t@),
                None => None,
            },
        }
    }
}

/// The state at the start of a session.
pub open spec fn initial_session() -> SessionModel {
    SessionModel { stage: 0, total: 0, active_ns: 0, source: ActiveSource::Derived, stamp: None }
}

/// The initial session, but for a total of `v`.
pub open spec fn session_holding(v: i32) -> SessionModel {
    SessionModel { total: v, ..initial_session() }
}

/// What a reset acknowledgement reports.
pub open spec fn reset_change() -> Change {
    Change { system_reset: true, session_reset: true, ..no_change() }
}

pub open spec fn reset_marker() -> Seq<u8> {
    "SYSTEM RESET OK".spec_bytes()
}

pub open spec fn live_marker() -> Seq<u8> {
    "[Live]".spec_bytes()
}

pub open spec fn live_marker_upper() -> Seq<u8> {
    "[LIVE]".spec_bytes()
}

pub open spec fn stage_key() -> Seq<u8> {
    "Stage:".spec_bytes()
}

pub open spec fn total_key() -> Seq<u8> {
    "Total:".spec_bytes()
}

pub open spec fn duration_key() -> Seq<u8> {
    "Duration".spec_bytes()
}

pub open spec fn active_time_key() -> Seq<u8> {
    "Active Time".spec_bytes()
}

pub open spec fn grand_total_key() -> Seq<u8> {
    "Grand Total".spec_bytes()
}

/// A live line carries the current stage and running total.
pub open spec fn is_live_line(line: Seq<u8>) -> bool {
    contains_key(line, live_marker()) || contains_key(line, live_marker_upper())
}

/// `a + b`, held to the range of `i64`.
pub open spec fn saturating_sum(a: i64, b: i64) -> i64 {
    if a + b > i64::MAX {
        i64::MAX
    } else if a + b < i64::MIN {
        i64::MIN
    } else {
        (a + b) as i64
    }
}

/// A reported total `v` applied to the session: a lower one starts a new
/// session that holds it, a higher one is taken with the time `now`, an equal
/// one changes nothing.
pub open spec fn apply_total(s: SessionModel, c: Change, v: i32, now: Seq<char>) -> (
    SessionModel,
    Change,
) {
    if v < s.total {
        (
            session_holding(v),
            Change { session_reset: true, total_changed: true, ..c },
        )
    } else if v > s.total {
        (SessionModel { total: v, stamp: Some(now), ..s }, Change { total_changed: true, ..c })
    } else {
        (s, c)
    }
}

/// A reported stage applied to the session.
pub open spec fn apply_stage(s: SessionModel, stage: Option<i32>) -> (SessionModel, Change) {
    match stage {
        Some(v) => if v != s.stage {
            (SessionModel { stage: v, ..s }, Change { stage_changed: true, ..no_change() })
        } else {
            (s, no_change())
        },
        None => (s, no_change()),
    }
}

/// The active-time fields of a report line applied to the session: a duration
/// in nanoseconds adds to it, failing that a device-reported active time
/// replaces it.
pub open spec fn apply_active(s: SessionModel, duration: Option<i64>, reported: Option<i64>) -> (
    SessionModel,
    Change,
) {
    match duration {
        Some(d) => (
            SessionModel {
                active_ns: saturating_sum(s.active_ns, d),
                source: ActiveSource::Derived,
                ..s
            },
            Change { active_changed: true, ..no_change() },
        ),
        None => match reported {
            Some(a) => (
                SessionModel { active_ns: a, source: ActiveSource::DeviceReported, ..s },
                Change { active_changed: true, ..no_change() },
            ),
            None => (s, no_change()),
        },
    }
}

/// A total field applied, where the line has one.
pub open spec fn apply_total_field(
    sc: (SessionModel, Change),
    total: Option<i32>,
    now: Seq<char>,
) -> (SessionModel, Change) {
    match total {
        Some(v) => apply_total(sc.0, sc.1, v, now),
        None => sc,
    }
}

/// The session after the cleaned line `line`, and what the line changed; `now`
/// is the time recorded if the total goes up.
pub open spec fn decode(s: SessionModel, line: Seq<u8>, now: Seq<char>) -> (SessionModel, Change) {
    if line.len() == 0 {
        (s, no_change())
    } else if contains_key(line, reset_marker()) {
        (initial_session(), reset_change())
    } else if is_live_line(line) {
        apply_total_field(
            apply_stage(s, int_literal_after(line, stage_key())),
            int_literal_after(line, total_key()),
            now,
        )
    } else {
        apply_total_field(
            apply_active(
                s,
                fixed_literal_after(line, duration_key(), MILLIS_TO_NANOS_DIGITS as nat),
                fixed_literal_after(line, active_time_key(), SECONDS_TO_NANOS_DIGITS as nat),
            ),
            int_literal_after(line, grand_total_key()),
            now,
        )
    }
}

/// Whether `line` is a live line: it holds `[Live]` or `[LIVE]`.
pub fn is_live(line: &str) -> (r: bool)
    ensures
        r == is_live_line(line.spec_bytes()),
{
    let b = line.as_bytes();
    contains(b, "[Live]".as_bytes()) || contains(b, "[LIVE]".as_bytes())
}

fn saturating_add(a: i64, b: i64) -> (r: i64)
    ensures
        r == saturating_sum(a, b),
{
    if b > 0 && a > i64::MAX - b {
        i64::MAX
    } else if b < 0 && a < i64::MIN - b {
        i64::MIN
    } else {
        a + b
    }
}

impl CoreState {
    /// A session at its start: stage, total and active time zero, no timestamp.
    pub fn new() -> (r: CoreState)
        ensures
            r@ == initial_session(),
    {
        CoreState {
            stage: 0,
            current_total: 0,
            active_time_ns: 0,
            last_timestamp: None,
            active_source: ActiveSource::Derived,
        }
    }

    fn reset_session(&mut self)
        ensures
            final(self)@ == initial_session(),
    {
        self.current_total = 0;
        self.stage = 0;
        self.active_time_ns = 0;
        self.active_source = ActiveSource::Derived;
        self.last_timestamp = None;
    }

    fn update_total_from_live(&mut self, new_total: i32, change: &mut Change, now: &str)
        ensures
            (final(self)@, *final(change)) == apply_total(old(self)@, *old(change), new_total, now@),
    {
        if new_total < self.current_total {
            self.reset_session();
            self.current_total = new_total;
            change.session_reset = true;
            change.total_changed = true;
        } else if new_total > self.current_total {
            self.current_total = new_total;
            self.last_timestamp = Some(now.to_owned());
            change.total_changed = true;
        }
    }

    fn apply_line(&mut self, line: &[u8], now: &str) -> (r: Change)
        ensures
            (final(self)@, r) == decode(old(self)@, line@, now@),
    {
        let mut change = Change::default();
        if line.len() == 0 {
            return change;
        }
        if contains(line, "SYSTEM RESET OK".as_bytes()) {
            self.reset_session();
            change.system_reset = true;
            change.session_reset = true;
            return change;
        }
        if contains(line, "[Live]".as_bytes()) || contains(line, "[LIVE]".as_bytes()) {
            if let Some(stage) = int_after(line, "Stage:".as_bytes()) {
                if stage != self.stage {
                    self.stage = stage;
                    change.stage_changed = true;
                }
            }
            if let Some(total) = int_after(line, "Total:".as_bytes()) {
                self.update_total_from_live(total, &mut change, now);
            }
            return change;
        }
        if let Some(d) = fixed_after(line, "Duration".as_bytes(), MILLIS_TO_NANOS_DIGITS) {
            self.active_time_ns = saturating_add(self.active_time_ns, d);
            self.active_source = ActiveSource::Derived;
            change.active_changed = true;
        } else if let Some(a) = fixed_after(line, "Active Time".as_bytes(), SECONDS_TO_NANOS_DIGITS) {
            self.active_time_ns = a;
            self.active_source = ActiveSource::DeviceReported;
            change.active_changed = true;
        }
        if let Some(total) = int_after(line, "Grand Total".as_bytes()) {
            self.update_total_from_live(total, &mut change, now);
        }
        change
    }

    /// Decodes one raw line from the device, with `now` as the time to record
    /// if the total goes up.
    pub fn process_line_at(&mut self, raw: &str, now: &str) -> (r: Change)
        ensures
            (final(self)@, r) == decode(old(self)@, clean_line(raw.spec_bytes()), now@),
    {
        let line = sanitize_line(raw);
        self.apply_line(line.as_slice(), now)
    }

    /// Decodes one raw line from the device; the local time is recorded if the
    /// total goes up.
    pub fn process_line(&mut self, raw: &str) -> (r: Change)
        ensures
            exists|now: Seq<char>|
                (final(self)@, r) == #[trigger] decode(old(self)@, clean_line(raw.spec_bytes()), now),
    {
        let now = local_timestamp();
        self.process_line_at(raw, now.as_str())
    }
}

/// A line that cleans to nothing, the empty line among them, changes nothing:
/// no flag is set and the session stays as it was.
pub proof fn lemma_blank_line_changes_nothing(s: SessionModel, raw: Seq<u8>, now: Seq<char>)
    requires
        clean_line(raw).len() == 0,
    ensures
        decode(s, clean_line(raw), now) == (s, no_change()),
{
}

/// A line that holds the reset acknowledgement anywhere restores the initial
/// session, whatever came before, and reports both a system reset and a
/// session reset.
pub proof fn lemma_reset_marker_restores(s: SessionModel, raw: Seq<u8>, now: Seq<char>)
    requires
        contains_key(raw, reset_marker()),
    ensures
        decode(s, clean_line(raw), now) == (initial_session(), reset_change()),
{
    reveal_strlit("SYSTEM RESET OK");
    assert(vstd::string::is_ascii("SYSTEM RESET OK"));
    vstd::string::is_ascii_spec_bytes("SYSTEM RESET OK");
    assert(survives_cleaning(reset_marker()));
    lemma_cleaning_keeps_key(raw, reset_marker());
}

/// A live line whose total is below the current one starts a new session
/// holding that total: the stage goes back to zero even where the same line
/// named a stage, and the line reports a session reset and a total change.
pub proof fn lemma_rollback_clears_stage(s: SessionModel, line: Seq<u8>, now: Seq<char>, v: i32)
    requires
        line.len() > 0,
        !contains_key(line, reset_marker()),
        is_live_line(line),
        int_literal_after(line, total_key()) == Some(v),
        v < s.total,
    ensures
        decode(s, line, now).0 == session_holding(v),
        decode(s, line, now).1.session_reset,
        decode(s, line, now).1.total_changed,
{
}

/// `Total:` on a live line and `Grand Total` on a report line follow one rule:
/// a live line whose only field is a total leaves the session exactly as a
/// report line whose only field is the same grand total does.
pub proof fn lemma_total_keywords_agree(
    s: SessionModel,
    live: Seq<u8>,
    report: Seq<u8>,
    now: Seq<char>,
)
    requires
        live.len() > 0,
        !contains_key(live, reset_marker()),
        is_live_line(live),
        (int_literal_after(live, stage_key()) is None),
        report.len() > 0,
        !contains_key(report, reset_marker()),
        !is_live_line(report),
        (fixed_literal_after(report, duration_key(), MILLIS_TO_NANOS_DIGITS as nat) is None),
        (fixed_literal_after(report, active_time_key(), SECONDS_TO_NANOS_DIGITS as nat) is None),
        int_literal_after(live, total_key()) == int_literal_after(report, grand_total_key()),
    ensures
        decode(s, live, now) == decode(s, report, now),
{
}

/// A session reset always comes with every field but the total back at its
/// initial value.
pub proof fn lemma_session_reset_restores(s: SessionModel, line: Seq<u8>, now: Seq<char>)
    requires
        decode(s, line, now).1.session_reset,
    ensures
        decode(s, line, now).0 == session_holding(decode(s, line, now).0.total),
{
}

} // verus!
