use dhjc_monitor::number::{decimal_literal_value, find_fixed_after};
use dhjc_monitor::session::{MILLIS_TO_NANOS_DIGITS, SECONDS_TO_NANOS_DIGITS};
use dhjc_monitor::text::sanitize_line;
use dhjc_monitor::{find_int_after, ActiveSource, Change, CoreState};

fn no_flags() -> Change {
    Change::default()
}

fn state_with(stage_line: &str) -> CoreState {
    let mut s = CoreState::new();
    s.process_line_at(stage_line, "2024-01-01 00:00:00");
    s
}

#[test]
fn empty_line_changes_nothing() {
    let mut s = state_with("[Live] Stage: 2 Total: 40");
    let before = s.clone();
    let c = s.process_line("");
    assert_eq!(c, no_flags());
    assert_eq!(s.stage, before.stage);
    assert_eq!(s.current_total, before.current_total);
    assert_eq!(s.active_time_ns, before.active_time_ns);
    assert_eq!(s.last_timestamp, before.last_timestamp);
    assert_eq!(s.active_source, before.active_source);
}

#[test]
fn control_only_line_changes_nothing() {
    let mut s = state_with("[Live] Stage: 2 Total: 40");
    let c = s.process_line("\r\n\x01 \t ");
    assert_eq!(c, no_flags());
    assert_eq!(s.stage, 2);
    assert_eq!(s.current_total, 40);
}

#[test]
fn reset_marker_restores_defaults() {
    let mut s = state_with("[Live] Stage: 4 Total: 77");
    s.process_line("[STAGE REPORT] Duration: 250 ms");
    s.process_line("[TOTAL SUMMARY] Active Time: 9.5 s");
    let c = s.process_line(">> SYSTEM RESET OK <<");
    assert!(c.system_reset);
    assert!(c.session_reset);
    assert!(!c.stage_changed && !c.total_changed && !c.active_changed);
    assert_eq!(s.stage, 0);
    assert_eq!(s.current_total, 0);
    assert_eq!(s.active_time_ns, 0);
    assert_eq!(s.active_source, ActiveSource::Derived);
    assert_eq!(s.last_timestamp, None);
}

#[test]
fn reset_marker_wins_over_live_fields() {
    let mut s = state_with("[Live] Stage: 4 Total: 77");
    let c = s.process_line("[Live] SYSTEM RESET OK Stage: 9 Total: 500");
    assert!(c.system_reset && c.session_reset);
    assert!(!c.stage_changed && !c.total_changed);
    assert_eq!(s.stage, 0);
    assert_eq!(s.current_total, 0);
}

#[test]
fn live_line_sets_stage_and_total() {
    let mut s = CoreState::new();
    let c = s.process_line("[Live] Stage: 3 Total: 120 Wait: 50 ms");
    assert!(c.stage_changed);
    assert!(c.total_changed);
    assert!(!c.session_reset && !c.system_reset && !c.active_changed);
    assert_eq!(s.stage, 3);
    assert_eq!(s.current_total, 120);
    assert!(s.last_timestamp.is_some());
    assert_eq!(s.active_time_ns, 0);
}

#[test]
fn live_line_records_given_time() {
    let mut s = CoreState::new();
    s.process_line_at("[LIVE] Total: 5", "2025-03-04 05:06:07");
    assert_eq!(s.last_timestamp.as_deref(), Some("2025-03-04 05:06:07"));
}

#[test]
fn rollback_clobbers_stage() {
    let mut s = state_with("[Live] Stage: 1 Total: 5");
    assert_eq!(s.stage, 1);
    assert_eq!(s.current_total, 5);
    let c = s.process_line("[Live] Stage: 1 Total: 3");
    assert_eq!(s.stage, 0);
    assert_eq!(s.current_total, 3);
    assert!(c.session_reset);
    assert!(c.total_changed);
    assert!(!c.stage_changed);
    assert_eq!(s.last_timestamp, None);
}

#[test]
fn rollback_after_stage_change_still_clears_stage() {
    let mut s = state_with("[Live] Stage: 1 Total: 5");
    let c = s.process_line("[Live] Stage: 7 Total: 2");
    assert!(c.stage_changed);
    assert!(c.session_reset);
    assert_eq!(s.stage, 0);
    assert_eq!(s.current_total, 2);
}

#[test]
fn equal_total_changes_nothing() {
    let mut s = state_with("[Live] Stage: 1 Total: 5");
    let c = s.process_line("[Live] Stage: 1 Total: 5");
    assert_eq!(c, no_flags());
    assert_eq!(s.last_timestamp.as_deref(), Some("2024-01-01 00:00:00"));
}

#[test]
fn durations_accumulate() {
    let mut s = CoreState::new();
    let c1 = s.process_line("[STAGE REPORT] Stage 1 Duration: 1500 ms");
    let c2 = s.process_line("[STAGE REPORT] Stage 2 Duration: 1500 ms");
    assert!(c1.active_changed && c2.active_changed);
    assert_eq!(s.active_time_ns, 3_000_000_000);
    assert_eq!(s.active_source, ActiveSource::Derived);
}

#[test]
fn device_active_time_overwrites() {
    let mut s = CoreState::new();
    s.process_line("Duration: 1500");
    s.process_line("Duration: 1500");
    assert_eq!(s.active_time_ns, 3_000_000_000);
    let c = s.process_line("[TOTAL SUMMARY] Active Time: 12.345 s");
    assert!(c.active_changed);
    assert_eq!(s.active_time_ns, 12_345_000_000);
    assert_eq!(s.active_source, ActiveSource::DeviceReported);
}

#[test]
fn duration_takes_precedence_over_active_time() {
    let mut s = CoreState::new();
    s.process_line("Active Time: 10");
    let c = s.process_line("Duration: 250 Active Time: 99");
    assert!(c.active_changed);
    assert_eq!(s.active_time_ns, 10_250_000_000);
    assert_eq!(s.active_source, ActiveSource::Derived);
}

#[test]
fn live_line_ignores_report_fields() {
    let mut s = CoreState::new();
    let c = s.process_line("[Live] Duration: 100 Grand Total 9");
    assert_eq!(c, no_flags());
    assert_eq!(s.active_time_ns, 0);
    assert_eq!(s.current_total, 0);
}

#[test]
fn grand_total_matches_live_total() {
    let now = "2024-06-01 12:00:00";
    for (start, v) in [(10, 15), (10, 4), (10, 10)] {
        let mut a = state_with(&format!("[Live] Stage: 2 Total: {}", start));
        let mut b = a.clone();
        let ca = a.process_line_at(&format!("[Live] Total: {}", v), now);
        let cb = b.process_line_at(&format!("[TOTAL SUMMARY] Grand Total: {}", v), now);
        assert_eq!(ca, cb);
        assert_eq!(a.stage, b.stage);
        assert_eq!(a.current_total, b.current_total);
        assert_eq!(a.active_time_ns, b.active_time_ns);
        assert_eq!(a.active_source, b.active_source);
        assert_eq!(a.last_timestamp, b.last_timestamp);
    }
}

#[test]
fn grand_total_rollback_resets_session() {
    let mut s = state_with("[Live] Stage: 3 Total: 50");
    s.process_line("Duration: 2000");
    let c = s.process_line("[TOTAL SUMMARY] Active Time: 4.5 Grand Total: 20");
    assert!(c.active_changed && c.session_reset && c.total_changed);
    assert_eq!(s.stage, 0);
    assert_eq!(s.current_total, 20);
    assert_eq!(s.active_time_ns, 0);
    assert_eq!(s.active_source, ActiveSource::Derived);
}

#[test]
fn int_after_skips_filler() {
    assert_eq!(find_int_after("Stage: abc 12x", "Stage:"), Some(12));
    assert_eq!(find_int_after("[Live] Stage: 3 Total: 120", "Total:"), Some(120));
    assert_eq!(find_int_after("Total: -42 more", "Total:"), Some(-42));
    assert_eq!(find_int_after("Total: +7", "Total:"), Some(7));
}

#[test]
fn int_after_not_found() {
    assert_eq!(find_int_after("Stage 3", "Stage:"), None);
    assert_eq!(find_int_after("Stage: none", "Stage:"), None);
    assert_eq!(find_int_after("Stage: - 5", "Stage:"), None);
    assert_eq!(find_int_after("Stage: 99999999999", "Stage:"), None);
}

#[test]
fn int_after_limits() {
    assert_eq!(find_int_after("T 2147483647", "T"), Some(i32::MAX));
    assert_eq!(find_int_after("T -2147483648", "T"), Some(i32::MIN));
    assert_eq!(find_int_after("T 2147483648", "T"), None);
}

#[test]
fn int_after_uses_first_key() {
    assert_eq!(find_int_after("A: 1 A: 2", "A:"), Some(1));
    assert_eq!(find_int_after("x 5", ""), Some(5));
}

#[test]
fn fixed_after_reads_decimals() {
    assert_eq!(find_fixed_after("Duration: 1.5 ms", "Duration", MILLIS_TO_NANOS_DIGITS), Some(1_500_000));
    assert_eq!(find_fixed_after("Duration: .5", "Duration", MILLIS_TO_NANOS_DIGITS), Some(5_000_000));
    assert_eq!(find_fixed_after("Duration: -.5", "Duration", MILLIS_TO_NANOS_DIGITS), Some(-500_000));
    assert_eq!(find_fixed_after("Duration: 7.", "Duration", 0), Some(7));
    assert_eq!(
        find_fixed_after("Active Time: -0.25", "Active Time", SECONDS_TO_NANOS_DIGITS),
        Some(-250_000_000)
    );
    assert_eq!(find_fixed_after("D 0.1234567", "D", 6), Some(123_456));
}

#[test]
fn fixed_after_stops_at_second_point() {
    assert_eq!(find_fixed_after("D 1.2.3", "D", 6), Some(1_200_000));
    assert_eq!(find_fixed_after("D 1..5", "D", 6), Some(1_000_000));
    assert_eq!(find_fixed_after("D 7.25.9 ms", "D", 3), Some(7_250));
}

#[test]
fn duration_with_two_points_reads_first() {
    let mut s = CoreState::new();
    let c = s.process_line("[STAGE REPORT] Duration: 1.5.0 ms");
    assert!(c.active_changed);
    assert_eq!(s.active_time_ns, 1_500_000);
}

#[test]
fn fixed_after_rejects() {
    assert_eq!(find_fixed_after("D +.", "D", 6), None);
    assert_eq!(find_fixed_after("D .", "D", 6), None);
    assert_eq!(find_fixed_after("D +", "D", 6), None);
    assert_eq!(find_fixed_after("D none", "D", 6), None);
    assert_eq!(find_fixed_after("nothing", "D", 6), None);
    assert_eq!(find_fixed_after("D 10000000000", "D", 9), None);
}

#[test]
fn decimal_literal_limits() {
    assert_eq!(decimal_literal_value(b"9223372036854775807", 0), Some(i64::MAX));
    assert_eq!(decimal_literal_value(b"-9223372036854775808", 0), Some(i64::MIN));
    assert_eq!(decimal_literal_value(b"9223372036854775808", 0), None);
    assert_eq!(decimal_literal_value(b"99999999999999999999999", 0), None);
    assert_eq!(decimal_literal_value(b"", 0), None);
    assert_eq!(decimal_literal_value(b"12", 3), Some(12_000));
}

#[test]
fn sanitize_drops_controls_and_trims() {
    assert_eq!(sanitize_line("\x01  ab\tc \x1b\r\n"), b"ab\tc".to_vec());
    assert_eq!(sanitize_line(""), Vec::<u8>::new());
    assert_eq!(sanitize_line(" \t "), Vec::<u8>::new());
    assert_eq!(sanitize_line("SYS\x07TEM"), b"SYSTEM".to_vec());
}

#[test]
fn sanitize_trims_latin1_blanks() {
    // U+00A0 is encoded as C2 A0: the A0 byte is trimmed, the C2 byte is not.
    assert_eq!(sanitize_line("x\u{a0}"), vec![b'x', 0xC2]);
}

#[test]
fn reset_marker_split_by_control_byte_still_resets() {
    let mut s = state_with("[Live] Stage: 4 Total: 77");
    let c = s.process_line("SYSTEM\x07 RESET OK");
    assert!(c.system_reset);
    assert_eq!(s.current_total, 0);
}

#[test]
fn new_state_is_initial() {
    let s = CoreState::new();
    assert_eq!(s.stage, 0);
    assert_eq!(s.current_total, 0);
    assert_eq!(s.active_time_ns, 0);
    assert_eq!(s.active_source, ActiveSource::Derived);
    assert!(s.last_timestamp.is_none());
}
