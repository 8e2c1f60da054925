use dhjc_monitor::connection::{
    parse_u32_text, plan_connection, trim_text, ConnectError, ConnectionMode, ConnectionTarget,
};
use dhjc_monitor::event_log::{is_error_report, log_tone, matches_filter, matches_folded, LogTone};
use dhjc_monitor::session::is_live;

#[test]
fn serial_plan_trims_and_parses() {
    let r = plan_connection(ConnectionMode::Serial, "  COM5 \t", " 9600 ", "", "", 115200, 5000);
    match r {
        Ok(ConnectionTarget::Serial { port_name, baud_rate }) => {
            assert_eq!(port_name, "COM5");
            assert_eq!(baud_rate, 9600);
        }
        other => panic!("unexpected {:?}", other),
    }
}

#[test]
fn serial_plan_falls_back_on_bad_baud() {
    for baud in ["fast", "", "-9600", "4294967296", "96 00"] {
        let r = plan_connection(ConnectionMode::Serial, "COM3", baud, "", "", 115200, 5000);
        match r {
            Ok(ConnectionTarget::Serial { baud_rate, .. }) => assert_eq!(baud_rate, 115200),
            other => panic!("unexpected {:?}", other),
        }
    }
}

#[test]
fn serial_plan_needs_port() {
    let r = plan_connection(ConnectionMode::Serial, " \u{3000} ", "9600", "host", "1", 115200, 5000);
    assert!(matches!(r, Err(ConnectError::MissingPortName)));
}

#[test]
fn tcp_plan_trims_and_parses() {
    let r = plan_connection(ConnectionMode::Tcp, "", "", " 192.168.1.9\n", "+8080", 115200, 5000);
    match r {
        Ok(ConnectionTarget::Tcp { host, port }) => {
            assert_eq!(host, "192.168.1.9");
            assert_eq!(port, 8080);
        }
        other => panic!("unexpected {:?}", other),
    }
}

#[test]
fn tcp_plan_falls_back_on_large_port() {
    let r = plan_connection(ConnectionMode::Tcp, "", "", "h", "65536", 115200, 5000);
    match r {
        Ok(ConnectionTarget::Tcp { port, .. }) => assert_eq!(port, 5000),
        other => panic!("unexpected {:?}", other),
    }
}

#[test]
fn tcp_plan_needs_host() {
    let r = plan_connection(ConnectionMode::Tcp, "COM3", "9600", "   ", "1", 115200, 5000);
    assert!(matches!(r, Err(ConnectError::MissingHost)));
}

#[test]
fn unsigned_text_values() {
    assert_eq!(parse_u32_text(b"0"), Some(0));
    assert_eq!(parse_u32_text(b"+42"), Some(42));
    assert_eq!(parse_u32_text(b"4294967295"), Some(u32::MAX));
    assert_eq!(parse_u32_text(b"4294967296"), None);
    assert_eq!(parse_u32_text(b"+"), None);
    assert_eq!(parse_u32_text(b""), None);
    assert_eq!(parse_u32_text(b"12a"), None);
    assert_eq!(parse_u32_text(b"99999999999999999999x"), None);
}

#[test]
fn filter_ignores_case() {
    assert!(matches_filter("[STAGE REPORT] Duration: 5", "stage"));
    assert!(matches_filter("anything", ""));
    assert!(!matches_filter("[Live] Total: 5", "grand"));
    assert!(matches_filter("Ünïcode LINE", "üNÏ"));
}

#[test]
fn folded_match_is_plain_substring() {
    assert!(matches_folded("abc", "bc"));
    assert!(!matches_folded("abc", "BC"));
    assert!(matches_folded("abc", ""));
}

#[test]
fn tones() {
    assert_eq!(log_tone("[ERROR] open failed"), LogTone::Error);
    assert_eq!(log_tone("[WARN] slow"), LogTone::Warning);
    assert_eq!(log_tone("WARN and ERROR"), LogTone::Error);
    assert_eq!(log_tone("fine"), LogTone::Plain);
    assert_eq!(log_tone("error"), LogTone::Plain);
}

#[test]
fn error_reports() {
    assert!(is_error_report("[ERROR] serial read failed"));
    assert!(!is_error_report(" [ERROR] x"));
    assert!(!is_error_report("[ERR"));
}

#[test]
fn live_lines() {
    assert!(is_live("[Live] Stage: 1"));
    assert!(is_live("x [LIVE] y"));
    assert!(!is_live("[live] Stage: 1"));
    assert!(!is_live("[STAGE REPORT]"));
}

#[test]
fn trim_matches_std() {
    for t in ["", "  ", " a b ", "\u{3000}\tx\u{85}", "\u{a0}é\u{2009}", "x", "\u{200b}y\u{200b}"] {
        assert_eq!(trim_text(t), t.trim());
    }
}
