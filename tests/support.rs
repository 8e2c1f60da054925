use dhjc_monitor::config::{AppConfig, ConfigOverrides};
use dhjc_monitor::framing::LineAssembler;
use dhjc_monitor::event_log::push_bounded;
use dhjc_monitor::log_record::{format_log_line, is_bare};

fn no_overrides() -> ConfigOverrides {
    ConfigOverrides {
        port_name: None,
        baud_rate: None,
        log_folder: None,
        use_tcp: None,
        tcp_host: None,
        tcp_port: None,
    }
}

#[test]
fn config_defaults() {
    let c = AppConfig::default();
    assert_eq!(c.port_name, "COM3");
    assert_eq!(c.baud_rate, 115_200);
    assert_eq!(c.log_folder, "logs");
    assert!(!c.use_tcp);
    assert_eq!(c.tcp_host, "127.0.0.1");
    assert_eq!(c.tcp_port, 5000);
}

#[test]
fn config_overrides_replace_given_values_only() {
    let mut o = no_overrides();
    o.baud_rate = Some(9600);
    o.use_tcp = Some(true);
    o.tcp_host = Some("10.0.0.2".to_string());
    let c = AppConfig::default().with_overrides(o);
    assert_eq!(c.port_name, "COM3");
    assert_eq!(c.baud_rate, 9600);
    assert_eq!(c.log_folder, "logs");
    assert!(c.use_tcp);
    assert_eq!(c.tcp_host, "10.0.0.2");
    assert_eq!(c.tcp_port, 5000);
}

#[test]
fn config_without_overrides_is_default() {
    let c = AppConfig::default().with_overrides(no_overrides());
    assert_eq!(c.port_name, "COM3");
    assert_eq!(c.tcp_port, 5000);
}

#[test]
fn log_line_gets_time() {
    assert_eq!(
        format_log_line("[STAGE REPORT] Duration: 10 ms", "12:34:56"),
        "[12:34:56] [STAGE REPORT] Duration: 10 ms\r\n"
    );
}

#[test]
fn bare_log_lines() {
    assert_eq!(format_log_line("", "12:00:00"), "\r\n");
    assert_eq!(format_log_line("***** TITLE", "12:00:00"), "***** TITLE\r\n");
    assert_eq!(format_log_line("-----", "12:00:00"), "-----\r\n");
    assert_eq!(format_log_line("===== SYSTEM RESET =====", "t"), "===== SYSTEM RESET =====\r\n");
    assert_eq!(format_log_line("ok SYSTEM RESET OK", "t"), "ok SYSTEM RESET OK\r\n");
    assert!(is_bare("=x"));
    assert!(!is_bare("x=*-"));
}

#[test]
fn bounded_log_drops_oldest() {
    let mut lines: Vec<String> = vec!["a".to_string(), "b".to_string()];
    push_bounded(&mut lines, "c".to_string(), 2);
    assert_eq!(lines, vec!["b".to_string(), "c".to_string()]);
    push_bounded(&mut lines, "d".to_string(), 5);
    assert_eq!(lines, vec!["b".to_string(), "c".to_string(), "d".to_string()]);
    push_bounded(&mut lines, "e".to_string(), 0);
    assert!(lines.is_empty());
}

#[test]
fn assembler_splits_on_breaks() {
    let mut a = LineAssembler::new();
    let out = a.push_bytes(b"[Live] Stage: 1\r\nTotal");
    assert_eq!(out, vec![b"[Live] Stage: 1".to_vec()]);
    let out = a.push_bytes(b": 5  \n\n\r");
    assert_eq!(out, vec![b"Total: 5".to_vec()]);
    let out = a.push_bytes(b"  \r\nx");
    assert!(out.is_empty());
    let out = a.push_bytes(b"\n");
    assert_eq!(out, vec![b"x".to_vec()]);
}

#[test]
fn assembler_keeps_leading_blanks() {
    let mut a = LineAssembler::new();
    let out = a.push_bytes(b"  a b\t\n");
    assert_eq!(out, vec![b"  a b".to_vec()]);
}

