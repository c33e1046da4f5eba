use embarch_topology::hardware::alert::{fix_it_url, log_entry, log_lines, recent, Alert};
use embarch_topology::hardware::enrollment::EnrolledBoard;
use embarch_topology::hardware::paths::{
    alert_log_path, data_dir, enrollment_path, Platform, ProgramDataUnset, StoragePath,
};
use embarch_topology::hardware::recent_alerts;

fn sample_board() -> EnrolledBoard {
    EnrolledBoard {
        probe_serial: Some("760001234".to_string()),
        role: "dev-bench".to_string(),
        name: String::new(),
        chip: "esp32c5".to_string(),
        hardware_id: Some("aaaaaaaabbbbbbbb".to_string()),
        confirmed_at_utc_ms: Some(1_755_000_000_000),
        link_port_serial: None,
        link_port_interface: None,
    }
}

fn alert_at(ms: u64) -> Alert {
    Alert::new(&sample_board(), None, "r".to_string(), ms, 1)
}

#[test]
fn record_then_recent_round_trips() {
    let alert = Alert::new(
        &sample_board(),
        Some("ccccccccdddddddd".to_string()),
        "hardware ID mismatch".to_string(),
        1_755_000_000_001,
        4321,
    );
    let log = log_entry("{\"a\":1}") + &log_entry("{\"b\":2}");
    assert_eq!(log, "{\"a\":1}\n{\"b\":2}\n");
    assert_eq!(log_lines(&log), vec!["{\"a\":1}", "{\"b\":2}"]);
    let parsed = vec![Some(alert_at(1)), Some(alert.clone())];
    let last = recent(&parsed, 1).pop().unwrap();
    assert_eq!(last.role, "dev-bench");
    assert_eq!(last.live_hardware_id, Some("ccccccccdddddddd".to_string()));
    assert_eq!(last, alert);
}

#[test]
fn fix_it_url_is_a_fixed_embarch_ui_topology_tab_url() {
    assert_eq!(fix_it_url(), "http://127.0.0.1:4890/#topology");
}

#[test]
fn an_alert_carries_the_record_and_an_id() {
    let a = Alert::new(&sample_board(), None, "gone".to_string(), 0x1f, 12);
    assert_eq!(
        a,
        Alert {
            id: "1f-12".to_string(),
            occurred_at_utc_ms: 31,
            role: "dev-bench".to_string(),
            probe_serial: "760001234".to_string(),
            chip: "esp32c5".to_string(),
            recorded_hardware_id: "aaaaaaaabbbbbbbb".to_string(),
            live_hardware_id: None,
            reason: "gone".to_string(),
        }
    );
    let mut unread = sample_board();
    unread.probe_serial = None;
    unread.hardware_id = None;
    let a = Alert::new(&unread, None, String::new(), 0, 0);
    assert_eq!((a.id.as_str(), a.probe_serial.as_str()), ("0-0", ""));
    assert_eq!(a.recorded_hardware_id, "");
}

#[test]
fn blank_lines_of_the_log_count_for_nothing() {
    assert_eq!(log_lines("a\r\n\n  \t\nb\n\u{a0}\nc"), vec!["a", "b", "c"]);
    assert!(log_lines("").is_empty());
    assert!(log_lines("\n\n").is_empty());
}

#[test]
fn the_recent_alerts_are_the_last_ones_in_order() {
    let parsed = vec![Some(alert_at(1)), None, Some(alert_at(2)), Some(alert_at(3)), None];
    let times = |limit: usize| -> Vec<u64> {
        recent_alerts(&parsed, limit).iter().map(|a| a.occurred_at_utc_ms).collect()
    };
    assert_eq!(times(2), vec![2, 3]);
    assert_eq!(times(3), vec![1, 2, 3]);
    assert_eq!(times(20), vec![1, 2, 3]);
    assert!(times(0).is_empty());
}

// ---- where the files are ----------------------------------------------------------

fn path(root: &str, components: &[&str]) -> StoragePath {
    StoragePath {
        root: root.to_string(),
        components: components.iter().map(|c| c.to_string()).collect(),
    }
}

#[test]
fn the_files_are_under_the_machine_wide_directory() {
    let unix = Platform::Unix;
    assert_eq!(data_dir(&unix), Ok(path("/var/lib/embarch", &["topology"])));
    assert_eq!(
        enrollment_path(&unix),
        Ok(path("/var/lib/embarch", &["topology", "enrollment.toml"]))
    );
    assert_eq!(
        alert_log_path(&unix),
        Ok(path("/var/lib/embarch", &["topology", "alerts.jsonl"]))
    );
    let windows = Platform::Windows { program_data: Some("C:\\ProgramData".to_string()) };
    assert_eq!(
        enrollment_path(&windows),
        Ok(path("C:\\ProgramData", &["embarch", "topology", "enrollment.toml"]))
    );
}

#[test]
fn windows_needs_program_data() {
    let windows = Platform::Windows { program_data: None };
    assert_eq!(data_dir(&windows), Err(ProgramDataUnset));
    assert_eq!(alert_log_path(&windows), Err(ProgramDataUnset));
    assert_eq!(
        enrollment_path(&windows).unwrap_err().message(),
        "ProgramData environment variable is not set"
    );
}
