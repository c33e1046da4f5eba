use embarch_topology::cli::{
    link_edits, render_alert, render_board, render_dev_bench_port, render_enrolled, render_error,
    render_link_edit, render_status, render_validated, status_base_url, CommandError,
    NothingToDeclare,
};
use embarch_topology::hardware::alert::Alert;
use embarch_topology::hardware::enrollment::{EnrolledBoard, LinkEdit};
use embarch_topology::hardware::{DetectedPort, NotEnrolled, TopologyMismatch};
use embarch_topology::software::{candidates, resolve, winner, ProbeOutcome, ResolvedSoftwareTopology};

fn port() -> DetectedPort {
    DetectedPort {
        port_name: "COM16".into(),
        detected_by: "segger-vid-match".into(),
        vendor_id: Some(0x1366),
        product_id: Some(0x1069),
        serial_number: Some("001050288460".into()),
        product: Some("JLink CDC UART Port".into()),
        interface: Some(0),
        guessed_among: None,
    }
}

#[test]
fn determined_port_renders_unchanged() {
    assert_eq!(
        render_dev_bench_port(&port()),
        "COM16\n  detected_by: segger-vid-match\n  serial: Some(\"001050288460\")\n  \
         product: Some(\"JLink CDC UART Port\")\n  interface: Some(0)\n"
    );
}

#[test]
fn guessed_port_says_so_on_the_port_name_line() {
    let mut p = port();
    p.guessed_among = Some(2);
    let rendered = render_dev_bench_port(&p);
    assert!(
        rendered.starts_with("COM16, guessed among 2\n"),
        "guess must be on the port-name line, the one a caller copies: {rendered}"
    );
    assert_eq!(
        rendered.replace(", guessed among 2", ""),
        render_dev_bench_port(&port())
    );
}

#[test]
fn not_enrolled_renders_its_sentence_not_its_debug() {
    let e = CommandError::NotEnrolled(NotEnrolled { role: "dut".into() });
    let rendered = render_error(&e);
    assert_eq!(rendered, NotEnrolled { role: "dut".into() }.message());
    assert!(rendered.starts_with("no board enrolled under role 'dut'"), "{rendered}");
    assert!(!rendered.contains("NotEnrolled {"), "debug shape leaked: {rendered}");
}

#[test]
fn mismatch_still_renders_its_display() {
    let mismatch = || TopologyMismatch {
        role: "dev-bench".into(),
        probe_serial: "001050288460".into(),
        chip: "nrf54l15".into(),
        recorded_hardware_id: "recorded".into(),
        live_hardware_id: Some("live".into()),
        reason: "hardware_id changed".into(),
        fix_it_url: "http://127.0.0.1:8765/topology".into(),
    };
    let rendered = render_error(&CommandError::Mismatch(mismatch()));
    assert_eq!(rendered, mismatch().message());
    assert_eq!(
        rendered,
        "topology-mismatch: hardware_id changed — fix it at http://127.0.0.1:8765/topology"
    );
}

#[test]
fn an_unrecognised_error_keeps_its_context_chain() {
    let e = anyhow::Error::msg("inner").context("outer");
    let rendered = render_error(&CommandError::Other(format!("{e:?}")));
    assert!(rendered.contains("outer") && rendered.contains("inner"), "{rendered}");
}

// ---- the other lines ----------------------------------------------------------------

fn board() -> EnrolledBoard {
    EnrolledBoard {
        probe_serial: Some("P".into()),
        role: "dut".into(),
        name: String::new(),
        chip: "c".into(),
        hardware_id: Some("H".into()),
        confirmed_at_utc_ms: Some(1),
        link_port_serial: None,
        link_port_interface: None,
    }
}

#[test]
fn a_board_is_a_line() {
    assert_eq!(render_board(&board()), "dut: probe P chip c hardware_id H\n");
    let mut b = board();
    b.link_port_serial = Some("L".into());
    b.link_port_interface = Some(2);
    b.hardware_id = None;
    assert_eq!(
        render_board(&b),
        "dut: probe P chip c hardware_id none link_port_serial L link_port_interface 2\n"
    );
    assert_eq!(
        render_enrolled(&board()),
        "enrolled 'c' as role 'dut': probe P, hardware_id H\n"
    );
    assert_eq!(render_validated(&board()), "ok: 'dut' still matches hardware_id H\n");
}

#[test]
fn an_alert_is_a_line() {
    let a = Alert {
        id: "x".into(),
        occurred_at_utc_ms: 12,
        role: "dut".into(),
        probe_serial: "P".into(),
        chip: "c".into(),
        recorded_hardware_id: "r".into(),
        live_hardware_id: None,
        reason: "gone".into(),
    };
    assert_eq!(render_alert(&a), "12 role=dut probe=P reason=gone\n");
}

#[test]
fn the_status_lists_what_was_tried() {
    let c = candidates(true, Some("g"), Some("h"), 1);
    let attempts = resolve(&c, |u: String| match u.as_str() {
        "http://127.0.0.1:1" => ProbeOutcome::Unreachable,
        "http://g:1" => ProbeOutcome::NotCore { status: 404 },
        _ => ProbeOutcome::Core { authorized: false },
    });
    let won = winner(&attempts).map(|a| a.candidate.clone());
    let r = ResolvedSoftwareTopology { winner: won, attempts };
    assert_eq!(
        render_status(&r),
        format!(
            "core: http://h:1 (remote)\n  tried http://127.0.0.1:1 (local): {:?}\n  tried \
             http://g:1 (wsl-host): {:?}\n  tried http://h:1 (remote): {:?}\n",
            ProbeOutcome::Unreachable,
            ProbeOutcome::NotCore { status: 404 },
            ProbeOutcome::Core { authorized: false }
        )
    );
    let none = ResolvedSoftwareTopology { winner: None, attempts: Vec::new() };
    assert_eq!(render_status(&none), "core: not found\n");
}

#[test]
fn a_named_host_is_the_one_url() {
    assert_eq!(status_base_url(Some(" bench "), 4884).as_deref(), Some("http://bench:4884"));
    assert_eq!(status_base_url(Some("  "), 4884), None);
    assert_eq!(status_base_url(None, 4884), None);
}

#[test]
fn the_link_arguments_become_edits() {
    let e = link_edits(None, None, false, false).unwrap_err();
    assert_eq!(e, NothingToDeclare);
    assert_eq!(
        e.message(),
        "set-dev-bench-link needs at least one of --serial or --interface"
    );
    let edits = link_edits(Some("S".into()), Some(2), false, false).unwrap();
    assert_eq!(
        edits,
        vec![LinkEdit::Serial(Some("S".into())), LinkEdit::Interface(Some(2))]
    );
    let edits = link_edits(None, None, false, true).unwrap();
    assert_eq!(edits, vec![LinkEdit::Interface(None)]);
    let said: Vec<String> = link_edits(Some("S".into()), Some(2), true, false)
        .unwrap()
        .iter()
        .chain(link_edits(None, None, true, true).unwrap().iter())
        .map(render_link_edit)
        .collect();
    assert_eq!(
        said,
        vec![
            "dev-bench link port serial set to 'S'\n",
            "dev-bench link port interface set to 2\n",
            "dev-bench link port serial cleared\n",
            "dev-bench link port interface cleared\n",
        ]
    );
}
