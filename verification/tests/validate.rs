use embarch_topology::hardware::alert::Alert;
use embarch_topology::hardware::enrollment::{EnrolledBoard, Store, DUT_ROLE};
use embarch_topology::hardware::hardware_id::ReadError;
use embarch_topology::hardware::validate::{
    enroll_identified, select_probe, select_probe_index, session_state, Clock, EnrollError,
    EnrollLog, EnrollStep, GateLog, GateStep, SelectProbeError, SessionFault, SessionLog,
    SessionState, SessionStep, ValidateError,
};
use embarch_topology::hardware::{
    enroll, validate_role, validate_role_timed, validate_serial, validate_serial_timed,
    AttachedProbe, Validation,
};

fn board() -> EnrolledBoard {
    EnrolledBoard {
        probe_serial: Some("serial".into()),
        role: "dev-bench".into(),
        name: String::new(),
        chip: "nRF54L15".into(),
        hardware_id: Some("6fcddc36cb781b71".into()),
        confirmed_at_utc_ms: Some(1_788_195_194_573),
        link_port_serial: None,
        link_port_interface: None,
    }
}

fn store() -> Store {
    Store { boards: vec![board()], signals: Vec::new() }
}

fn probe(identifier: &str, serial: Option<&str>) -> AttachedProbe {
    AttachedProbe {
        identifier: identifier.to_string(),
        vendor_id: 0x1366,
        product_id: 0x0101,
        serial_number: serial.map(String::from),
    }
}

#[test]
fn validation_keeps_the_two_timestamps_distinct_in_json() {
    let v = Validation { board: board(), validated_at_utc_ms: 1_788_723_019_911 };
    let board_confirmed_at = v.board.confirmed_at_utc_ms.unwrap();
    let validated_at = v.validated_at_utc_ms;
    assert_eq!(board_confirmed_at, 1_788_195_194_573);
    assert_eq!(validated_at, 1_788_723_019_911);
    assert_ne!(board_confirmed_at, validated_at, "a real regression this guards against");
}

#[test]
fn select_probe_zero_probes_names_the_usb_connection() {
    let err = select_probe(vec![], None, "enroll").expect_err("no probes must refuse");
    assert!(err.message().contains("no debug probe found"));
    assert!(
        err.message().contains("usbipd"),
        "the one diagnostic hint both callers should keep"
    );
}

#[test]
fn select_probe_zero_probes_with_a_serial_still_names_the_usb_connection() {
    let err = select_probe(vec![], Some("S1"), "flash")
        .expect_err("no probes must refuse even with a serial");
    let msg = err.message();
    assert!(
        msg.contains("no debug probe found"),
        "zero probes is diagnosed before the serial lookup runs"
    );
    assert!(msg.contains("S1"), "the requested serial is still echoed back");
}

#[test]
fn select_probe_exactly_one_is_accepted_without_a_serial() {
    let picked = select_probe(vec![probe("only", Some("S1"))], None, "enroll")
        .expect("exactly one attached probe must be accepted");
    assert_eq!(picked.serial_number.as_deref(), Some("S1"));
}

#[test]
fn select_probe_two_probes_without_a_serial_refuses_and_names_the_action() {
    let probes = vec![probe("a", Some("S1")), probe("b", Some("S2"))];
    let err = select_probe(probes, None, "enroll")
        .expect_err("more than one attached probe must refuse");
    let msg = err.message();
    assert!(msg.contains("enroll requires exactly one debug probe attached (2 seen)"));
    assert!(
        msg.contains("S1") && msg.contains("S2"),
        "both attached probes are named, not just counted"
    );
}

#[test]
fn select_probe_serial_hit_picks_the_matching_probe_among_several() {
    let probes = vec![probe("a", Some("S1")), probe("b", Some("S2"))];
    let picked = select_probe(probes, Some("S2"), "flash")
        .expect("a serial matching an attached probe must resolve");
    assert_eq!(picked.identifier, "b");
}

#[test]
fn select_probe_serial_miss_names_the_serial_it_could_not_find() {
    let err = select_probe(vec![probe("a", Some("S1"))], Some("does-not-exist"), "flash")
        .expect_err("a serial matching nothing attached must refuse");
    assert!(err.message().contains("no attached probe with serial 'does-not-exist'"));
}

#[test]
fn the_refusals_read_to_the_letter() {
    let message = |probes: Vec<AttachedProbe>, serial: Option<&str>| {
        select_probe(probes, serial, "flash").unwrap_err().message()
    };
    assert_eq!(
        message(vec![], None),
        "no debug probe found — check the USB connection (and usbipd attach, if Core is on a Pi \
         and the probe is elsewhere)"
    );
    assert_eq!(
        message(vec![], Some("S1")),
        "no debug probe found (looking for serial 'S1') — check the USB connection (and usbipd \
         attach, if Core is on a Pi and the probe is elsewhere)"
    );
    assert_eq!(
        message(vec![probe("a", None)], Some("S1")),
        "no attached probe with serial 'S1' — is it still plugged in?"
    );
    assert_eq!(
        message(vec![probe("a", Some("S1")), probe("b", None)], None),
        "flash requires exactly one debug probe attached (2 seen) — plug in only the board you \
         mean to flash, or specify which probe by serial. Attached probes: [\"a \
         (serial=Some(\\\"S1\\\"))\", \"b (serial=None)\"]"
    );
}

#[test]
fn the_first_probe_with_the_serial_is_the_one() {
    let probes = vec![probe("a", None), probe("b", Some("S")), probe("c", Some("S"))];
    assert_eq!(select_probe_index(&probes, Some("S"), "flash"), Ok(1));
    assert_eq!(
        select_probe_index(&probes, Some("s"), "flash"),
        Err(SelectProbeError::NoMatch { wanted: "s".to_string() }),
        "a probe's serial is compared to the letter"
    );
}

// ---- a live check ----------------------------------------------------------------------

fn clock(ms: u128) -> Clock {
    Clock { since_epoch_ms: Some(ms), pid: 77 }
}

fn identified(id: &str) -> SessionLog {
    SessionLog {
        opened: Some(Ok(())),
        powered: Some(Ok(())),
        attached: Some(Ok(())),
        core: Some(Ok(())),
        identity: Some(Ok(id.to_string())),
    }
}

fn attached_log(session: SessionLog) -> GateLog {
    GateLog {
        probes: Some(vec![probe("j", Some("other")), probe("j", Some("serial"))]),
        session,
        clock: None,
        recorded: None,
    }
}

/// Answers every step of a live check as a bench would, and lists the steps taken.
fn run(store: &Store, role: &str, live: &str) -> (Vec<String>, Result<Validation, ValidateError>) {
    let mut log = GateLog::new();
    let mut taken = Vec::new();
    loop {
        match validate_role_timed(store, role, &log) {
            GateStep::ListProbes => {
                taken.push("list".to_string());
                log.probes = Some(vec![probe("j", Some("serial"))]);
            }
            GateStep::Session { probe, chip, step } => {
                taken.push(format!("{step:?} {probe} {chip}"));
                match step {
                    SessionStep::Open => log.session.opened = Some(Ok(())),
                    SessionStep::CheckPower => log.session.powered = Some(Ok(())),
                    SessionStep::Attach => log.session.attached = Some(Ok(())),
                    SessionStep::SelectCore => log.session.core = Some(Ok(())),
                    SessionStep::ReadIdentity => {
                        log.session.identity = Some(Ok(live.to_string()))
                    }
                }
            }
            GateStep::ReadClock => {
                taken.push("clock".to_string());
                log.clock = Some(clock(5000));
            }
            GateStep::Record(a) => {
                taken.push(format!("record {}", a.reason));
                log.recorded = Some(Err("disk full".to_string()));
            }
            GateStep::Done(r) => return (taken, r),
        }
    }
}

#[test]
fn a_live_check_takes_its_steps_in_order() {
    let (taken, r) = run(&store(), "dev-bench", "6fcddc36cb781b71");
    assert_eq!(
        taken,
        vec![
            "list",
            "Open 0 nRF54L15",
            "CheckPower 0 nRF54L15",
            "Attach 0 nRF54L15",
            "SelectCore 0 nRF54L15",
            "ReadIdentity 0 nRF54L15",
            "clock",
        ]
    );
    assert_eq!(r, Ok(Validation { board: board(), validated_at_utc_ms: 5000 }));
}

#[test]
fn a_changed_identity_is_recorded_and_then_refused_however_the_recording_went() {
    let (taken, r) = run(&store(), "dev-bench", "834f2559f10a6cdf");
    let reason = "probe 'serial' is enrolled as role 'dev-bench' (chip 'nRF54L15') with hardware \
                  ID '6fcddc36cb781b71', but the attached chip now reports '834f2559f10a6cdf' — \
                  re-enroll if this is deliberate";
    assert_eq!(taken.last().unwrap(), &format!("record {reason}"));
    let e = r.unwrap_err();
    assert_eq!(
        e.message(),
        format!("topology-mismatch: {reason} — fix it at http://127.0.0.1:4890/#topology")
    );
    match e {
        ValidateError::Mismatch(m) => {
            assert_eq!(m.role, "dev-bench");
            assert_eq!(m.probe_serial, "serial");
            assert_eq!(m.chip, "nRF54L15");
            assert_eq!(m.recorded_hardware_id, "6fcddc36cb781b71");
            assert_eq!(m.live_hardware_id.as_deref(), Some("834f2559f10a6cdf"));
            assert_eq!(m.fix_it_url, "http://127.0.0.1:4890/#topology");
        }
        e => panic!("{e:?}"),
    }
}

#[test]
fn an_absent_probe_is_a_mismatch_without_a_live_identity() {
    let mut log = GateLog::new();
    log.probes = Some(vec![probe("j", Some("other")), probe("j", None)]);
    assert_eq!(validate_role(&store(), "dev-bench", &log), GateStep::ReadClock);
    log.clock = Some(clock(0xabc));
    let reason = "probe 'serial' enrolled as role 'dev-bench' is not currently attached";
    assert_eq!(
        validate_role(&store(), "dev-bench", &log),
        GateStep::Record(Alert {
            id: "abc-77".to_string(),
            occurred_at_utc_ms: 0xabc,
            role: "dev-bench".to_string(),
            probe_serial: "serial".to_string(),
            chip: "nRF54L15".to_string(),
            recorded_hardware_id: "6fcddc36cb781b71".to_string(),
            live_hardware_id: None,
            reason: reason.to_string(),
        })
    );
    log.recorded = Some(Ok(()));
    match validate_role(&store(), "dev-bench", &log) {
        GateStep::Done(Err(ValidateError::Mismatch(m))) => {
            assert_eq!(m.live_hardware_id, None);
            assert_eq!(m.reason, reason);
        }
        s => panic!("{s:?}"),
    }
}

#[test]
fn the_two_ways_to_ask_agree() {
    let mut log = attached_log(identified("6fcddc36cb781b71"));
    log.clock = Some(clock(9));
    assert_eq!(
        validate_serial_timed(&store(), "serial", &log),
        validate_role_timed(&store(), "dev-bench", &log)
    );
    assert_eq!(validate_serial(&store(), "serial", &log), GateStep::Done(Ok(board())));
}

#[test]
fn what_is_not_enrolled_is_refused_before_anything_is_asked() {
    let log = GateLog::new();
    match validate_role(&store(), "dut", &log) {
        GateStep::Done(Err(e)) => assert_eq!(
            e.message(),
            "no board enrolled under role 'dut' — enroll it first (`embarch-topology enroll`), \
             with only this board's probe attached"
        ),
        s => panic!("{s:?}"),
    }
    match validate_serial(&store(), "x", &log) {
        GateStep::Done(Err(e)) => assert_eq!(
            e.message(),
            "probe 'x' is not enrolled — enroll it first (`embarch-topology enroll`), with only \
             this board's probe attached"
        ),
        s => panic!("{s:?}"),
    }
}

#[test]
fn a_role_whose_board_was_never_read_is_not_enrolled() {
    let mut unread = board();
    unread.probe_serial = None;
    unread.hardware_id = None;
    let store = Store { boards: vec![unread], signals: Vec::new() };
    assert!(matches!(
        validate_role(&store, "dev-bench", &GateLog::new()),
        GateStep::Done(Err(ValidateError::NotEnrolled(_)))
    ));
}

#[test]
fn a_session_that_fails_is_refused_without_an_alert() {
    let fails = |session: SessionLog| {
        match validate_role(&store(), "dev-bench", &attached_log(session)) {
            GateStep::Done(Err(e)) => {
                assert!(matches!(e, ValidateError::Session { .. }));
                e.message()
            }
            s => panic!("{s:?}"),
        }
    };
    let why = || Some(Err("why".to_string()));
    let ok = || Some(Ok(()));
    let none = SessionLog::new;
    assert_eq!(
        fails(SessionLog { opened: why(), ..none() }),
        "failed to open the enrolled probe for the board-identity gate"
    );
    assert_eq!(
        fails(SessionLog { opened: ok(), powered: why(), ..none() }),
        "can't validate role 'dev-bench'"
    );
    assert_eq!(
        fails(SessionLog { opened: ok(), powered: ok(), attached: why(), ..none() }),
        "failed to attach to 'nRF54L15' for the board-identity gate"
    );
    assert_eq!(
        fails(SessionLog { opened: ok(), powered: ok(), attached: ok(), core: why(), ..none() }),
        "failed to select core 0 for the board-identity gate"
    );
    let unread = ReadError::Register { what: "failed to read X".into(), cause: "why".into() };
    assert_eq!(
        fails(SessionLog { identity: Some(Err(unread)), ..identified("") }),
        "failed to read X"
    );
}

#[test]
fn a_session_stands_where_its_first_failure_is() {
    assert_eq!(session_state(&SessionLog::new()), SessionState::Next(SessionStep::Open));
    let log = SessionLog {
        opened: Some(Ok(())),
        powered: Some(Err("0.10V".to_string())),
        ..SessionLog::new()
    };
    assert_eq!(
        session_state(&log),
        SessionState::Failed(SessionFault::Unpowered("0.10V".to_string()))
    );
    assert_eq!(session_state(&identified("ab")), SessionState::Identified("ab".to_string()));
}

// ---- enrolling -----------------------------------------------------------------------------

#[test]
fn enrolling_takes_its_steps_in_order() {
    let mut log = EnrollLog::new();
    assert_eq!(enroll("dut", "nRF54L15", None, &log), EnrollStep::ListProbes);
    log.probes = Some(vec![probe("j", Some("S1"))]);
    assert_eq!(
        enroll("dut", "nRF54L15", None, &log),
        EnrollStep::Session { probe: 0, chip: "nRF54L15".to_string(), step: SessionStep::Open }
    );
    log.session = identified("aabb");
    assert_eq!(enroll("dut", "nRF54L15", None, &log), EnrollStep::LoadStore);
    log.store = Some(store());
    assert_eq!(enroll("dut", "nRF54L15", None, &log), EnrollStep::ReadClock);
    log.clock = Some(clock(42));
    match enroll("dut", "nRF54L15", None, &log) {
        EnrollStep::Save(e) => {
            assert_eq!(
                e.board,
                EnrolledBoard {
                    probe_serial: Some("S1".to_string()),
                    role: DUT_ROLE.to_string(),
                    name: String::new(),
                    chip: "nRF54L15".to_string(),
                    hardware_id: Some("aabb".to_string()),
                    confirmed_at_utc_ms: Some(42),
                    link_port_serial: None,
                    link_port_interface: None,
                }
            );
            assert_eq!(e.displaced, None);
            assert_eq!(e.store.boards, vec![board(), e.board.clone()]);
        }
        s => panic!("{s:?}"),
    }
}

#[test]
fn link_facts_follow_the_probe_and_not_the_role() {
    let mut store = store();
    store.boards[0].link_port_serial = Some("BRIDGE".to_string());
    store.boards[0].link_port_interface = Some(2);
    store.boards[0].name = "nrf54l15dk".to_string();

    let again = enroll_identified(&store, "dev-bench", "nRF54L15", "serial", "new", 7);
    assert_eq!(again.displaced, None);
    assert_eq!(again.board.link_port_serial.as_deref(), Some("BRIDGE"));
    assert_eq!(again.board.link_port_interface, Some(2));
    assert_eq!(again.board.name, "nrf54l15dk");
    assert_eq!(again.store.boards.len(), 1);

    let moved = enroll_identified(&store, "dev-bench", "esp32c5", "S9", "new", 7);
    assert_eq!(moved.displaced, Some(store.boards[0].clone()));
    assert_eq!(moved.board.link_port_serial, None);
    assert_eq!(moved.board.link_port_interface, None);
    assert_eq!(moved.store.boards, vec![moved.board]);
}

#[test]
fn what_was_enrolled_validates_with_the_same_silicon_only() {
    let e = enroll_identified(&Store::default(), "dut", "nRF54L15", "serial", "aabb", 7);
    let (_, r) = run(&e.store, "dut", "aabb");
    assert_eq!(r.unwrap().board, e.board);
    let (_, r) = run(&e.store, "dut", "aabc");
    assert!(matches!(r, Err(ValidateError::Mismatch(_))));
}

#[test]
fn an_enrollment_is_refused_with_its_own_words() {
    let refused = |log: &EnrollLog| match enroll("dut", "nRF52840", None, log) {
        EnrollStep::Refused(e) => e,
        s => panic!("{s:?}"),
    };
    let mut log = EnrollLog::new();
    log.probes = Some(Vec::new());
    assert!(matches!(refused(&log), EnrollError::Select(_)));
    log.probes = Some(vec![probe("CMSIS", None)]);
    assert_eq!(
        refused(&log).message(),
        "the attached probe (CMSIS) reports no USB serial number — it can't be enrolled without \
         one to key on"
    );
    log.probes = Some(vec![probe("CMSIS", Some("S"))]);
    log.session.opened = Some(Err("busy".to_string()));
    assert_eq!(refused(&log).message(), "failed to open the attached debug probe");
    log.session.opened = Some(Ok(()));
    log.session.powered = Some(Err("0.00V".to_string()));
    assert_eq!(refused(&log).message(), "can't enroll");
    log.session.powered = Some(Ok(()));
    log.session.attached = Some(Err("no".to_string()));
    assert_eq!(refused(&log).message(), "failed to attach to 'nRF52840'");
    log.session.attached = Some(Ok(()));
    log.session.core = Some(Err("no".to_string()));
    assert_eq!(refused(&log).message(), "failed to select core 0");
    log.session.core = Some(Ok(()));
    log.session.identity = Some(Err(ReadError::Unsupported { chip: "z".to_string() }));
    assert!(refused(&log).message().starts_with("no hardware-id readback implemented"));
}
