use embarch_topology::hardware::enrollment::{EnrolledBoard, Store};
use embarch_topology::hardware::port::{
    describe, detect, detected_by_for_vid, enumerate, enumerate_in, normalize, select, DetectError,
    DetectedPort, EnumerationFailed, ExcludingRule, Filter, NotFound, SelectError, SerialPortInfo,
    UsbPortInfo, DECLARED_SERIAL, DEFAULT_PRODUCT_NEEDLE, DEV_BENCH_ROLE, ENUMERATED,
    ESPRESSIF_VID, SEGGER_VID, SILABS_VID,
};
use embarch_topology::hardware::{list_serial_ports, resolve_dev_bench_port};

fn usb(
    port_name: &str,
    vid: u16,
    product: Option<&str>,
    serial: Option<&str>,
    interface: Option<u8>,
) -> SerialPortInfo {
    SerialPortInfo {
        port_name: port_name.to_string(),
        usb: Some(UsbPortInfo {
            vid,
            pid: 0x0105,
            serial_number: serial.map(str::to_string),
            product: product.map(str::to_string),
            interface,
        }),
    }
}

fn other(port_name: &str) -> SerialPortInfo {
    SerialPortInfo { port_name: port_name.to_string(), usb: None }
}

fn default_filter() -> Filter {
    Filter {
        serial: None,
        product_needle: Some(DEFAULT_PRODUCT_NEEDLE.to_string()),
        product_needle_is_default: true,
        serial_is_fallback: true,
        interface: None,
        no_vid_gate: false,
    }
}

fn not_found(e: SelectError) -> NotFound {
    match e {
        SelectError::NotFound(n) => n,
        SelectError::Ambiguous(_) => panic!("NotFound"),
    }
}

#[test]
fn picks_the_only_segger_port_among_noise() {
    let ports = vec![
        other("/dev/ttyS0"),
        usb("/dev/ttyACM0", 0x0483, Some("STM32 STLink"), None, Some(2)),
        usb("/dev/ttyACM1", SEGGER_VID, Some("J-Link"), Some("760001"), Some(0)),
    ];

    let found = select(&ports, &default_filter()).unwrap();
    assert_eq!(found.port_name, "/dev/ttyACM1");
    assert_eq!(found.detected_by, "segger-vid-match");
}

#[test]
fn windows_friendly_name_matches_the_same_default_needle() {
    let ports =
        vec![usb("COM4", SEGGER_VID, Some("JLink CDC UART Port"), Some("760001"), Some(0))];
    assert_eq!(select(&ports, &default_filter()).unwrap().port_name, "COM4");
}

#[test]
fn a_port_reporting_no_product_string_is_not_excluded() {
    let ports = vec![usb("/dev/ttyACM0", SEGGER_VID, None, Some("760001"), Some(0))];
    assert_eq!(select(&ports, &default_filter()).unwrap().port_name, "/dev/ttyACM0");
}

#[test]
fn absence_is_reported_as_not_found() {
    let ports = vec![usb("/dev/ttyACM0", 0x0483, Some("STM32 STLink"), None, Some(2))];
    let not_found = not_found(select(&ports, &default_filter()).unwrap_err());
    assert_eq!(not_found.candidate_vid_ports_seen, 0);
    assert_eq!(not_found.total_ports_seen, 1);
    assert_eq!(not_found.excluding_rule, ExcludingRule::NoRecognizedVid);
    assert!(
        !not_found.likely_wsl2,
        "select is the pure half and must never claim a real-machine read"
    );
}

#[test]
fn zero_ports_on_what_looks_like_wsl2_leads_with_split_host() {
    let not_found = NotFound {
        candidate_vid_ports_seen: 0,
        total_ports_seen: 0,
        excluding_rule: ExcludingRule::NoRecognizedVid,
        likely_wsl2: true,
    };
    let msg = not_found.message();
    assert!(
        msg.find("WSL2").unwrap() < msg.find("USB connection").unwrap(),
        "the split-host possibility must come before the cable check: {msg}"
    );
    assert!(msg.contains("embarch-topology status"), "{msg}");
}

#[test]
fn ports_visible_but_wrong_vid_does_not_get_the_split_host_lead_in() {
    let not_found = NotFound {
        candidate_vid_ports_seen: 0,
        total_ports_seen: 1,
        excluding_rule: ExcludingRule::NoRecognizedVid,
        likely_wsl2: true,
    };
    let msg = not_found.message();
    assert!(!msg.contains("WSL2"), "{msg}");
    assert!(msg.contains("USB connection"), "{msg}");
}

#[test]
fn a_declared_serial_matching_nothing_routes_to_clearing_the_serial() {
    let ports = vec![usb("/dev/ttyACM0", SEGGER_VID, Some("J-Link"), Some("760001"), Some(0))];
    let filter = Filter {
        serial: Some("no-such-serial".to_string()),
        serial_is_fallback: false,
        ..default_filter()
    };
    let not_found = not_found(select(&ports, &filter).unwrap_err());
    assert_eq!(not_found.excluding_rule, ExcludingRule::DeclaredSerial);
    let msg = not_found.message();
    assert!(msg.contains("set-dev-bench-link --clear-serial"), "{msg}");
}

#[test]
fn a_declared_interface_matching_nothing_routes_to_clearing_the_interface() {
    let ports = vec![usb("/dev/ttyACM0", SEGGER_VID, Some("J-Link"), Some("760001"), Some(0))];
    let filter = Filter { interface: Some(9), ..default_filter() };
    let not_found = not_found(select(&ports, &filter).unwrap_err());
    assert_eq!(not_found.excluding_rule, ExcludingRule::DeclaredInterface);
    let msg = not_found.message();
    assert!(msg.contains("set-dev-bench-link --clear-interface"), "{msg}");
}

#[test]
fn no_candidate_vid_at_all_keeps_the_generic_usb_advice() {
    let ports = vec![usb("/dev/ttyACM0", 0x0483, Some("STM32 STLink"), None, Some(2))];
    let not_found = not_found(select(&ports, &default_filter()).unwrap_err());
    assert_eq!(not_found.excluding_rule, ExcludingRule::NoRecognizedVid);
    let msg = not_found.message();
    assert!(msg.contains("check dev-bench's USB connection"), "{msg}");
    assert!(!msg.contains("set-dev-bench-link"), "{msg}");
}

#[test]
fn serial_number_disambiguates_two_probes_via_fallback() {
    let ports = vec![
        usb("/dev/ttyACM0", SEGGER_VID, Some("J-Link"), Some("760001"), Some(0)),
        usb("/dev/ttyACM1", SEGGER_VID, Some("J-Link"), Some("760002"), Some(0)),
    ];

    let err = select(&ports, &default_filter()).unwrap_err();
    assert!(!matches!(err, SelectError::NotFound(_)));
    assert!(err.message().contains("ambiguous"));

    let filter = Filter { serial: Some("760002".to_string()), ..default_filter() };
    assert_eq!(select(&ports, &filter).unwrap().port_name, "/dev/ttyACM1");
}

#[test]
fn two_vcoms_on_one_probe_resolve_to_the_lowest_interface() {
    let ports = vec![
        usb("/dev/ttyACM1", SEGGER_VID, Some("J-Link"), Some("760001"), Some(2)),
        usb("/dev/ttyACM0", SEGGER_VID, Some("J-Link"), Some("760001"), Some(0)),
    ];
    assert_eq!(select(&ports, &default_filter()).unwrap().port_name, "/dev/ttyACM0");
}

#[test]
fn an_espressif_vid_only_port_is_not_a_link_candidate() {
    let ports = vec![usb("COM12", ESPRESSIF_VID, Some("USB Serial Device"), None, Some(0))];
    let err = select(&ports, &default_filter()).unwrap_err();
    assert_eq!(not_found(err).candidate_vid_ports_seen, 0);
}

#[test]
fn a_segger_probe_and_a_silabs_bridge_together_are_ambiguous_with_no_fallback() {
    let ports = vec![
        usb("/dev/ttyACM0", SEGGER_VID, Some("J-Link"), None, Some(0)),
        usb(
            "/dev/ttyACM1",
            SILABS_VID,
            Some("Silicon Labs CP210x USB to UART Bridge"),
            None,
            Some(0),
        ),
    ];
    let err = select(&ports, &default_filter()).unwrap_err();
    assert!(err.message().contains("ambiguous"));
}

#[test]
fn a_declared_link_serial_resolves_the_real_ambiguity_a_dut_probe_introduces() {
    let ports = vec![
        usb(
            "COM13",
            SILABS_VID,
            Some("Silicon Labs CP210x USB to UART Bridge"),
            Some("D607104BD96EF0119D5C489B1045C30F"),
            None,
        ),
        usb("COM5", SEGGER_VID, Some("JLink CDC UART Port"), Some("000852006107"), Some(0)),
    ];

    let unresolved = Filter { serial: None, serial_is_fallback: true, ..default_filter() };
    let err = select(&ports, &unresolved).unwrap_err();
    assert!(err.message().contains("ambiguous"));

    let declared = Filter {
        serial: Some("D607104BD96EF0119D5C489B1045C30F".to_string()),
        serial_is_fallback: false,
        ..default_filter()
    };
    assert_eq!(select(&ports, &declared).unwrap().port_name, "COM13");
}

#[test]
fn a_two_vcom_probe_needs_a_declared_interface_not_a_declared_serial() {
    let ports = vec![
        usb("COM16", SEGGER_VID, Some("JLink CDC UART Port"), Some("001057729826"), Some(0)),
        usb("COM17", SEGGER_VID, Some("JLink CDC UART Port"), Some("001057729826"), Some(2)),
        usb("COM5", SEGGER_VID, Some("JLink CDC UART Port"), Some("000852006107"), Some(0)),
    ];

    let guessing = Filter {
        serial: Some("001057729826".to_string()),
        serial_is_fallback: true,
        ..default_filter()
    };
    let guessed = select(&ports, &guessing).unwrap();
    assert_eq!(guessed.port_name, "COM16");
    assert_eq!(
        guessed.guessed_among,
        Some(2),
        "a pick among several VCOMs must be reported as a guess, not as an answer"
    );

    let declared = Filter { interface: Some(2), ..guessing.clone() };
    let found = select(&ports, &declared).unwrap();
    assert_eq!(found.port_name, "COM17");
    assert_eq!(found.detected_by, "segger-vid-match");
    assert_eq!(
        found.guessed_among, None,
        "a declared interface determines the port; nothing was guessed"
    );

    let err = select(&ports, &Filter { serial: None, ..default_filter() }).unwrap_err();
    assert!(err.message().contains("ambiguous"), "{}", err.message());
}

#[test]
fn a_fallback_serial_mismatch_does_not_exclude_the_only_candidate() {
    let ports = vec![usb(
        "COM13",
        SILABS_VID,
        Some("Silicon Labs CP210x USB to UART Bridge"),
        Some("D607104BD96EF0119D5C489B1045C30F"),
        Some(0),
    )];
    let filter = Filter {
        serial: Some("D0:CF:13:ED:F9:30".to_string()),
        serial_is_fallback: true,
        ..default_filter()
    };
    assert_eq!(select(&ports, &filter).unwrap().port_name, "COM13");
}

#[test]
fn a_silabs_vid_port_is_picked_without_a_product_string_match() {
    let ports = vec![usb(
        "COM13",
        SILABS_VID,
        Some("Silicon Labs CP210x USB to UART Bridge"),
        Some("D607104BD96EF0119D5C489B1045C30F"),
        Some(0),
    )];
    let found = select(&ports, &default_filter()).unwrap();
    assert_eq!(found.port_name, "COM13");
    assert_eq!(found.detected_by, "silabs-vid-match");
}

#[test]
fn enumerate_offers_every_usb_port_whatever_its_vid() {
    let ports = vec![
        usb("COM13", SILABS_VID, Some("CP210x"), Some("AAA"), Some(0)),
        usb("COM3", 0x0403, Some("FT232R USB UART"), Some("FTBBB"), None),
        other("COM1"),
    ];
    let listed = enumerate_in(&ports);
    let names: Vec<&str> = listed.iter().map(|p| p.port_name.as_str()).collect();
    assert_eq!(
        names,
        vec!["COM13", "COM3"],
        "an unrecognized-VID bridge must be offered, and a port with no USB identity must not"
    );
    assert!(listed.iter().all(|p| p.detected_by == ENUMERATED));
}

#[test]
fn enumerate_is_not_select_with_the_gate_off() {
    let ports = vec![
        usb("COM13", SILABS_VID, Some("CP210x"), Some("AAA"), Some(0)),
        usb("COM3", 0x0403, Some("FT232R USB UART"), Some("FTBBB"), None),
    ];
    assert_eq!(select(&ports, &default_filter()).unwrap().port_name, "COM13");
    assert_eq!(enumerate_in(&ports).len(), 2);
}

#[test]
fn a_vid_rule_that_narrowed_nothing_is_still_credited_when_the_gate_ran() {
    let ports = vec![
        usb("COM16", SEGGER_VID, Some("JLink CDC UART Port"), Some("001057729826"), Some(0)),
        usb("COM17", SEGGER_VID, Some("JLink CDC UART Port"), Some("001057729826"), Some(2)),
        usb("COM5", SEGGER_VID, Some("JLink CDC UART Port"), Some("000852006107"), Some(0)),
    ];
    let filter = Filter {
        serial: Some("001057729826".to_string()),
        serial_is_fallback: false,
        interface: Some(2),
        ..default_filter()
    };
    let found = select(&ports, &filter).unwrap();
    assert_eq!(found.port_name, "COM17");
    assert_eq!(
        found.detected_by, "segger-vid-match",
        "the VID gate ran and did exclude every other vendor, so it is credited even though \
         the declared serial and interface did the narrowing among these three"
    );
}

// ---- the texts, to the letter ----------------------------------------------------

#[test]
fn each_reason_has_its_own_advice() {
    let head = "no embarch-dev-bench serial port found (3 serial port(s) visible, 2 with a \
                recognized link VID (0x1366 SEGGER / 0x10c4 Silicon Labs — 0x303a Espressif's \
                native USB-Serial/JTAG is JTAG-only, see that constant's own doc comment))";
    let of = |excluding_rule: ExcludingRule| {
        NotFound {
            candidate_vid_ports_seen: 2,
            total_ports_seen: 3,
            excluding_rule,
            likely_wsl2: false,
        }
        .message()
    };
    assert_eq!(
        of(ExcludingRule::NoRecognizedVid),
        format!(
            "{head} — check dev-bench's USB connection (and `usbipd attach`, if Core and the \
             board are on different hosts)"
        )
    );
    assert_eq!(
        of(ExcludingRule::DeclaredSerial),
        format!(
            "{head} — the declared link port serial no longer matches any attached port; clear \
             it with `embarch-topology set-dev-bench-link --clear-serial` (falls back to the \
             enrolled probe's own serial), or declare the current one with `embarch-topology \
             set-dev-bench-link --serial <serial>`"
        )
    );
    assert_eq!(
        of(ExcludingRule::DeclaredInterface),
        format!(
            "{head} — the declared link port interface matches no attached port; clear it with \
             `embarch-topology set-dev-bench-link --clear-interface`, or declare the current one \
             with `embarch-topology set-dev-bench-link --interface <n>`"
        )
    );
    assert_eq!(
        of(ExcludingRule::Other),
        format!(
            "{head} — a matching probe/board is attached but enrollment's dev-bench-role \
             fallback excluded it; re-enroll dev-bench (`embarch-topology enroll --role \
             dev-bench`) with only its own probe attached"
        )
    );
}

#[test]
fn an_ambiguous_answer_lists_the_candidates_in_port_order() {
    let ports = vec![
        usb("COM9", SEGGER_VID, Some("J-Link"), Some("760\"2"), Some(1)),
        usb("COM8", SILABS_VID, None, None, None),
    ];
    let err = select(&ports, &default_filter()).unwrap_err();
    assert_eq!(
        err.message(),
        "ambiguous embarch-dev-bench detection — 2 candidate ports match:\n  \
         COM8 (pid 0x0105, serial None, product None, interface None)\n  \
         COM9 (pid 0x0105, serial Some(\"760\\\"2\"), product Some(\"J-Link\"), interface \
         Some(1))\nif dev-bench's runtime link is on its own USB device (a UART bridge, separate \
         from its JTAG probe), declare that port's own serial with `embarch-topology \
         set-dev-bench-link --serial <serial>`; otherwise re-enroll the intended board's serial \
         via `embarch-topology enroll --role dev-bench`, or physically disconnect the other \
         candidate"
    );
}

#[test]
fn a_candidate_without_a_product_id_is_described_with_zero() {
    let c = DetectedPort {
        port_name: "p".to_string(),
        detected_by: ENUMERATED.to_string(),
        vendor_id: None,
        product_id: None,
        serial_number: None,
        product: None,
        interface: None,
        guessed_among: None,
    };
    assert_eq!(
        describe(&vec![c]),
        "  p (pid 0x0000, serial None, product None, interface None)"
    );
    assert_eq!(describe(&Vec::new()), "");
}

// ---- edges ----------------------------------------------------------------------------

#[test]
fn a_product_needle_that_excludes_everything_is_the_other_rule() {
    let ports = vec![usb("COM4", SEGGER_VID, Some("Widget"), Some("1"), Some(0))];
    let e = not_found(select(&ports, &default_filter()).unwrap_err());
    assert_eq!(e.excluding_rule, ExcludingRule::Other);
    assert_eq!(e.candidate_vid_ports_seen, 1);
}

#[test]
fn a_chosen_needle_is_asked_of_every_vendor() {
    let ports = vec![usb("COM4", SILABS_VID, Some("CP210x"), Some("1"), Some(0))];
    let filter = Filter { product_needle_is_default: false, ..default_filter() };
    let e = not_found(select(&ports, &filter).unwrap_err());
    assert_eq!(e.excluding_rule, ExcludingRule::Other);
}

#[test]
fn the_first_rule_that_left_nothing_is_named() {
    let ports = vec![usb("COM4", SEGGER_VID, Some("Widget"), Some("1"), Some(0))];
    let filter = Filter {
        serial: Some("2".to_string()),
        serial_is_fallback: false,
        interface: Some(7),
        ..default_filter()
    };
    let e = not_found(select(&ports, &filter).unwrap_err());
    assert_eq!(e.excluding_rule, ExcludingRule::DeclaredSerial);
    let e = not_found(select(&Vec::new(), &filter).unwrap_err());
    assert_eq!(e.excluding_rule, ExcludingRule::NoRecognizedVid);
}

#[test]
fn serials_are_compared_without_case_and_punctuation() {
    let ports = vec![usb("COM4", SEGGER_VID, Some("J-Link"), Some("d0cf-13ed"), Some(0))];
    let filter = Filter {
        serial: Some("D0:CF:13:ED".to_string()),
        serial_is_fallback: false,
        ..default_filter()
    };
    assert_eq!(select(&ports, &filter).unwrap().port_name, "COM4");
    assert_eq!(normalize("J-Link CDC Ünit 3"), "jlinkcdcnit3");
}

#[test]
fn a_known_interface_sorts_behind_an_unknown_one_and_is_ambiguous() {
    let ports = vec![
        usb("COM4", SEGGER_VID, Some("J-Link"), Some("1"), Some(0)),
        usb("COM5", SEGGER_VID, Some("J-Link"), Some("1"), None),
    ];
    match select(&ports, &default_filter()).unwrap_err() {
        SelectError::Ambiguous(cs) => {
            let names: Vec<&str> = cs.iter().map(|c| c.port_name.as_str()).collect();
            assert_eq!(names, vec!["COM5", "COM4"]);
        }
        SelectError::NotFound(_) => panic!("two candidates are left"),
    }
}

#[test]
fn provenance_names_the_rule_for_each_vendor() {
    assert_eq!(detected_by_for_vid(SEGGER_VID), "segger-vid-match");
    assert_eq!(detected_by_for_vid(ESPRESSIF_VID), "espressif-vid-match");
    assert_eq!(detected_by_for_vid(SILABS_VID), "silabs-vid-match");
    assert_eq!(detected_by_for_vid(0x0403), "vid-match");
}

#[test]
fn a_declared_serial_is_the_provenance_with_the_gate_off() {
    let ports = vec![usb("COM4", SEGGER_VID, Some("J-Link"), Some("1"), Some(0))];
    let found = select(&ports, &Filter::for_declared_serial("1")).unwrap();
    assert_eq!(found.detected_by, DECLARED_SERIAL);
    assert_eq!(found.vendor_id, Some(SEGGER_VID));
    assert_eq!(found.product_id, Some(0x0105));
}

// ---- on this machine ----------------------------------------------------------------------

fn bench_row(link_serial: Option<&str>, interface: Option<u8>) -> EnrolledBoard {
    EnrolledBoard {
        probe_serial: Some("760001".to_string()),
        role: DEV_BENCH_ROLE.to_string(),
        name: String::new(),
        chip: "nRF54L15".to_string(),
        hardware_id: Some("6fcddc36cb781b71".to_string()),
        confirmed_at_utc_ms: Some(1),
        link_port_serial: link_serial.map(str::to_string),
        link_port_interface: interface,
    }
}

fn store_of(boards: Vec<EnrolledBoard>) -> Result<Store, String> {
    Ok(Store { boards, signals: Vec::new() })
}

#[test]
fn a_declared_link_serial_is_preferred_and_narrows_hard() {
    let f = Filter::resolve(&store_of(vec![bench_row(Some("BRIDGE"), Some(2))]));
    assert_eq!(f.serial.as_deref(), Some("BRIDGE"));
    assert!(!f.serial_is_fallback);
    assert_eq!(f.interface, Some(2));
    assert_eq!(f.product_needle.as_deref(), Some("jlink"));
    assert!(f.product_needle_is_default);
    assert!(!f.no_vid_gate);
}

#[test]
fn the_probe_serial_is_a_fallback() {
    let f = Filter::resolve(&store_of(vec![bench_row(None, None)]));
    assert_eq!(f.serial.as_deref(), Some("760001"));
    assert!(f.serial_is_fallback);
    assert_eq!(f.interface, None);
}

#[test]
fn nothing_enrolled_and_an_unreadable_table_are_alike() {
    let none = Filter::resolve(&store_of(Vec::new()));
    assert_eq!(none.serial, None);
    assert!(none.serial_is_fallback);
    assert_eq!(none.interface, None);
    assert_eq!(Filter::resolve(&Err("corrupt".to_string())), none);
}

#[test]
fn detection_fills_in_the_machine() {
    let ports = Ok(Vec::new());
    match detect(&store_of(Vec::new()), &ports, true) {
        Err(DetectError::Select(SelectError::NotFound(n))) => {
            assert!(n.likely_wsl2);
            assert_eq!(n.total_ports_seen, 0);
            assert!(n.message().contains("WSL2"));
        }
        r => panic!("{r:?}"),
    }
    let ports = Ok(vec![
        usb("COM16", SEGGER_VID, Some("J-Link"), Some("760001"), Some(0)),
        usb("COM17", SEGGER_VID, Some("J-Link"), Some("760001"), Some(2)),
    ]);
    let found =
        resolve_dev_bench_port(&store_of(vec![bench_row(None, Some(2))]), &ports, false).unwrap();
    assert_eq!(found.port_name, "COM17");
    assert_eq!(found.guessed_among, None);
}

#[test]
fn a_failed_enumeration_is_an_error_of_its_own() {
    let ports: Result<Vec<SerialPortInfo>, String> = Err("denied".to_string());
    let e = detect(&store_of(Vec::new()), &ports, false).unwrap_err();
    assert_eq!(e, DetectError::Enumeration(EnumerationFailed { cause: "denied".to_string() }));
    assert_eq!(e.message(), "failed to enumerate serial ports");
    assert_eq!(enumerate(&ports).unwrap_err().cause, "denied");
    let ports = Ok(vec![usb("b", 1, None, None, None), usb("a", 2, None, None, None)]);
    let names: Vec<String> =
        list_serial_ports(&ports).unwrap().into_iter().map(|p| p.port_name).collect();
    assert_eq!(names, vec!["a", "b"]);
}
