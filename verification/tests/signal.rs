use embarch_topology::hardware::enrollment::Store;
use embarch_topology::hardware::port::{
    self, Filter, SelectError, SerialPortInfo, UsbPortInfo, SEGGER_VID, SILABS_VID,
};
use embarch_topology::hardware::signal::{
    resolve_link_port, Route, SignalDirection, SignalError, SignalLink,
};
use embarch_topology::hardware::{
    declare_signal, find_signal, list_signals, remove_signal, resolve_signal_port, validate_signal,
};

fn usb(port_name: &str, vid: u16, product: Option<&str>, serial: Option<&str>) -> SerialPortInfo {
    SerialPortInfo {
        port_name: port_name.to_string(),
        usb: Some(UsbPortInfo {
            vid,
            pid: 0x6001,
            serial_number: serial.map(str::to_string),
            product: product.map(str::to_string),
            interface: None,
        }),
    }
}

fn outpost_link() -> SignalLink {
    SignalLink {
        name: "outpost".to_string(),
        origin_role: "dut".to_string(),
        direction: SignalDirection::DutToHost,
        route: Route::Direct { port_serial: "FT9ABCDE".to_string() },
    }
}

fn relayed_link() -> SignalLink {
    SignalLink {
        route: Route::ViaDevBench { rx_pin: "P0.04".to_string(), tx_pin: "P0.05".to_string() },
        ..outpost_link()
    }
}

fn no_ports() -> Result<Vec<SerialPortInfo>, String> {
    Ok(Vec::new())
}

#[test]
fn a_declared_serial_resolves_a_bridge_no_vid_rule_would_have_kept() {
    let ports = vec![
        usb("COM13", SILABS_VID, Some("CP210x"), Some("D607104B")),
        usb("COM5", SEGGER_VID, Some("JLink CDC UART Port"), Some("000852006107")),
        usb("COM21", 0x0403, Some("FT232R USB UART"), Some("FT9ABCDE")),
    ];
    let found = port::select(&ports, &Filter::for_declared_serial("FT9ABCDE")).unwrap();
    assert_eq!(found.port_name, "COM21");
}

#[test]
fn a_declared_serial_narrows_past_the_third_device_the_bypass_adds() {
    let ports = vec![
        usb("COM13", SILABS_VID, Some("CP210x"), Some("D607104B")),
        usb("COM5", SEGGER_VID, Some("JLink CDC UART Port"), Some("000852006107")),
        usb("COM21", SILABS_VID, Some("CP210x"), Some("BRIDGE-2")),
    ];
    assert_eq!(
        port::select(&ports, &Filter::for_declared_serial("BRIDGE-2")).unwrap().port_name,
        "COM21"
    );
    assert!(port::select(&ports, &Filter::for_declared_serial("NOT-HERE")).is_err());
}

#[test]
fn dev_benchs_own_resolution_still_gates_on_vid() {
    assert!(!Filter::default().no_vid_gate);
    let ports = vec![usb("COM21", 0x0403, Some("FT232R USB UART"), Some("FT9ABCDE"))];
    let err = port::select(&ports, &Filter::default()).unwrap_err();
    assert!(matches!(err, SelectError::NotFound(_)));
}

#[test]
fn a_via_dev_bench_route_reports_that_it_has_no_port_of_its_own() {
    let err = resolve_link_port(&relayed_link(), &no_ports()).unwrap_err();
    let mismatch = match err {
        SignalError::Mismatch(m) => m,
        e => panic!("SignalMismatch: {e:?}"),
    };
    assert_eq!(mismatch.declared_port_serial, None);
    assert!(mismatch.reason.contains("via-dev-bench"));
    assert_eq!(
        mismatch.message(),
        "signal-mismatch: signal 'outpost' (from role 'dut') — its route is via-dev-bench, so it \
         has no port of its own — it arrives relayed over dev-bench's existing link, resolved by \
         resolve_dev_bench_port()"
    );
}

#[test]
fn declaring_again_moves_the_route() {
    let mut store = Store::default();
    declare_signal(&mut store, outpost_link()).unwrap();
    declare_signal(&mut store, outpost_link()).unwrap();
    assert_eq!(store.signals.len(), 1);
    let other = SignalLink { name: "trace".to_string(), ..outpost_link() };
    declare_signal(&mut store, other.clone()).unwrap();
    declare_signal(&mut store, relayed_link()).unwrap();
    assert_eq!(find_signal(&store, "outpost"), Some(relayed_link()));
    assert_eq!(list_signals(store), vec![other, relayed_link()]);
}

#[test]
fn a_blank_name_is_refused_and_changes_nothing() {
    let mut store = Store::default();
    let link = SignalLink { name: " \t\u{2003}".to_string(), ..outpost_link() };
    let e = declare_signal(&mut store, link).unwrap_err();
    assert_eq!(e.message(), "a signal needs a name; it is what a Study taps it by");
    assert_eq!(store, Store::default());
}

#[test]
fn removing_says_whether_there_was_one() {
    let mut store = Store::default();
    declare_signal(&mut store, outpost_link()).unwrap();
    assert!(!remove_signal(&mut store, "trace"));
    assert_eq!(store.signals.len(), 1);
    assert!(remove_signal(&mut store, "outpost"));
    assert_eq!(store, Store::default());
    assert_eq!(find_signal(&store, "outpost"), None);
}

#[test]
fn a_direct_signal_is_where_its_bridge_is() {
    let mut store = Store::default();
    declare_signal(&mut store, outpost_link()).unwrap();
    let ports = Ok(vec![usb("COM21", 0x0403, Some("FT232R USB UART"), Some("FT9ABCDE"))]);
    let found = resolve_signal_port(&store, "outpost", &ports).unwrap();
    assert_eq!(found.port_name, "COM21");
    assert_eq!(found.detected_by, "declared-serial");
    assert_eq!(validate_signal(&store, "outpost", &ports), Ok(outpost_link()));
}

#[test]
fn a_missing_bridge_is_a_mismatch_that_names_it() {
    let mut store = Store::default();
    declare_signal(&mut store, outpost_link()).unwrap();
    let e = validate_signal(&store, "outpost", &no_ports()).unwrap_err();
    assert!(e.message().starts_with(
        "signal-mismatch: signal 'outpost' (from role 'dut') — its declared bridge (USB serial \
         'FT9ABCDE') is not currently enumerable: no embarch-dev-bench serial port found (0 \
         serial port(s) visible, 0 with a recognized link VID"
    ));
    match e {
        SignalError::Mismatch(m) => {
            assert_eq!(m.declared_port_serial.as_deref(), Some("FT9ABCDE"));
        }
        e => panic!("{e:?}"),
    }
}

#[test]
fn an_undeclared_signal_is_told_apart() {
    let store = Store::default();
    let e = resolve_signal_port(&store, "outpost", &no_ports()).unwrap_err();
    assert_eq!(
        e.message(),
        "no signal declared under the name 'outpost' — declare it first via \
         embarch_topology::hardware::declare_signal, since a wire between two headers is \
         invisible to software and can only ever be stated"
    );
    assert_eq!(validate_signal(&store, "outpost", &no_ports()).unwrap_err(), e);
}

#[test]
fn enumeration_matters_to_a_direct_route_only() {
    let failed: Result<Vec<SerialPortInfo>, String> = Err("denied".to_string());
    let mut store = Store::default();
    declare_signal(&mut store, outpost_link()).unwrap();
    let e = validate_signal(&store, "outpost", &failed).unwrap_err();
    assert_eq!(e.message(), "failed to enumerate serial ports");
    declare_signal(&mut store, relayed_link()).unwrap();
    assert_eq!(validate_signal(&store, "outpost", &failed), Ok(relayed_link()));
}
