use embarch_topology::hardware::enrollment::{
    amend, find, find_by_role, is_canonical_role, list, load_store, now_utc_ms, remove_by_role,
    set_role_board, upsert, EnrolledBoard, LinkEdit, Store, CANONICAL_ROLES, DUT_ROLE,
};
use embarch_topology::hardware::port::DEV_BENCH_ROLE;
use embarch_topology::hardware::signal::{Route, SignalDirection, SignalLink};
use embarch_topology::hardware::{
    clear_dev_bench_link_port_interface, clear_dev_bench_link_port_serial, find_enrolled_by_role,
    list_enrolled, set_dev_bench_link_port_interface, set_dev_bench_link_port_serial,
};

fn sample(serial: &str) -> EnrolledBoard {
    EnrolledBoard {
        probe_serial: Some(serial.to_string()),
        role: DUT_ROLE.to_string(),
        name: "reference-dut-fw".to_string(),
        chip: "nRF54L15".to_string(),
        hardware_id: Some("deadbeefcafef00d".to_string()),
        confirmed_at_utc_ms: Some(1_755_000_000_000),
        link_port_serial: None,
        link_port_interface: None,
    }
}

fn store_of(boards: Vec<EnrolledBoard>) -> Store {
    Store { boards, signals: Vec::new() }
}

#[test]
fn missing_file_is_no_entries_not_an_error() {
    let store = load_store(None);
    assert!(store.boards.is_empty());
    assert!(store.signals.is_empty());
    assert_eq!(load_store(Some(store_of(vec![sample("1")]))), store_of(vec![sample("1")]));
}

#[test]
fn upsert_then_find_round_trips() {
    let board = sample("000852006107");
    let mut store = Store::default();
    upsert(&mut store, board.clone());
    assert_eq!(find(&store, "000852006107"), Some(board));
    assert_eq!(find(&store, "000852006108"), None);
}

#[test]
fn find_by_role_matches_on_role_not_serial() {
    let mut dev_bench = sample("D0:CF:13:ED:F9:30");
    dev_bench.role = "dev-bench".to_string();
    dev_bench.chip = "esp32c5".to_string();
    let store = store_of(vec![sample("000852006107"), dev_bench.clone()]);

    assert_eq!(find_by_role(&store, "dev-bench"), Some(dev_bench.clone()));
    assert_eq!(find_enrolled_by_role(&store, "dev-bench"), Some(dev_bench));
    assert_eq!(find_by_role(&store, "no-such-role"), None);
}

#[test]
fn upsert_moves_a_role_to_a_new_probe_and_reports_the_displaced_board() {
    let mut old_bench = sample("D0:CF:13:ED:F9:30");
    old_bench.role = "dev-bench".to_string();
    old_bench.chip = "esp32c5".to_string();
    old_bench.link_port_serial = Some("D607104BD96EF0119D5C489B1045C30F".to_string());
    let dut = sample("000852006107");
    let mut store = store_of(vec![old_bench.clone(), dut.clone()]);

    let mut new_bench = sample("001057729826");
    new_bench.role = "dev-bench".to_string();
    new_bench.chip = "nRF54L15".to_string();

    let displaced = upsert(&mut store, new_bench.clone());
    assert_eq!(displaced, Some(old_bench));

    let boards = list(store);
    assert_eq!(
        boards.iter().filter(|b| b.role == "dev-bench").count(),
        1,
        "a role must be held by exactly one board"
    );
    let bench = boards.iter().find(|b| b.role == "dev-bench").unwrap();
    assert_eq!(bench.probe_serial.as_deref(), Some("001057729826"));
    assert_eq!(
        bench.link_port_serial, None,
        "the displaced board's link port must not be inherited by different hardware"
    );
    assert!(
        boards.iter().any(|b| b.probe_serial == dut.probe_serial),
        "an unrelated role must be left alone"
    );
}

#[test]
fn upsert_of_the_same_probe_displaces_nothing() {
    let board = sample("001057729826");
    let mut store = Store::default();
    assert_eq!(upsert(&mut store, board.clone()), None);
    assert_eq!(upsert(&mut store, board), None);
    assert_eq!(store.boards.len(), 1);
}

#[test]
fn upsert_overwrites_rather_than_duplicates() {
    let mut store = Store::default();
    store.boards.push(sample("same-serial"));

    let mut updated = sample("same-serial");
    updated.hardware_id = Some("a-new-hardware-id".to_string());
    upsert(&mut store, updated.clone());

    assert_eq!(
        store.boards.len(),
        1,
        "re-enrolling the same serial must not accumulate a second row"
    );
    assert_eq!(store.boards[0], updated);
}

#[test]
fn clear_link_port_serial_unsets_a_declared_one_and_round_trips() {
    let mut dev_bench = sample("D0:CF:13:ED:F9:30");
    dev_bench.role = "dev-bench".to_string();
    dev_bench.chip = "esp32c5".to_string();
    dev_bench.link_port_serial = Some("D607104BD96EF0119D5C489B1045C30F".to_string());
    let mut store = store_of(vec![dev_bench]);

    clear_dev_bench_link_port_serial(&mut store).unwrap();
    assert_eq!(store.boards[0].link_port_serial, None);
}

#[test]
fn clear_link_port_interface_unsets_a_declared_one_and_round_trips() {
    let mut dev_bench = sample("001057729826");
    dev_bench.role = "dev-bench".to_string();
    dev_bench.link_port_interface = Some(2);
    let mut store = store_of(vec![dev_bench]);

    clear_dev_bench_link_port_interface(&mut store).unwrap();
    assert_eq!(store.boards[0].link_port_interface, None);
}

#[test]
fn set_link_port_serial_amends_an_existing_role_and_round_trips() {
    let mut dev_bench = sample("D0:CF:13:ED:F9:30");
    dev_bench.role = "dev-bench".to_string();
    dev_bench.chip = "esp32c5".to_string();
    let mut store = store_of(vec![dev_bench]);

    set_dev_bench_link_port_serial(&mut store, "D607104BD96EF0119D5C489B1045C30F").unwrap();
    assert_eq!(
        store.boards[0].link_port_serial.as_deref(),
        Some("D607104BD96EF0119D5C489B1045C30F")
    );
}

#[test]
fn remove_by_role_takes_every_row_holding_it_and_returns_one() {
    let mut first = sample("D0:CF:13:ED:F9:30");
    first.role = "client-nucleo".to_string();
    let mut second = sample("001057729826");
    second.role = "client-nucleo".to_string();
    let keeper = sample("000852006107");
    let mut store = store_of(vec![first.clone(), second, keeper.clone()]);

    let removed = remove_by_role(&mut store, "client-nucleo");
    assert_eq!(removed, Some(first));
    assert_eq!(
        list_enrolled(store),
        vec![keeper],
        "every row holding the role must go, and only those"
    );
}

#[test]
fn remove_by_role_reports_nothing_removed_without_touching_the_store() {
    let mut store = store_of(vec![sample("000852006107")]);
    let before = store.clone();

    assert_eq!(remove_by_role(&mut store, "dev-bench"), None);
    assert_eq!(store, before);
}

#[test]
fn only_the_two_canonical_roles_are_roles() {
    assert!(is_canonical_role("dut"));
    assert!(is_canonical_role("dev-bench"));
    assert!(!is_canonical_role("client-nucleo"));
    assert!(!is_canonical_role("DUT"), "the wire spelling is lowercase; the label is not");
    assert!(!is_canonical_role(""));
    assert_eq!(CANONICAL_ROLES, ["dev-bench", "dut"]);
}

#[test]
fn a_board_type_can_be_declared_for_a_role_with_no_probe() {
    let mut store = Store::default();
    let row = set_role_board(&mut store, DUT_ROLE, "nrf54l15dk", "nRF54L15");
    assert_eq!(row.name, "nrf54l15dk");
    assert_eq!(row.probe_serial, None);
    assert_eq!(row.hardware_id, None);
    assert_eq!(row.confirmed_at_utc_ms, None, "never verified is not verified at the epoch");

    assert_eq!(store.boards.len(), 1);
    assert_eq!(store.boards[0].role, DUT_ROLE);
    assert_eq!(store.boards[0], row);
}

#[test]
fn setting_a_board_type_keeps_the_probe_half_untouched() {
    let mut enrolled = sample("000852006107");
    enrolled.name = "nrf54l15dk".to_string();
    let mut store = store_of(vec![enrolled.clone()]);

    let row = set_role_board(&mut store, DUT_ROLE, "client-nucleo", "STM32G0B1VE");
    assert_eq!(row.name, "client-nucleo");
    assert_eq!(row.chip, "STM32G0B1VE");
    assert_eq!(row.probe_serial, enrolled.probe_serial, "the probe binding is a separate fact");
    assert_eq!(
        row.hardware_id, enrolled.hardware_id,
        "the recorded identity stays for validate to disagree with"
    );
    assert_eq!(store.boards, vec![row]);
}

#[test]
fn two_boardless_roles_do_not_displace_each_other() {
    let mut store = Store::default();
    set_role_board(&mut store, DUT_ROLE, "nrf54l15dk", "nRF54L15");
    set_role_board(&mut store, DEV_BENCH_ROLE, "esp32c5_devkitc", "esp32c5");
    assert_eq!(store.boards.len(), 2, "{:?}", store.boards);

    let mut enrolled = sample("000852006107");
    enrolled.name = "nrf54l15dk".to_string();
    upsert(&mut store, enrolled);
    assert_eq!(store.boards.len(), 2, "{:?}", store.boards);
    assert_eq!(
        store.boards.iter().filter(|b| b.probe_serial.is_none()).count(),
        1,
        "the bench role keeps its boardless row"
    );

    let mut unread = sample("x");
    unread.probe_serial = None;
    assert!(upsert(&mut store, unread).is_some());
    assert_eq!(store.boards.len(), 2, "a row without a probe shares none");
}

// ---- more of the table ------------------------------------------------------------

#[test]
fn a_probe_that_moves_to_another_role_leaves_its_old_one() {
    let mut store = store_of(vec![sample("1")]);
    let mut bench = sample("1");
    bench.role = DEV_BENCH_ROLE.to_string();
    assert_eq!(upsert(&mut store, bench.clone()), None, "no board lost the role");
    assert_eq!(store.boards, vec![bench]);
}

#[test]
fn only_the_first_of_several_displaced_rows_is_reported() {
    let mut store = store_of(vec![sample("1"), sample("2"), sample("3")]);
    assert_eq!(upsert(&mut store, sample("2")), Some(sample("1")));
    assert_eq!(store.boards, vec![sample("2")]);
}

#[test]
fn the_first_row_of_a_role_is_the_one_that_counts() {
    let mut store = store_of(vec![sample("1"), sample("2")]);
    assert_eq!(find_by_role(&store, DUT_ROLE), Some(sample("1")));
    set_role_board(&mut store, DUT_ROLE, "n", "c");
    assert_eq!(store.boards[0].name, "n");
    assert_eq!(store.boards[1], sample("2"));
}

#[test]
fn a_link_fact_needs_an_enrolled_role() {
    let mut store = store_of(vec![sample("1")]);
    let before = store.clone();
    let e = set_dev_bench_link_port_serial(&mut store, "x").unwrap_err();
    assert_eq!(e.message(), "no board enrolled as role 'dev-bench' yet; enroll it first");
    assert!(set_dev_bench_link_port_interface(&mut store, 2).is_err());
    assert!(clear_dev_bench_link_port_serial(&mut store).is_err());
    assert!(clear_dev_bench_link_port_interface(&mut store).is_err());
    assert_eq!(store, before);
}

#[test]
fn link_facts_are_set_and_cleared_apart() {
    let mut store = store_of(vec![sample("1")]);
    let before = store.clone();
    amend(&mut store, DUT_ROLE, LinkEdit::Serial(Some("s".to_string()))).unwrap();
    amend(&mut store, DUT_ROLE, LinkEdit::Interface(Some(2))).unwrap();
    assert_eq!(store.boards[0].link_port_serial.as_deref(), Some("s"));
    assert_eq!(store.boards[0].link_port_interface, Some(2));
    amend(&mut store, DUT_ROLE, LinkEdit::Serial(None)).unwrap();
    assert_eq!(store.boards[0].link_port_interface, Some(2));
    amend(&mut store, DUT_ROLE, LinkEdit::Interface(None)).unwrap();
    assert_eq!(store, before);
}

#[test]
fn what_is_done_to_boards_leaves_signals() {
    let link = SignalLink {
        name: "s".to_string(),
        origin_role: "dut".to_string(),
        direction: SignalDirection::Bidirectional,
        route: Route::Direct { port_serial: "p".to_string() },
    };
    let mut store = Store { boards: vec![sample("1")], signals: vec![link.clone()] };
    upsert(&mut store, sample("2"));
    set_role_board(&mut store, DEV_BENCH_ROLE, "n", "c");
    set_dev_bench_link_port_interface(&mut store, 1).unwrap();
    remove_by_role(&mut store, DUT_ROLE);
    assert_eq!(store.signals, vec![link]);
    assert_eq!(store.boards.len(), 1);
}

#[test]
fn removing_takes_back_a_fresh_enrollment() {
    let mut bench = sample("2");
    bench.role = DEV_BENCH_ROLE.to_string();
    let mut store = store_of(vec![sample("1")]);
    let before = store.clone();
    upsert(&mut store, bench.clone());
    assert_eq!(remove_by_role(&mut store, DEV_BENCH_ROLE), Some(bench));
    assert_eq!(store, before);
}

#[test]
fn a_clock_reading_is_cut_to_milliseconds_that_fit() {
    assert_eq!(now_utc_ms(Some(1_755_000_000_000)), 1_755_000_000_000);
    assert_eq!(now_utc_ms(None), 0);
    assert_eq!(now_utc_ms(Some((1u128 << 64) + 5)), 5);
}
