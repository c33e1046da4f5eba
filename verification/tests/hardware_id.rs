use embarch_topology::hardware::hardware_id::{
    classify_chip, esp32c5_expected_self_report, is_nordic_deviceid_chip, next_read,
    nordic_expected_self_report, read, register_addresses, render, ChipFamily, ReadError,
    ReadStep,
};
use embarch_topology::hardware::{compare_self_reported, SelfReportedIdentity};
use std::cell::RefCell;

#[test]
fn identical_ids_match_for_any_chip_without_needing_a_declared_relation() {
    assert_eq!(
        compare_self_reported("esp32c5", "aaaaaaaabbbbbbbb", "aaaaaaaabbbbbbbb"),
        SelfReportedIdentity::Match
    );
    assert_eq!(
        compare_self_reported("esp32c5", "aaaaaaaabbbbbbbb", "AAAAAAAABBBBBBBB"),
        SelfReportedIdentity::Match
    );
}

#[test]
fn the_real_nrf54l15_dev_bench_pair_matches() {
    assert_eq!(
        compare_self_reported("nRF54L15", "6fcddc36cb781b71", "cb781b716fcddc36"),
        SelfReportedIdentity::Match
    );
    assert_eq!(
        compare_self_reported("nRF54L15", "834f2559f10a6cdf", "cb781b716fcddc36"),
        SelfReportedIdentity::Mismatch
    );
}

#[test]
fn the_nordic_relation_covers_the_classic_families_too() {
    for chip in ["nRF52840", "nRF9160", "nRF54L10", "nRF54LM20A"] {
        assert_eq!(
            compare_self_reported(chip, "aabbccdd11223344", "11223344aabbccdd"),
            SelfReportedIdentity::Match,
            "{chip}"
        );
    }
}

#[test]
fn an_unrelated_chip_is_still_undeclared_not_a_pass() {
    assert_eq!(
        compare_self_reported("stm32f446xx", "aabbccdd11223344", "11223344aabbccdd"),
        SelfReportedIdentity::Undeclared
    );
}

#[test]
fn a_board_that_reported_nothing_is_distinguishable_from_one_that_disagreed() {
    assert_eq!(
        compare_self_reported("esp32c5", "aaaaaaaabbbbbbbb", ""),
        SelfReportedIdentity::NotReported
    );
    assert_eq!(
        compare_self_reported("esp32c5", "aaaaaaaabbbbbbbb", "ccccccccdddddddd"),
        SelfReportedIdentity::Mismatch
    );
}

fn esp32c5_pair(sys0: u32, sys1: u32) -> (String, String) {
    let jtag = format!("{sys0:08x}{sys1:08x}");
    let mac: [u8; 6] = [
        (sys1 >> 8) as u8,
        sys1 as u8,
        (sys0 >> 24) as u8,
        (sys0 >> 16) as u8,
        (sys0 >> 8) as u8,
        sys0 as u8,
    ];
    let self_reported = mac.iter().map(|b| format!("{b:02x}")).collect::<String>();
    (jtag, self_reported)
}

#[test]
fn an_esp32c5_reporting_its_own_base_mac_matches_the_jtag_read_pair() {
    let (jtag, self_reported) = esp32c5_pair(0x1234_5678, 0xa5a5_9abc);
    assert_eq!(self_reported, "9abc12345678");
    assert_eq!(
        compare_self_reported("esp32c5", &jtag, &self_reported),
        SelfReportedIdentity::Match
    );
    assert_eq!(render(&vec![0x1234_5678, 0xa5a5_9abc]), jtag);
    assert_eq!(esp32c5_expected_self_report(&jtag), Some(self_reported));
}

#[test]
fn a_different_esp32c5_board_on_the_link_is_a_mismatch() {
    let (jtag, _) = esp32c5_pair(0x1234_5678, 0xa5a5_9abc);
    let (_, other_board) = esp32c5_pair(0x8765_4321, 0xa5a5_1111);
    assert_eq!(
        compare_self_reported("esp32c5", &jtag, &other_board),
        SelfReportedIdentity::Mismatch
    );
}

#[test]
fn the_checksum_half_of_sys1_is_not_part_of_the_comparison() {
    let (jtag_a, a) = esp32c5_pair(0x1234_5678, 0x0000_9abc);
    let (jtag_b, b) = esp32c5_pair(0x1234_5678, 0xffff_9abc);
    assert_eq!(a, b);
    assert_eq!(esp32c5_expected_self_report(&jtag_a), Some(a));
    assert_eq!(esp32c5_expected_self_report(&jtag_b), Some(b));
}

#[test]
fn a_malformed_jtag_read_is_undeclared_rather_than_a_refusal() {
    assert_eq!(
        compare_self_reported("esp32c5", "not-hex", "9abc12345678"),
        SelfReportedIdentity::Undeclared
    );
}

#[test]
fn an_undeclared_relation_is_never_reported_as_a_match() {
    for reported in ["ccccccccdddddddd", "84f703aabbcc", "0"] {
        assert_ne!(
            compare_self_reported("some-future-chip", "aaaaaaaabbbbbbbb", reported),
            SelfReportedIdentity::Match
        );
    }
}

#[test]
fn unrecognized_chip_is_a_named_error_not_a_guess() {
    assert_eq!(
        classify_chip("STM32F407VG"),
        None,
        "STM32F407VG should fall through to the unrecognized-chip error arm"
    );
    assert_eq!(classify_chip("STM32H743ZI"), None);
    assert_eq!(classify_chip("STM32L476RG"), None);
}

#[test]
fn stm32g0_parts_get_the_uid_triple_whatever_the_package() {
    assert_eq!(classify_chip("STM32G0B1VE"), Some(ChipFamily::Stm32G0Uid));
    assert_eq!(classify_chip("STM32G0B1RE"), Some(ChipFamily::Stm32G0Uid));
    assert_eq!(classify_chip("stm32g031k8"), Some(ChipFamily::Stm32G0Uid));
}

#[test]
fn two_word_ids_keep_their_existing_sixteen_digit_shape() {
    let rendered = render(&vec![0x2f77_b9c3u32, 0xf85b_29e9]);
    assert_eq!(rendered, "2f77b9c3f85b29e9");
    assert_eq!(rendered.len(), 16);
}

#[test]
fn three_word_ids_render_twenty_four_digits() {
    let rendered = render(&vec![0x0000_0001u32, 0x0000_0002, 0x0000_0003]);
    assert_eq!(rendered, "000000010000000200000003");
}

#[test]
fn an_unlisted_nrf54l_name_still_gets_the_info_deviceid_pair() {
    assert_eq!(classify_chip("nRF54L47"), Some(ChipFamily::Nrf54InfoDeviceId));
    assert_eq!(classify_chip("nRF54LM10"), Some(ChipFamily::Nrf54InfoDeviceId));
}

#[test]
fn a_lowercase_suffixed_nrf54l_spelling_still_gets_the_info_deviceid_pair() {
    assert_eq!(classify_chip("nrf54l15_cpuapp"), Some(ChipFamily::Nrf54InfoDeviceId));
}

#[test]
fn an_nrf54h_name_is_a_named_error_rather_than_either_guess() {
    assert_eq!(classify_chip("nRF54H20"), None);
    assert_eq!(classify_chip("nrf54h20_cpuapp"), None);
}

#[test]
fn a_classic_nrf5_part_still_gets_the_classic_deviceid_pair() {
    assert_eq!(classify_chip("nRF52840"), Some(ChipFamily::NrfClassicDeviceId));
}

// ---- reading ------------------------------------------------------------------------

#[test]
fn the_registers_are_read_in_order() {
    for (chip, addresses) in [
        ("nRF54L15", vec![0x00FF_C304, 0x00FF_C308]),
        ("nRF9160", vec![0x1000_0060, 0x1000_0064]),
        ("esp32c5", vec![0x600B_4844, 0x600B_4848]),
        ("STM32G0B1VE", vec![0x1FFF_7590, 0x1FFF_7594, 0x1FFF_7598]),
    ] {
        let asked: RefCell<Vec<u64>> = RefCell::new(Vec::new());
        let id = read(
            |address| {
                asked.borrow_mut().push(address);
                Ok((address & 0xff) as u32)
            },
            chip,
        )
        .unwrap();
        assert_eq!(*asked.borrow(), addresses, "{chip}");
        let words: Vec<u32> = addresses.iter().map(|a| (a & 0xff) as u32).collect();
        assert_eq!(id, render(&words), "{chip}");
        assert_eq!(register_addresses(classify_chip(chip).unwrap()), addresses);
    }
}

#[test]
fn the_first_register_that_fails_ends_the_reading() {
    let asked: RefCell<usize> = RefCell::new(0);
    let e = read(
        |_| {
            *asked.borrow_mut() += 1;
            if *asked.borrow() == 2 {
                Err("fault".to_string())
            } else {
                Ok(7)
            }
        },
        "stm32g031k8",
    )
    .unwrap_err();
    assert_eq!(*asked.borrow(), 2);
    assert_eq!(e.message(), "failed to read UID[1] at 0x1fff7594");
    assert_eq!(
        e,
        ReadError::Register {
            what: "failed to read UID[1] at 0x1fff7594".to_string(),
            cause: "fault".to_string(),
        }
    );
}

#[test]
fn each_family_names_the_register_that_failed() {
    let message = |chip: &str, good: usize| {
        let mut reads: Vec<Result<u32, String>> = vec![Ok(0); good];
        reads.push(Err("x".to_string()));
        match next_read(chip, &reads) {
            ReadStep::Done(Err(e)) => e.message(),
            s => panic!("{s:?}"),
        }
    };
    assert_eq!(message("nRF52840", 0), "failed to read FICR.DEVICEID[0] at 0x10000060");
    assert_eq!(message("nRF54L15", 1), "failed to read FICR.INFO.DEVICEID[1] at 0xffc308");
    assert_eq!(message("esp32c5", 0), "failed to read EFUSE_RD_MAC_SYS0_REG");
    assert_eq!(message("esp32c5", 1), "failed to read EFUSE_RD_MAC_SYS1_REG");
}

#[test]
fn an_unsupported_chip_is_never_read() {
    let e = read(|_| panic!("nothing is known of its registers"), "nRF54H20").unwrap_err();
    assert_eq!(
        e.message(),
        "no hardware-id readback implemented for chip 'nRF54H20' — enrollment/gating only covers \
         Nordic nRF5x/nRF9x/nRF54L, Espressif esp32c5 and ST STM32G0 today"
    );
}

#[test]
fn the_next_register_follows_the_words_so_far() {
    assert_eq!(
        next_read("nRF54L15", &vec![Ok(1)]),
        ReadStep::Read { address: 0x00FF_C308 }
    );
    assert_eq!(
        next_read("nRF54L15", &vec![Ok(1), Ok(2)]),
        ReadStep::Done(Ok("0000000100000002".to_string()))
    );
}

// ---- reports ---------------------------------------------------------------------------

#[test]
fn the_nordic_report_is_the_swapped_pair() {
    assert_eq!(
        nordic_expected_self_report("6fcddc36cb781b71").as_deref(),
        Some("cb781b716fcddc36")
    );
    assert_eq!(
        nordic_expected_self_report("cb781b716fcddc36").as_deref(),
        Some("6fcddc36cb781b71")
    );
    assert_eq!(nordic_expected_self_report("6fcddc36cb781b7"), None);
    assert_eq!(nordic_expected_self_report("6fcddc36cb781b7x"), None);
}

#[test]
fn the_esp32c5_report_needs_sixteen_digits() {
    assert_eq!(
        esp32c5_expected_self_report("1234ABCDA5A59ABC").as_deref(),
        Some("9abc1234abcd")
    );
    assert_eq!(esp32c5_expected_self_report("+2345678a5a59abc"), None);
    assert_eq!(esp32c5_expected_self_report("aaaaaaaébbbbbbb"), None);
    assert_eq!(esp32c5_expected_self_report(""), None);
}

#[test]
fn only_an_exact_esp32c5_has_the_esp32c5_relation() {
    assert_eq!(classify_chip("ESP32C5"), None);
    assert_eq!(
        compare_self_reported("ESP32C5", "12345678a5a59abc", "9abc12345678"),
        SelfReportedIdentity::Undeclared
    );
    assert!(is_nordic_deviceid_chip("NRF9151"));
    assert!(!is_nordic_deviceid_chip("esp32c5"));
}
