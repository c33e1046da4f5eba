use embarch_topology::text::{
    contains, debug_opt_str, debug_opt_u8, join, same_ignoring_case, split_lines, split_words,
    starts_with, str_le, strip_end, to_decimal, to_hex, to_hex_fixed, to_lower, trim,
};

const SAMPLES: [&str; 14] = [
    "",
    " ",
    "abc",
    "ABC é ß Ω",
    "a\nb",
    "a\r\nb\r\n",
    "\n\n",
    "\r",
    "  two  words\t\n",
    "\u{a0}\u{2003}x\u{3000}",
    "a/b//",
    "///",
    "İ\u{85}z",
    "tail\r",
];

#[test]
fn texts_are_handled_as_the_standard_library_does() {
    for s in SAMPLES {
        assert_eq!(trim(s), s.trim(), "{s:?}");
        assert_eq!(split_lines(s), s.lines().collect::<Vec<_>>(), "{s:?}");
        assert_eq!(split_words(s), s.split_whitespace().collect::<Vec<_>>(), "{s:?}");
        assert_eq!(to_lower(s), s.to_ascii_lowercase(), "{s:?}");
        assert_eq!(strip_end(s, '/'), s.trim_end_matches('/'), "{s:?}");
        assert_eq!(debug_opt_str(&Some(s.to_string())), format!("{:?}", Some(s)), "{s:?}");
        for t in SAMPLES {
            assert_eq!(contains(s, t), s.contains(t), "{s:?} {t:?}");
            assert_eq!(starts_with(s, t), s.starts_with(t), "{s:?} {t:?}");
            assert_eq!(str_le(s, t), s <= t, "{s:?} {t:?}");
            assert_eq!(same_ignoring_case(s, t), s.eq_ignore_ascii_case(t), "{s:?} {t:?}");
        }
    }
    assert_eq!(debug_opt_str(&None), "None");
}

#[test]
fn numbers_are_written_as_the_standard_library_does() {
    for n in [0u64, 1, 9, 10, 15, 16, 255, 4884, 0x1fff_7594, u64::MAX] {
        assert_eq!(to_decimal(n), format!("{n}"));
        assert_eq!(to_hex(n), format!("{n:x}"));
        if n < 0x1_0000_0000 {
            assert_eq!(to_hex_fixed(n, 8), format!("{n:08x}"));
        }
    }
    assert_eq!(debug_opt_u8(Some(255)), "Some(255)");
    assert_eq!(debug_opt_u8(None), "None");
}

#[test]
fn every_white_space_character_is_white() {
    for c in (0..=0x3100u32).filter_map(char::from_u32) {
        assert_eq!(trim(&c.to_string()).is_empty(), c.is_whitespace(), "{c:?}");
    }
}

#[test]
fn parts_are_joined_with_what_stands_between() {
    let parts = |p: &[&str]| p.iter().map(|s| s.to_string()).collect::<Vec<_>>();
    assert_eq!(join(&parts(&["a", "", "b"]), ", "), "a, , b");
    assert_eq!(join(&parts(&["a"]), ", "), "a");
    assert_eq!(join(&parts(&[]), ", "), "");
}
