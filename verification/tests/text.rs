use cosmic_applet_system_monitor::number::{push_decimal, show_tenths, RoundedTenths};
use cosmic_applet_system_monitor::order::str_less;
use cosmic_applet_system_monitor::text::{chars_of, contains, ends_with, starts_with, trim};

#[test]
fn trims_unicode_whitespace() {
    assert_eq!(trim("  0x10de\n"), "0x10de");
    assert_eq!(trim("\u{3000}\tx y\u{a0}"), "x y");
    assert_eq!(trim(" \n "), "");
    assert_eq!(trim("abc"), "abc");
    let s = "\u{85}\u{2028} mixed\u{200a}";
    assert_eq!(trim(s), s.trim());
}

#[test]
fn searches_substrings() {
    let s = chars_of("temp12_input");
    assert!(starts_with(&s, &chars_of("temp")));
    assert!(ends_with(&s, &chars_of("_input")));
    assert!(!ends_with(&s, &chars_of("_label")));
    assert!(contains(&s, &chars_of("12")));
    assert!(contains(&s, &chars_of("")));
    assert!(!contains(&chars_of("cp"), &chars_of("cpu")));
}

#[test]
fn writes_decimals() {
    for n in [0u128, 7, 10, 99, 100, 12345, u128::MAX] {
        let mut s = String::from("#");
        push_decimal(&mut s, n);
        assert_eq!(s, format!("#{n}"));
    }
    assert_eq!(show_tenths(RoundedTenths::Number { negative: false, tenths: 5 }), "0.5");
    assert_eq!(show_tenths(RoundedTenths::Number { negative: true, tenths: 1234 }), "-123.4");
    assert_eq!(show_tenths(RoundedTenths::Infinite { negative: false }), "inf");
}

#[test]
fn orders_names_like_str_cmp() {
    let names = ["AMD (card1)", "AMD (card10)", "GPU", "Intel (card0)", "NVIDIA", "nvidia", "é", ""];
    for a in names {
        for b in names {
            assert_eq!(str_less(a, b), a < b, "{a} < {b}");
        }
    }
}
