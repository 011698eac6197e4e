use amdtelem::telem::{first_word, parse_mhz, parse_pct, parse_sensor_value};

#[test]
fn mhz_reads_leading_number() {
    assert_eq!(parse_mhz("772 MHz (MCLK)"), Some(772));
    assert_eq!(parse_mhz("\t  85 MHz (SCLK)"), Some(85));
}

#[test]
fn mhz_rejects_non_numbers() {
    assert_eq!(parse_mhz(""), None);
    assert_eq!(parse_mhz("   "), None);
    assert_eq!(parse_mhz("MHz 772"), None);
    assert_eq!(parse_mhz("772MHz"), None);
    assert_eq!(parse_mhz("-5 MHz"), None);
}

#[test]
fn pct_accepts_plus_sign_and_rejects_lone_plus() {
    assert_eq!(parse_pct("+5 %"), Some(5));
    assert_eq!(parse_pct("+ 5 %"), None);
    assert_eq!(parse_pct("++5"), None);
}

#[test]
fn pct_reads_leading_zeros() {
    assert_eq!(parse_pct("007 %"), Some(7));
    assert_eq!(parse_pct("0"), Some(0));
}

#[test]
fn u64_bounds() {
    assert_eq!(parse_pct("18446744073709551615"), Some(u64::MAX));
    assert_eq!(parse_pct("18446744073709551616"), None);
    assert_eq!(parse_pct("99999999999999999999999"), None);
}

#[test]
fn unicode_white_space_separates_words() {
    assert_eq!(parse_pct("\u{3000}42\u{a0}%"), Some(42));
    assert_eq!(parse_pct("\u{2003}13\u{85}x"), Some(13));
}

#[test]
fn sensor_value_trims_newline() {
    assert_eq!(parse_sensor_value("42000\n"), Some(42000));
    assert_eq!(parse_sensor_value("  7 \r\n"), Some(7));
    assert_eq!(parse_sensor_value("\n"), None);
    assert_eq!(parse_sensor_value("4 2"), None);
    assert_eq!(parse_sensor_value("x12"), None);
}

#[test]
fn sensor_value_round_trip() {
    for n in [0u64, 1, 9, 10, 99, 100, 12345, 4_294_967_296, u64::MAX] {
        assert_eq!(parse_sensor_value(&format!("{}\n", n)), Some(n));
        assert_eq!(parse_sensor_value(&format!(" \t{} ", n)), Some(n));
    }
}

#[test]
fn leading_number_law_on_values() {
    for n in [0u64, 7, 772, 1_000_000, u64::MAX] {
        assert_eq!(parse_mhz(&format!("  {} MHz (MCLK)", n)), Some(n));
    }
}

#[test]
fn first_word_of_line() {
    assert_eq!(first_word("  13.24 W (current SoC including CPU)"), Some("13.24".to_string()));
    assert_eq!(first_word(" \t "), None);
    assert_eq!(first_word("héllo wörld"), Some("héllo".to_string()));
}
