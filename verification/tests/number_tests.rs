use ftl::number::{extract_currency_placement, extract_pattern_suffix, format_currency_text, percent_suffix,
    write_currency, CurrencyPlacement};

#[test]
fn currency_prefix_placement() {
    assert!(matches!(extract_currency_placement("¤#,##0.00"), Some(CurrencyPlacement::Prefix)));
}

#[test]
fn currency_suffix_placement() {
    assert!(matches!(extract_currency_placement("#,##0.00¤"), Some(CurrencyPlacement::Suffix)));
}

#[test]
fn currency_no_placement() {
    assert!(extract_currency_placement("#,##0.00").is_none());
}

#[test]
fn pct_suffix() {
    assert_eq!(extract_pattern_suffix("#,##0%").as_deref(), Some("%"));
}

#[test]
fn pct_no_suffix() {
    assert_eq!(extract_pattern_suffix("#,##0"), None);
}

#[test]
fn pct_only_symbol() {
    assert_eq!(extract_pattern_suffix("%%%"), None);
}

#[test]
fn pct_suffix_with_space() {
    assert_eq!(extract_pattern_suffix("#,##0\u{a0}%").as_deref(), Some("\u{a0}%"));
    assert_eq!(percent_suffix(Some("#,##0\u{a0}%")), "\u{a0}%");
    assert_eq!(percent_suffix(Some("#,##0")), "%");
    assert_eq!(percent_suffix(None), "%");
}

#[test]
fn currency_label_spacing() {
    let mut out = String::new();
    write_currency(&mut out, "$", "12.34", CurrencyPlacement::Prefix);
    assert_eq!(out, "$12.34");
    let mut out = String::new();
    write_currency(&mut out, "USD", "5.00", CurrencyPlacement::Prefix);
    assert_eq!(out, "USD 5.00");
    let mut out = String::from(">");
    write_currency(&mut out, "€", "3,50", CurrencyPlacement::Suffix);
    assert_eq!(out, ">3,50€");
}

#[test]
fn currency_text_choices() {
    let mut out = String::new();
    format_currency_text(&mut out, "12.34", Some("USD"), None, Some(("$", "US Dollar")), Some("¤#,##0.00"));
    assert_eq!(out, "$12.34");
    let mut out = String::new();
    format_currency_text(&mut out, "5.00", Some("USD"), Some("code"), Some(("$", "US Dollar")), Some("¤#,##0.00"));
    assert_eq!(out, "USD 5.00");
    let mut out = String::new();
    format_currency_text(&mut out, "1.00", Some("USD"), Some("name"), Some(("$", "US Dollar")), None);
    assert_eq!(out, "US Dollar 1.00");
    let mut out = String::new();
    format_currency_text(&mut out, "9.99", Some("XYZ"), None, None, Some("¤#,##0.00"));
    assert_eq!(out, "XYZ 9.99");
    let mut out = String::new();
    format_currency_text(&mut out, "9.99", None, None, None, None);
    assert_eq!(out, "9.99");
    let mut out = String::new();
    format_currency_text(&mut out, "12,34", Some("EUR"), None, Some(("€", "euro")), Some("#,##0.00\u{a0}¤"));
    assert_eq!(out, "12,34€");
}
