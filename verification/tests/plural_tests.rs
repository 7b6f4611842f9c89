use ftl::plural::{base_language, plural_rule, plural_rule_or_fallback};

#[test]
fn plural_rules_basic() {
    assert_eq!(plural_rule("en", "one"), Some("n == 1"));
    assert_eq!(plural_rule("en", "few"), None);
    assert_eq!(plural_rule("fr", "one"), Some("n == 0 || n == 1"));
    assert_eq!(plural_rule("zh", "one"), None);
    assert_eq!(plural_rule("zh-CN", "one"), None);
}

#[test]
fn plural_rules_fallback() {
    assert_eq!(plural_rule_or_fallback("xx", "one"), Some("n == 1"));
    assert_eq!(plural_rule_or_fallback("xx", "few"), None);
    assert_eq!(plural_rule_or_fallback("xx", "many"), None);
    assert_eq!(plural_rule_or_fallback("en", "few"), None);
}

#[test]
fn plural_rules_complex() {
    assert_eq!(plural_rule("ar", "zero"), Some("n == 0"));
    assert_eq!(plural_rule("ar", "one"), Some("n == 1"));
    assert_eq!(plural_rule("ar", "two"), Some("n == 2"));
    let ar_few = plural_rule("ar", "few").unwrap();
    assert!(ar_few.contains("n % 100"));
    assert!(ar_few.contains("3"));
    assert!(ar_few.contains("10"));

    let pl_few = plural_rule("pl", "few").unwrap();
    assert!(pl_few.contains("n % 10"));
    assert!(pl_few.contains("2"));
    assert!(pl_few.contains("4"));

    let ru_many = plural_rule("ru", "many").unwrap();
    assert!(ru_many.contains("n % 10"));
    assert!(ru_many.contains("0") || ru_many.contains("5"));
}

#[test]
fn plural_locale_fallback() {
    assert_eq!(plural_rule("zh-CN", "other"), None);
    assert_eq!(plural_rule("zh-CN", "one"), None);
}

#[test]
fn plural_unsupported_language() {
    assert_eq!(plural_rule("xx", "one"), None);
    assert_eq!(plural_rule_or_fallback("xx", "one"), Some("n == 1"));
    assert_eq!(plural_rule_or_fallback("xx", "zero"), Some("n == 0"));
    assert_eq!(plural_rule_or_fallback("xx", "two"), Some("n == 2"));
    assert_eq!(plural_rule_or_fallback("xx", "few"), None);
    assert_eq!(plural_rule_or_fallback("xx", "many"), None);
}

#[test]
fn plural_rule_of_known_languages() {
    assert_eq!(plural_rule("cs", "few"), Some("n >= 2 && n <= 4"));
    assert_eq!(plural_rule("es", "many"), Some("n != 0 && n % 1000000 == 0"));
    assert_eq!(plural_rule("ja", "one"), None);
    assert_eq!(plural_rule_or_fallback("ja", "one"), Some("n == 1"));
    assert_eq!(plural_rule_or_fallback("ar", "few"), Some("n % 100 >= 3 && n % 100 <= 10"));
}

#[test]
fn base_language_of_tags() {
    assert_eq!(base_language("zh-CN").as_deref(), Some("zh"));
    assert_eq!(base_language("sr-Latn-RS").as_deref(), Some("sr"));
    assert_eq!(base_language("en"), None);
}
