use ftl::util::{escape_str, sanitize, sanitize_const, sanitize_upper, split_name_parts};

#[test]
fn sanitize_lower() {
    assert_eq!(sanitize("en"), "en");
    assert_eq!(sanitize("zh-CN"), "zh_cn");
    assert_eq!(sanitize("zh-TW"), "zh_tw");
    assert_eq!(sanitize("pt-BR"), "pt_br");
}

#[test]
fn sanitize_pascal() {
    assert_eq!(sanitize_upper("en"), "En");
    assert_eq!(sanitize_upper("zh-CN"), "ZhCn");
    assert_eq!(sanitize_upper("zh-TW"), "ZhTw");
    assert_eq!(sanitize_upper("pt-BR"), "PtBr");
}

#[test]
fn sanitize_screaming() {
    assert_eq!(sanitize_const("en"), "EN");
    assert_eq!(sanitize_const("zh-CN"), "ZH_CN");
    assert_eq!(sanitize_const("zh-TW"), "ZH_TW");
    assert_eq!(sanitize_const("pt-BR"), "PT_BR");
}

#[test]
fn escape_text_cases() {
    assert_eq!(escape_str("hello"), "hello");
    assert_eq!(escape_str("he\"llo"), "he\\\"llo");
    assert_eq!(escape_str("a\nb"), "a\\nb");
    assert_eq!(escape_str("a\\b"), "a\\\\b");
    assert_eq!(escape_str("\t"), "\\t");
    assert_eq!(escape_str("\r"), "\\r");
    assert_eq!(escape_str("\x00"), "\\u{0000}");
    assert_eq!(escape_str("\x1b"), "\\u{001B}");
    assert_eq!(escape_str("\x7f"), "\\u{007F}");
}

#[test]
fn sanitize_upper_edge_cases() {
    assert_eq!(sanitize_upper("zh-"), "Zh");
    assert_eq!(sanitize_upper("-cn"), "Cn");
    assert_eq!(sanitize_upper("--"), "");
}

#[test]
fn sanitize_leaves_no_separators() {
    for s in ["a-b.c", "--..", "x.y-Z", "pt-BR", ".-.-"] {
        let r = sanitize(s);
        assert!(!r.contains('-') && !r.contains('.'), "got {r}");
    }
    assert_eq!(sanitize("A.B-c"), "a_b_c");
}

#[test]
fn sanitize_dots_and_unicode() {
    assert_eq!(sanitize_const("save.label"), "SAVE_LABEL");
    assert_eq!(sanitize_upper("sr-latn-rs"), "SrLatnRs");
    assert_eq!(sanitize_const("straße"), "STRASSE");
    assert_eq!(sanitize_upper("éa-b"), "ÉaB");
}

#[test]
fn escape_keeps_other_characters() {
    assert_eq!(escape_str("héllo wörld"), "héllo wörld");
    assert_eq!(escape_str("\u{85}"), "\\u{0085}");
    assert_eq!(escape_str(""), "");
}

#[test]
fn split_name_parts_drops_empty_parts() {
    assert_eq!(split_name_parts("a--b..c"), vec!["a", "b", "c"]);
    assert_eq!(split_name_parts("-."), Vec::<String>::new());
}
