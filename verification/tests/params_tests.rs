use ftl::ast::{Element, KeyType, ParamType, Variant};
use ftl::keyed::keyed_get;
use ftl::params::{collect_params_with_context, infer_selector_type, try_collect_params};

fn text(s: &str) -> Element {
    Element::Text(s.to_string())
}

fn var(s: &str) -> Element {
    Element::VarRef(s.to_string())
}

fn variant(key: KeyType, elements: Vec<Element>, default: bool) -> Variant {
    Variant { key, elements, default }
}

fn ident(s: &str) -> KeyType {
    KeyType::Ident(s.to_string())
}

fn call(func: &str, v: &str, ty: &str, named: Vec<(String, String)>) -> Element {
    Element::BuiltInCall { func_name: func.to_string(), var_name: v.to_string(), ty_name: ty.to_string(), named_args: named }
}

fn params(elems: Vec<Element>) -> Vec<(String, ParamType)> {
    collect_params_with_context(&elems, "test")
}

fn conflict(elems: Vec<Element>, ctx: &str) -> String {
    try_collect_params(&elems, ctx).unwrap_err()
}

#[test]
fn collect_params_simple() {
    let map = params(vec![text("a"), var("name"), text("b")]);
    assert_eq!(map.len(), 1);
    assert_eq!(keyed_get(&map, "name"), Some(&ParamType::Str));
}

#[test]
fn collect_params_selector_overrides() {
    let map = params(vec![
        var("x"),
        Element::Select { selector: "x".into(), variants: vec![variant(ident("one"), vec![text("a")], true)] },
    ]);
    assert_eq!(keyed_get(&map, "x"), Some(&ParamType::Num));
}

#[test]
fn infer_string_selector() {
    let map = params(vec![Element::Select {
        selector: "gender".into(),
        variants: vec![variant(ident("male"), vec![text("a")], false), variant(ident("other"), vec![text("b")], true)],
    }]);
    assert_eq!(keyed_get(&map, "gender"), Some(&ParamType::Str));
}

#[test]
fn collect_params_interpolation_and_string_selector() {
    let map = params(vec![
        var("x"),
        Element::Select {
            selector: "x".into(),
            variants: vec![variant(ident("male"), vec![text("a")], false), variant(ident("other"), vec![text("b")], true)],
        },
    ]);
    assert_eq!(keyed_get(&map, "x"), Some(&ParamType::Str));
}

#[test]
fn collect_params_string_selector_then_interpolation() {
    let map = params(vec![
        Element::Select { selector: "x".into(), variants: vec![variant(ident("male"), vec![text("a")], true)] },
        var("x"),
    ]);
    assert_eq!(keyed_get(&map, "x"), Some(&ParamType::Str));
}

#[test]
fn builtin_call_custom_function() {
    let map = params(vec![call("HTML", "input", "Html", vec![("class".to_string(), "btn".to_string())])]);
    assert_eq!(keyed_get(&map, "input"), Some(&ParamType::Builtin("Html".to_string())));
}

#[test]
fn builtin_call_number_infers_num_parameter() {
    let map = params(vec![call("NUMBER", "count", "", vec![])]);
    assert_eq!(keyed_get(&map, "count"), Some(&ParamType::Num));
}

#[test]
fn builtin_call_datetime_infers_num_parameter() {
    let map = params(vec![call("DATETIME", "date", "", vec![])]);
    assert_eq!(keyed_get(&map, "date"), Some(&ParamType::Num));
}

#[test]
fn term_ref_propagates_args() {
    let map = params(vec![
        Element::TermRef {
            name: "link".to_string(),
            attribute: None,
            args: vec![("url".to_string(), var("url"))],
            positional: vec![],
        },
        var("url"),
    ]);
    assert_eq!(keyed_get(&map, "url"), Some(&ParamType::Str));
}

#[test]
fn term_attr_select_propagates_elements() {
    let map = params(vec![Element::TermAttrSelect {
        term: "link".to_string(),
        attr: "text".to_string(),
        variants: vec![variant(ident("text"), vec![var("label")], true)],
    }]);
    assert_eq!(keyed_get(&map, "label"), Some(&ParamType::Str));
}

#[test]
fn infer_selector_type_num_via_digit_key() {
    let variants = vec![
        variant(KeyType::Num("1".into()), vec![text("one")], false),
        variant(ident("other"), vec![text("many")], true),
    ];
    assert_eq!(infer_selector_type(&variants), ParamType::Num);
}

#[test]
fn infer_selector_type_ident_but_non_numeric_is_str() {
    let variants = vec![
        variant(ident("male"), vec![text("m")], false),
        variant(ident("female"), vec![text("f")], false),
        variant(ident("other"), vec![text("o")], true),
    ];
    assert_eq!(infer_selector_type(&variants), ParamType::Str);
}

#[test]
fn builtin_merge_same_type() {
    let map = params(vec![
        call("HTML", "input", "Html", vec![("class".to_string(), "btn".to_string())]),
        call("HTML", "input", "Html", vec![("id".to_string(), "x".to_string())]),
    ]);
    assert_eq!(keyed_get(&map, "input"), Some(&ParamType::Builtin("Html".to_string())));
}

#[test]
fn builtin_then_interpolation_is_refused() {
    let e = conflict(vec![call("HTML", "input", "Html", vec![]), var("input")], "test");
    assert!(e.contains("conflicting inferred types"), "got {e}");
}

#[test]
fn interpolation_then_builtin_is_refused() {
    let e = conflict(vec![var("input"), call("HTML", "input", "Html", vec![])], "test");
    assert!(e.contains("conflicting inferred types"), "got {e}");
}

#[test]
fn two_builtin_types_are_refused() {
    let e = conflict(vec![call("CUSTOM_A", "x", "CustomA", vec![]), call("CUSTOM_B", "x", "CustomB", vec![])], "test");
    assert_eq!(e, "Parameter 'x' has conflicting built-in types 'CustomA' and 'CustomB' in test");
}

#[test]
fn string_and_numeric_selector_are_refused() {
    let e = conflict(
        vec![
            Element::Select {
                selector: "x".into(),
                variants: vec![variant(ident("male"), vec![text("a")], false), variant(ident("other"), vec![text("b")], true)],
            },
            Element::Select {
                selector: "x".into(),
                variants: vec![
                    variant(KeyType::Num("0".into()), vec![text("c")], false),
                    variant(ident("other"), vec![text("d")], true),
                ],
            },
        ],
        "test message",
    );
    assert_eq!(e, "Parameter 'x' has conflicting inferred types in test message: Str vs Num");
}

#[test]
fn params_come_out_in_name_order() {
    let map = params(vec![var("zeta"), var("alpha"), call("NUMBER", "mid", "", vec![])]);
    let names: Vec<&str> = map.iter().map(|(k, _)| k.as_str()).collect();
    assert_eq!(names, vec!["alpha", "mid", "zeta"]);
}
