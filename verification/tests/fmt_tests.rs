use ftl::ast::{Element, KeyType, ParamType, Variant};
use ftl::builtin::{BuiltInArgType, BuiltInFuncDef, BuiltInNamedArg};
use ftl::fmt::{capacity_expr, emit_num_convert, emit_push_statements, format_builtin_arg, gen_fn_decl,
    generate_one_function, has_select, is_pure_text, variant_arm_pattern, variant_arm_pattern_num};

fn no_builtins() -> Vec<(String, BuiltInFuncDef)> {
    Vec::new()
}

fn text(s: &str) -> Element {
    Element::Text(s.to_string())
}

fn var(s: &str) -> Element {
    Element::VarRef(s.to_string())
}

fn p(name: &str, t: ParamType) -> (String, ParamType) {
    (name.to_string(), t)
}

fn named(ftl: &str, t: BuiltInArgType) -> BuiltInNamedArg {
    BuiltInNamedArg { ftl_name: ftl.to_string(), rust_name: ftl.to_string(), arg_type: t }
}

fn pair(a: &str, b: &str) -> (String, String) {
    (a.to_string(), b.to_string())
}

#[test]
fn detect_pure_text() {
    assert!(is_pure_text(&vec![text("hello")]));
    assert!(!is_pure_text(&vec![text("a"), var("x")]));
}

#[test]
fn detect_has_select() {
    assert!(!has_select(&vec![text("a")]));
    assert!(!has_select(&vec![var("x")]));
}

#[test]
fn fn_decl_no_params() {
    assert_eq!(gen_fn_decl("settings", &vec![], false, &no_builtins()), "settings() -> &'static str");
}

#[test]
fn fn_decl_with_self() {
    assert_eq!(
        gen_fn_decl("hello", &vec![p("name", ParamType::Str)], true, &no_builtins()),
        "hello<'a>(&self, name: impl Into<ftl_core::FluentArg<'a>>) -> String"
    );
}

#[test]
fn fn_decl_num_param() {
    assert_eq!(
        gen_fn_decl("files", &vec![p("count", ParamType::Num)], false, &no_builtins()),
        "files(count: impl Into<FluentNum>) -> String"
    );
}

#[test]
fn capacity_expr_cases() {
    assert_eq!(capacity_expr(&vec![text("Hello")], &vec![]).unwrap(), "5");
    assert_eq!(capacity_expr(&vec![], &vec![]).unwrap(), "0");
    assert_eq!(capacity_expr(&vec![var("n")], &vec![p("n", ParamType::Num)]).unwrap(), "32");
    assert_eq!(
        capacity_expr(&vec![text("Hello, "), var("name"), text("!")], &vec![p("name", ParamType::Str)]).unwrap(),
        "7 + 32 + 1"
    );
    assert_eq!(
        capacity_expr(
            &vec![text("x"), var("a"), text("yz"), var("b")],
            &vec![p("a", ParamType::Str), p("b", ParamType::Num)]
        )
        .unwrap(),
        "1 + 32 + 2 + 32"
    );
}

#[test]
fn arm_pattern_cases() {
    let num = ParamType::Num;
    assert_eq!(variant_arm_pattern(&KeyType::Ident("other".into()), &num, "en", true).unwrap(), "_");
    assert_eq!(variant_arm_pattern(&KeyType::Num("42".into()), &num, "en", false).unwrap(), "42");
    assert_eq!(variant_arm_pattern(&KeyType::Ident("one".into()), &num, "en", false).unwrap(), "1");
    assert_eq!(variant_arm_pattern(&KeyType::Ident("zero".into()), &num, "en", false).unwrap(), "0");
    assert_eq!(variant_arm_pattern(&KeyType::Ident("two".into()), &num, "en", false).unwrap(), "2");
    assert_eq!(variant_arm_pattern(&KeyType::Ident("few".into()), &num, "en", false).unwrap(), "n if false");
    let pat = variant_arm_pattern(&KeyType::Ident("one".into()), &num, "ru", false).unwrap();
    assert!(pat.contains("n % 10 == 1"));
    assert_eq!(
        variant_arm_pattern(&KeyType::Ident("male".into()), &ParamType::Str, "en", false).unwrap(),
        "\"male\""
    );
}

#[test]
fn generate_function_cases() {
    let code = generate_one_function("settings", &vec![text("Settings")], &vec![], "en", &no_builtins()).unwrap();
    assert_eq!(code.trim(), "#[inline]\npub fn settings() -> &'static str { \"Settings\" }");

    let code = generate_one_function("test", &vec![text("he\"llo\nworld")], &vec![], "en", &no_builtins()).unwrap();
    assert!(code.contains("he\\\"llo\\nworld"));

    let code = generate_one_function(
        "hello",
        &vec![text("Hello, "), var("name"), text("!")],
        &vec![p("name", ParamType::Str)],
        "en",
        &no_builtins(),
    )
    .unwrap();
    assert!(code.contains("pub fn hello<'a>(name: impl Into<ftl_core::FluentArg<'a>>) -> String {"));
    assert!(code.contains("let cap = 7 + 32 + 1;"));
    assert!(code.contains("name.into().write_localized(&mut s);"));

    let code = generate_one_function(
        "show_count",
        &vec![text("count: "), var("count")],
        &vec![p("count", ParamType::Num)],
        "en",
        &no_builtins(),
    )
    .unwrap();
    assert!(code.contains("show_count"));
    assert!(code.contains("count: impl Into<FluentNum>"));
    assert!(code.contains("write!(&mut s, \"{}\", count).unwrap();"));

    let elems = vec![Element::Select {
        selector: "count".into(),
        variants: vec![
            Variant { key: KeyType::Ident("one".into()), elements: vec![text("1 file")], default: false },
            Variant { key: KeyType::Ident("other".into()), elements: vec![var("count"), text(" files")], default: true },
        ],
    }];
    let code = generate_one_function("files", &elems, &vec![p("count", ParamType::Num)], "en", &no_builtins()).unwrap();
    assert!(code.contains("pub fn files(count: impl Into<FluentNum>) -> String {"));
    assert!(code.contains("count: FluentNum = count.into()"));
    assert!(code.contains("1.0 =>"));
}

#[test]
fn format_builtin_arg_string() {
    assert_eq!(format_builtin_arg("hello", &BuiltInArgType::String), "\"hello\".to_string()");
}

#[test]
fn format_builtin_arg_int() {
    assert_eq!(format_builtin_arg("42", &BuiltInArgType::Int), "42i64");
}

#[test]
fn format_builtin_arg_float() {
    assert_eq!(format_builtin_arg("3.14", &BuiltInArgType::Float), "3.14f64");
}

#[test]
fn format_builtin_arg_bool_true() {
    assert_eq!(format_builtin_arg("true", &BuiltInArgType::Bool), "true");
}

#[test]
fn format_builtin_arg_bool_false() {
    assert_eq!(format_builtin_arg("false", &BuiltInArgType::Bool), "false");
}

#[test]
fn format_builtin_arg_bool_one() {
    assert_eq!(format_builtin_arg("1", &BuiltInArgType::Bool), "true");
}

#[test]
fn emit_num_convert_generates_into_lines() {
    let mut code = String::new();
    emit_num_convert(&vec![p("count", ParamType::Num), p("name", ParamType::Str)], "    ", &mut code);
    assert!(code.contains("let count: FluentNum = count.into();"));
    assert!(!code.contains("name"));
}

#[test]
fn custom_builtin_call_emit_statements() {
    let builtins = vec![(
        "HTML".to_string(),
        BuiltInFuncDef {
            name: "HTML".to_string(),
            ty_name: "Html".to_string(),
            named_args: vec![
                named("class", BuiltInArgType::String),
                named("count", BuiltInArgType::Int),
                named("ratio", BuiltInArgType::Float),
                named("enabled", BuiltInArgType::Bool),
            ],
            write_to_body: None,
        },
    )];
    let params = vec![p("input", ParamType::Builtin("Html".to_string()))];
    let elems = vec![Element::BuiltInCall {
        func_name: "HTML".to_string(),
        var_name: "input".to_string(),
        ty_name: "Html".to_string(),
        named_args: vec![pair("class", "btn"), pair("count", "3"), pair("enabled", "true"), pair("ratio", "1.5")],
    }];
    let mut code = String::new();
    emit_push_statements(&elems, &params, "    ", &builtins, &mut code);
    assert!(code.contains("input.class"));
    assert!(code.contains("\"btn\".to_string()"));
    assert!(code.contains(".count(3i64)"));
    assert!(code.contains(".ratio(1.5f64)"));
    assert!(code.contains(".enabled(true)"));
    assert!(code.contains(".write_to(&mut s);"));
}

#[test]
fn datetime_builtin_call_emit_statements() {
    let elems = vec![Element::BuiltInCall {
        func_name: "DATETIME".to_string(),
        var_name: "date".to_string(),
        ty_name: "DateTime".to_string(),
        named_args: vec![
            pair("day", "15"),
            pair("hour12", "true"),
            pair("month", "5"),
            pair("timeZone", "UTC"),
            pair("year", "2024"),
        ],
    }];
    let mut code = String::new();
    emit_push_statements(&elems, &vec![], "    ", &no_builtins(), &mut code);
    assert!(code.contains("ftl_core::datetime::format"));
    assert!(code.contains("Some(2024i64)"));
    assert!(code.contains("Some(5i64)"));
    assert!(code.contains("Some(15i64)"));
    assert!(code.contains("Some(true)"));
    assert!(code.contains("Some(\"UTC\")"));
    assert!(code.contains("None"));
}

#[test]
fn variant_arm_pattern_num_all_cases() {
    assert_eq!(variant_arm_pattern_num(&KeyType::Num("7".into()), "en"), "7.0");
    assert_eq!(variant_arm_pattern_num(&KeyType::Ident("zero".into()), "en"), "0.0");
    assert_eq!(variant_arm_pattern_num(&KeyType::Ident("one".into()), "en"), "1.0");
    assert_eq!(variant_arm_pattern_num(&KeyType::Ident("two".into()), "en"), "2.0");
    assert_eq!(variant_arm_pattern_num(&KeyType::Ident("few".into()), "en"), "false");
    let pat = variant_arm_pattern_num(&KeyType::Ident("one".into()), "ru");
    assert!(pat.contains("(n.trunc() as i64) % 10 == 1"));
}

#[test]
fn generate_string_selector() {
    let elems = vec![Element::Select {
        selector: "gender".into(),
        variants: vec![
            Variant { key: KeyType::Ident("male".into()), elements: vec![text("sir")], default: false },
            Variant { key: KeyType::Ident("other".into()), elements: vec![text("other")], default: true },
        ],
    }];
    let code = generate_one_function("greet", &elems, &vec![p("gender", ParamType::Str)], "en", &no_builtins()).unwrap();
    assert!(code.contains("match __sel.as_str()"));
    assert!(code.contains("\"male\" => \"sir\".to_string()"));
    assert!(code.contains("_ => \"other\".to_string()"));
}

#[test]
fn number_builtin_call_passes_options() {
    let elems = vec![Element::BuiltInCall {
        func_name: "NUMBER".to_string(),
        var_name: "n".to_string(),
        ty_name: "Number".to_string(),
        named_args: vec![pair("minimumFractionDigits", "2"), pair("style", "percent")],
    }];
    let mut code = String::new();
    emit_push_statements(&elems, &vec![p("n", ParamType::Num)], "    ", &no_builtins(), &mut code);
    assert!(code.contains("Some(2i64)"), "got {code}");
    assert!(code.contains("Some(\"percent\")"), "got {code}");
}

#[test]
fn pure_text_function_has_no_parameters() {
    let code = generate_one_function("a", &vec![text("x"), text("y")], &vec![], "en", &no_builtins()).unwrap();
    assert!(code.contains("pub fn a() -> &'static str { \"xy\" }"), "got {code}");
}

#[test]
fn select_on_builtin_parameter_is_refused() {
    let elems = vec![text("Value: "), Element::Select {
        selector: "v".into(),
        variants: vec![Variant { key: KeyType::Ident("other".into()), elements: vec![text("x")], default: true }],
    }];
    let e = generate_one_function("m", &elems, &vec![p("v", ParamType::Builtin("Html".into()))], "en", &no_builtins())
        .unwrap_err();
    assert_eq!(e, "Cannot use 'v' (built-in type) as a select selector");
}

#[test]
fn declaration_lists_parameters_in_name_order() {
    let decl = gen_fn_decl("m", &vec![p("a", ParamType::Num), p("b", ParamType::Str)], false, &no_builtins());
    assert_eq!(decl, "m<'a>(a: impl Into<FluentNum>, b: impl Into<ftl_core::FluentArg<'a>>) -> String");
}
