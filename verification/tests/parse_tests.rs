use fluent_syntax::parser::{ErrorKind, ParserError};
use ftl::ast::{Element, KeyType, RefKind, Variant};
use ftl::builtin::{BuiltInArgType, BuiltInFuncDef, BuiltInNamedArg};
use ftl::convert::{convert_collected, convert_element, convert_expression, convert_inline_expression,
    flatten_attr_name, fold_text, format_parse_error, line_of, ref_prefix};
use ftl::keyed::keyed_get;
use ftl::syntax::{FtlCallArguments, FtlExpression, FtlInline, FtlNamedArgument, FtlParseError, FtlPattern,
    FtlPatternElement, FtlVariant, FtlVariantKey};

fn no_builtins() -> Vec<(String, BuiltInFuncDef)> {
    Vec::new()
}

fn parse_error(pos: std::ops::Range<usize>, slice: Option<std::ops::Range<usize>>, kind: ErrorKind) -> FtlParseError {
    let e = ParserError { pos: pos.clone(), slice, kind };
    FtlParseError { start: pos.start, end: pos.end, message: e.to_string() }
}

fn var_ref(id: &str) -> FtlInline {
    FtlInline::VariableReference { id: id.to_string() }
}

fn text_pattern(s: &str) -> FtlPattern {
    FtlPattern { elements: vec![FtlPatternElement::TextElement { value: s.to_string() }] }
}

fn ident_variant(name: &str, text: &str, default: bool) -> FtlVariant {
    FtlVariant { key: FtlVariantKey::Identifier { name: name.to_string() }, value: text_pattern(text), default }
}

fn number_variant(value: &str, text: &str, default: bool) -> FtlVariant {
    FtlVariant { key: FtlVariantKey::NumberLiteral { value: value.to_string() }, value: text_pattern(text), default }
}

#[test]
fn fold_text_merges_adjacent_text() {
    let elems = vec![
        Element::Text("Hello ".into()),
        Element::Text("World".into()),
        Element::VarRef("x".into()),
        Element::Text("!".into()),
    ];
    let result = fold_text(elems);
    assert_eq!(result.len(), 3);
    assert_eq!(result[0], Element::Text("Hello World".into()));
    assert_eq!(result[1], Element::VarRef("x".into()));
    assert_eq!(result[2], Element::Text("!".into()));
}

#[test]
fn fold_text_skips_empty_text() {
    let result = fold_text(vec![Element::Text("".into()), Element::Text("a".into())]);
    assert_eq!(result.len(), 1);
    assert_eq!(result[0], Element::Text("a".into()));
}

#[test]
fn fold_text_non_text_passthrough() {
    let result = fold_text(vec![Element::VarRef("x".into())]);
    assert_eq!(result.len(), 1);
}

#[test]
fn fold_text_empty_input() {
    let result = fold_text(vec![]);
    assert!(result.is_empty());
}

#[test]
fn ref_prefix_variants() {
    assert_eq!(ref_prefix(RefKind::Message), "");
    assert_eq!(ref_prefix(RefKind::Term), "-");
    assert_eq!(ref_prefix(RefKind::Attribute), ".");
}

#[test]
fn flatten_attr_name_with_hyphens() {
    assert_eq!(flatten_attr_name("app-name", "aria-label"), "app-name__aria-label");
}

#[test]
fn flatten_attr_name_simple() {
    assert_eq!(flatten_attr_name("save", "label"), "save__label");
}

#[test]
fn line_of_first_line() {
    assert_eq!(line_of("hello", 0), 1);
    assert_eq!(line_of("hello\nworld", 3), 1);
}

#[test]
fn line_of_second_line() {
    assert_eq!(line_of("hello\nworld", 7), 2);
    assert_eq!(line_of("\n", 1), 2);
}

#[test]
fn line_of_empty_source() {
    assert_eq!(line_of("", 0), 1);
}

#[test]
fn format_parse_error_shows_snippet_and_caret() {
    let source = "msg = hello\nbad = { \"\\x\" }\n";
    let err = parse_error(21..22, Some(20..28), ErrorKind::UnknownEscapeSequence("\\x".into()));
    let diag = format_parse_error(source, "test.ftl", "en", &err).unwrap();
    assert!(diag.message.contains("\\x"));
    assert!(diag.message.contains("-->"));
    assert!(diag.message.contains("test.ftl"));
    assert!(diag.message.contains("^"));
}

#[test]
fn format_parse_error_hint_for_comment() {
    let source = "x = 1\n#（bad\n";
    let err = parse_error(6..7, Some(5..12), ErrorKind::ExpectedToken(' '));
    let diag = format_parse_error(source, "f.ftl", "en", &err).unwrap();
    assert!(diag.message.contains("help:"));
    assert!(diag.message.contains("hash"));
}

#[test]
fn convert_element_text() {
    let pe = FtlPatternElement::TextElement { value: "hello".to_string() };
    let result = convert_element(&pe, &no_builtins()).unwrap();
    assert_eq!(result, Element::Text("hello".to_string()));
}

#[test]
fn convert_expression_variable_ref() {
    let expr = FtlExpression::Inline(var_ref("name"));
    let result = convert_expression(&expr, &no_builtins()).unwrap();
    assert_eq!(result, Element::VarRef("name".to_string()));
}

#[test]
fn convert_expression_message_ref() {
    let expr = FtlExpression::Inline(FtlInline::MessageReference { id: "greeting".to_string(), attribute: None });
    let result = convert_expression(&expr, &no_builtins()).unwrap();
    assert_eq!(result, Element::MessageRef("greeting".to_string()));
}

#[test]
fn convert_expression_message_ref_with_attr() {
    let expr = FtlExpression::Inline(FtlInline::MessageReference {
        id: "save".to_string(),
        attribute: Some("label".to_string()),
    });
    let result = convert_expression(&expr, &no_builtins()).unwrap();
    assert_eq!(result, Element::AttributeRef { owner: "save".to_string(), name: "label".to_string() });
}

#[test]
fn convert_expression_string_literal() {
    let expr = FtlExpression::Inline(FtlInline::StringLiteral { value: "hello".to_string() });
    let result = convert_expression(&expr, &no_builtins()).unwrap();
    assert_eq!(result, Element::Text("hello".to_string()));
}

#[test]
fn convert_expression_number_literal() {
    let expr = FtlExpression::Inline(FtlInline::NumberLiteral { value: "42".to_string() });
    let result = convert_expression(&expr, &no_builtins()).unwrap();
    assert_eq!(result, Element::Text("42".to_string()));
}

#[test]
fn convert_expression_function_ref() {
    let builtins = vec![(
        "HTML".to_string(),
        BuiltInFuncDef {
            name: "HTML".to_string(),
            ty_name: "Html".to_string(),
            named_args: vec![BuiltInNamedArg {
                ftl_name: "class".to_string(),
                rust_name: "class".to_string(),
                arg_type: BuiltInArgType::String,
            }],
            write_to_body: None,
        },
    )];
    let expr = FtlExpression::Inline(FtlInline::FunctionReference {
        id: "HTML".to_string(),
        arguments: FtlCallArguments {
            positional: vec![var_ref("input")],
            named: vec![FtlNamedArgument {
                name: "class".to_string(),
                value: FtlInline::StringLiteral { value: "btn".to_string() },
            }],
        },
    });
    let result = convert_expression(&expr, &builtins).unwrap();
    assert!(matches!(result, Element::BuiltInCall { .. }));
    if let Element::BuiltInCall { func_name, var_name, named_args, .. } = result {
        assert_eq!(func_name, "HTML");
        assert_eq!(var_name, "input");
        assert_eq!(keyed_get(&named_args, "class").map(|s| s.as_str()), Some("btn"));
    }
}

#[test]
fn convert_collected_empty() {
    let result = convert_collected(vec![]);
    assert_eq!(result, Element::Text(String::new()));
}

#[test]
fn convert_collected_single() {
    let result = convert_collected(vec![Element::VarRef("x".to_string())]);
    assert_eq!(result, Element::VarRef("x".to_string()));
}

#[test]
fn convert_expression_number_literal_selector_matches() {
    let expr = FtlExpression::Select {
        selector: FtlInline::NumberLiteral { value: "42".to_string() },
        variants: vec![number_variant("42", "meaning", false), ident_variant("other", "unknown", true)],
    };
    let result = convert_expression(&expr, &no_builtins()).unwrap();
    assert_eq!(result, Element::Text("meaning".to_string()));
}

#[test]
fn convert_expression_number_literal_selector_uses_default() {
    let expr = FtlExpression::Select {
        selector: FtlInline::NumberLiteral { value: "99".to_string() },
        variants: vec![number_variant("42", "meaning", false), ident_variant("other", "fallback", true)],
    };
    let result = convert_expression(&expr, &no_builtins()).unwrap();
    assert_eq!(result, Element::Text("fallback".to_string()));
}

#[test]
fn convert_expression_string_literal_selector_matches() {
    let expr = FtlExpression::Select {
        selector: FtlInline::StringLiteral { value: "hello".to_string() },
        variants: vec![ident_variant("hello", "greeting", false), ident_variant("other", "unknown", true)],
    };
    let result = convert_expression(&expr, &no_builtins()).unwrap();
    assert_eq!(result, Element::Text("greeting".to_string()));
}

#[test]
fn convert_inline_expression_message_ref() {
    let expr = FtlInline::MessageReference { id: "settings".to_string(), attribute: None };
    let result = convert_inline_expression(&expr).unwrap();
    assert_eq!(result, Element::MessageRef("settings".to_string()));
}

#[test]
fn convert_inline_expression_message_ref_with_attr() {
    let expr = FtlInline::MessageReference { id: "save".to_string(), attribute: Some("label".to_string()) };
    let result = convert_inline_expression(&expr).unwrap();
    assert_eq!(result, Element::AttributeRef { owner: "save".to_string(), name: "label".to_string() });
}

#[test]
fn convert_inline_expression_term_ref() {
    let expr = FtlInline::TermReference {
        id: "link".to_string(),
        attribute: None,
        arguments: Some(FtlCallArguments {
            positional: vec![var_ref("url")],
            named: vec![FtlNamedArgument {
                name: "class".to_string(),
                value: FtlInline::StringLiteral { value: "btn".to_string() },
            }],
        }),
    };
    let result = convert_inline_expression(&expr).unwrap();
    assert!(matches!(result, Element::TermRef { .. }));
    if let Element::TermRef { name, attribute, args, positional } = result {
        assert_eq!(name, "link");
        assert!(attribute.is_none());
        assert_eq!(args.len(), 1);
        assert_eq!(positional.len(), 1);
    }
}

#[test]
fn convert_inline_expression_string_literal() {
    let expr = FtlInline::StringLiteral { value: "hello".to_string() };
    let result = convert_inline_expression(&expr).unwrap();
    assert_eq!(result, Element::Text("hello".to_string()));
}

#[test]
fn convert_inline_expression_number_literal() {
    let expr = FtlInline::NumberLiteral { value: "3.14".to_string() };
    let result = convert_inline_expression(&expr).unwrap();
    assert_eq!(result, Element::Text("3.14".to_string()));
}

#[test]
fn convert_inline_expression_variable_ref() {
    let result = convert_inline_expression(&var_ref("name")).unwrap();
    assert_eq!(result, Element::VarRef("name".to_string()));
}

#[test]
fn convert_expression_term_ref_as_selector() {
    let expr = FtlExpression::Select {
        selector: FtlInline::TermReference {
            id: "brand".to_string(),
            attribute: Some("gender".to_string()),
            arguments: None,
        },
        variants: vec![ident_variant("masculine", "Mr.", false), ident_variant("feminine", "Ms.", true)],
    };
    let result = convert_expression(&expr, &no_builtins()).unwrap();
    assert!(matches!(result, Element::TermAttrSelect { .. }));
    if let Element::TermAttrSelect { term, attr, variants } = result {
        assert_eq!(term, "brand");
        assert_eq!(attr, "gender");
        assert_eq!(variants.len(), 2);
    }
}

#[test]
fn convert_collected_multiple_folds_to_select() {
    let result = convert_collected(vec![Element::Text("a".to_string()), Element::VarRef("x".to_string())]);
    assert!(matches!(result, Element::Select { .. }));
}

#[test]
fn format_parse_error_truncates_long_line() {
    let long = "x".repeat(100);
    let source = format!("{}\n", long);
    let err = parse_error(50..51, None, ErrorKind::MissingDefaultVariant);
    let diag = format_parse_error(&source, "f.ftl", "en", &err).unwrap();
    assert!(diag.message.contains("..."));
}

#[test]
fn format_parse_error_exact_layout() {
    let source = "a = 1\nb = { \"\\q\" }\n";
    let err = FtlParseError { start: 12, end: 14, message: "Unknown escape sequence".to_string() };
    let diag = format_parse_error(source, "f.ftl", "en", &err).unwrap();
    assert_eq!(diag.message, "Unknown escape sequence\n  --> f.ftl:2:7\n   |\n   2 | b = { \"\\q\" }\n   |      ^^");
    assert_eq!(diag.file, "f.ftl");
    assert_eq!(diag.locale, "en");
}

#[test]
fn format_parse_error_refuses_offset_inside_a_char() {
    let err = FtlParseError { start: 1, end: 2, message: "m".to_string() };
    let e = format_parse_error("é", "f.ftl", "en", &err).unwrap_err();
    assert_eq!(e, "byte index 1 is out of bounds or not a char boundary of the source");
}

#[test]
fn line_of_counts_newlines_before_offset() {
    assert_eq!(line_of("a\nb\nc", 4), 3);
    assert_eq!(line_of("a\nb\nc", 5), 3);
}

#[test]
fn convert_select_on_variable_keeps_variants() {
    let expr = FtlExpression::Select {
        selector: var_ref("n"),
        variants: vec![number_variant("1", "one", false), ident_variant("other", "many", true)],
    };
    let result = convert_expression(&expr, &no_builtins()).unwrap();
    assert_eq!(
        result,
        Element::Select {
            selector: "n".to_string(),
            variants: vec![
                Variant { key: KeyType::Num("1".to_string()), elements: vec![Element::Text("one".to_string())], default: false },
                Variant { key: KeyType::Ident("other".to_string()), elements: vec![Element::Text("many".to_string())], default: true },
            ],
        }
    );
}

#[test]
fn convert_unknown_function_is_refused() {
    let expr = FtlExpression::Inline(FtlInline::FunctionReference {
        id: "NUMBER".to_string(),
        arguments: FtlCallArguments { positional: vec![var_ref("n")], named: vec![] },
    });
    let e = convert_expression(&expr, &no_builtins()).unwrap_err();
    assert_eq!(e, "Unrecognized function 'NUMBER'. Register it with .register() before calling .generate()");
}
