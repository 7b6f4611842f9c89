use ftl::ast::{Attribute, Element, KeyType, LocaleEntries, Message, Term, Variant};
use ftl::convert::fold_text;
use ftl::fmt::{emit_push_statements, try_emit_push_statements};
use ftl::keyed::{keyed_get, keyed_insert_exec};
use ftl::params::try_collect_params;
use ftl::resolve::resolve_locale;

fn text(s: &str) -> Element {
    Element::Text(s.to_string())
}

fn no_refs(es: &[Element]) -> bool {
    es.iter().all(|e| match e {
        Element::MessageRef(_) | Element::TermRef { .. } | Element::AttributeRef { .. } | Element::TermAttrSelect { .. } => false,
        Element::Select { variants, .. } => variants.iter().all(|v| no_refs(&v.elements)),
        _ => true,
    })
}

#[test]
fn fold_twice_is_fold_once() {
    let es = vec![text("a"), text(""), text("b"), Element::VarRef("x".into()), text(""), text("c"), text("d")];
    let once = fold_text(es);
    assert_eq!(once, vec![text("ab"), Element::VarRef("x".into()), text("cd")]);
    let twice = fold_text(once.clone());
    assert_eq!(twice, once);
}

#[test]
fn fold_keeps_every_character() {
    let es = vec![text("he"), text("llo"), Element::VarRef("n".into()), text(" "), text("w")];
    let folded = fold_text(es);
    let joined: String = folded
        .iter()
        .map(|e| match e {
            Element::Text(s) => s.clone(),
            Element::VarRef(n) => format!("{{{n}}}"),
            _ => String::new(),
        })
        .collect();
    assert_eq!(joined, "hello{n} w");
}

#[test]
fn keyed_insert_reads_back_what_was_written() {
    let mut m: Vec<(String, i32)> = Vec::new();
    keyed_insert_exec(&mut m, "b".to_string(), 2);
    keyed_insert_exec(&mut m, "a".to_string(), 1);
    keyed_insert_exec(&mut m, "c".to_string(), 3);
    keyed_insert_exec(&mut m, "b".to_string(), 20);
    assert_eq!(keyed_get(&m, "b"), Some(&20));
    assert_eq!(keyed_get(&m, "a"), Some(&1));
    assert_eq!(keyed_get(&m, "z"), None);
    let keys: Vec<&str> = m.iter().map(|(k, _)| k.as_str()).collect();
    assert_eq!(keys, vec!["a", "b", "c"]);
}

#[test]
fn selector_conflict_does_not_depend_on_order() {
    let str_sel = Element::Select {
        selector: "x".into(),
        variants: vec![Variant { key: KeyType::Ident("other".into()), elements: vec![text("b")], default: true }],
    };
    let num_sel = Element::Select {
        selector: "x".into(),
        variants: vec![
            Variant { key: KeyType::Num("0".into()), elements: vec![text("c")], default: false },
            Variant { key: KeyType::Ident("other".into()), elements: vec![text("d")], default: true },
        ],
    };
    let a = try_collect_params(&vec![str_sel.clone(), num_sel.clone()], "m").unwrap_err();
    let b = try_collect_params(&vec![num_sel, str_sel], "m").unwrap_err();
    assert_eq!(a, "Parameter 'x' has conflicting inferred types in m: Str vs Num");
    assert_eq!(b, "Parameter 'x' has conflicting inferred types in m: Num vs Str");
}

#[test]
fn resolution_leaves_no_references() {
    let en = LocaleEntries {
        messages: vec![
            (
                "about".to_string(),
                Message { name: "about".into(), elements: vec![text("About "), Element::MessageRef("app".into())] },
            ),
            ("app".to_string(), Message { name: "app".into(), elements: vec![text("Zed")] }),
            (
                "hi".to_string(),
                Message {
                    name: "hi".into(),
                    elements: vec![Element::TermRef {
                        name: "brand".into(),
                        attribute: None,
                        args: vec![("case".to_string(), text("gen"))],
                        positional: vec![],
                    }],
                },
            ),
            (
                "lbl".to_string(),
                Message {
                    name: "lbl".into(),
                    elements: vec![Element::AttributeRef { owner: "app".into(), name: "title".into() }],
                },
            ),
        ],
        terms: vec![("brand".to_string(), Term { name: "brand".into(), elements: vec![text("Brand")] })],
        attributes: vec![(
            "app__title".to_string(),
            Attribute { owner: "app".into(), name: "title".into(), elements: vec![Element::MessageRef("app".into())] },
        )],
    };
    let r = resolve_locale(&en).unwrap();
    for (_, m) in &r.messages {
        assert!(no_refs(&m.elements), "{:?}", m);
    }
    for (_, a) in &r.attributes {
        assert!(no_refs(&a.elements), "{:?}", a);
    }
    assert_eq!(keyed_get(&r.messages, "about").unwrap().elements, vec![text("About Zed")]);
    assert_eq!(keyed_get(&r.messages, "hi").unwrap().elements, vec![text("Brand")]);
    assert_eq!(keyed_get(&r.messages, "lbl").unwrap().elements, vec![text("Zed")]);
}

#[test]
fn push_statements_of_concatenation_concatenate() {
    let a = vec![text("Hi "), Element::VarRef("name".into())];
    let b = vec![text("!"), Element::VarRef("n".into())];
    let params = vec![("n".to_string(), ftl::ast::ParamType::Num), ("name".to_string(), ftl::ast::ParamType::Str)];
    let mut whole = String::from("// start\n");
    let mut ab = a.clone();
    ab.extend(b.clone());
    emit_push_statements(&ab, &params, "    ", &vec![], &mut whole);
    let mut parts = String::from("// start\n");
    emit_push_statements(&a, &params, "    ", &vec![], &mut parts);
    emit_push_statements(&b, &params, "    ", &vec![], &mut parts);
    assert_eq!(whole, parts);
    assert!(whole.contains("write!(&mut s, \"{}\", n).unwrap();"), "got {whole}");
}

#[test]
fn failed_push_statements_keep_what_was_written() {
    let es = vec![
        text("a"),
        Element::BuiltInCall {
            func_name: "CUSTOM".into(),
            var_name: "x".into(),
            ty_name: "Custom".into(),
            named_args: vec![],
        },
    ];
    let mut code = String::from("// start\n");
    let e = try_emit_push_statements(&es, &vec![], "    ", &vec![], &mut code).unwrap_err();
    assert_eq!(e, "Built-in function 'CUSTOM' not registered");
    assert_eq!(code, "// start\n    s.push_str(\"a\");\n");
}

#[test]
fn capacity_terms_add_up_to_bytes_and_values() {
    let es = vec![text("Grüße, "), text("du "), Element::VarRef("n".into()), text("!"), Element::VarRef("m".into())];
    let c = ftl::fmt::capacity_expr(&es, &vec![]).unwrap();
    assert_eq!(c, "12 + 32 + 1 + 32");
    let total: usize = c.split(" + ").map(|t| t.parse::<usize>().unwrap()).sum();
    assert_eq!(total, "Grüße, du ".len() + "!".len() + 2 * 32);
    assert_eq!(ftl::fmt::capacity_expr(&vec![], &vec![]).unwrap(), "0");
}
