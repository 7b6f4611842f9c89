use ftl::builtin::{__snake_to_camel, builtin_def, datetime, number, BuiltInArgType, BuiltInFuncDef};
use ftl::config::generator;
use ftl::keyed::{keyed_contains, keyed_get};

#[test]
fn snake_to_camel_basic() {
    assert_eq!(__snake_to_camel("foo_bar"), "fooBar");
}

#[test]
fn snake_to_camel_single() {
    assert_eq!(__snake_to_camel("foo"), "foo");
}

#[test]
fn snake_to_camel_consecutive_underscores() {
    assert_eq!(__snake_to_camel("foo__bar"), "fooBar");
}

#[test]
fn snake_to_camel_trailing_underscore() {
    assert_eq!(__snake_to_camel("foo_"), "foo");
}

#[test]
fn snake_to_camel_leading_underscore() {
    assert_eq!(__snake_to_camel("_foo"), "Foo");
}

#[test]
fn snake_to_camel_empty() {
    assert_eq!(__snake_to_camel(""), "");
}

#[test]
fn snake_to_camel_camel_already() {
    assert_eq!(__snake_to_camel("fooBar"), "fooBar");
}

#[test]
fn get_builtins_always_includes_number_and_datetime() {
    let builtins = generator().get_builtins();
    assert!(keyed_contains(&builtins, "NUMBER"));
    assert!(keyed_contains(&builtins, "DATETIME"));
}

#[test]
fn register_custom_builtin() {
    let def = BuiltInFuncDef {
        name: "CUSTOM".to_string(),
        ty_name: "Custom".to_string(),
        named_args: vec![],
        write_to_body: Some("write!(out, \"custom\").unwrap();".to_string()),
    };
    let builtins = generator().register(def).get_builtins();
    assert!(keyed_contains(&builtins, "CUSTOM"));
}

#[test]
fn ftl_builtin_macro_with_body() {
    let def = builtin_def(
        "Html",
        &vec![
            ("class", BuiltInArgType::String),
            ("count", BuiltInArgType::Int),
            ("ratio", BuiltInArgType::Float),
            ("enabled", BuiltInArgType::Bool),
        ],
        Some("{ write!(out, \"<div>\\\"{}\\\"</div>\", this.value).unwrap(); }"),
    );
    assert_eq!(def.name, "HTML");
    assert_eq!(def.ty_name, "Html");
    assert!(def.write_to_body.is_some());
    assert_eq!(def.named_args.len(), 4);
    assert_eq!(def.named_args[0].ftl_name, "class");
    assert_eq!(def.named_args[1].ftl_name, "count");
    assert_eq!(def.named_args[2].ftl_name, "ratio");
    assert_eq!(def.named_args[3].ftl_name, "enabled");
}

#[test]
fn ftl_builtin_macro_without_body() {
    let def = builtin_def("Bold", &vec![("level", BuiltInArgType::Int)], None);
    assert_eq!(def.name, "BOLD");
    assert_eq!(def.ty_name, "Bold");
    assert!(def.write_to_body.is_none());
    assert_eq!(def.named_args.len(), 1);
    assert_eq!(def.named_args[0].ftl_name, "level");
    assert_eq!(def.named_args[0].arg_type, BuiltInArgType::Int);
}

#[test]
fn registered_builtin_replaces_default_number() {
    let def = builtin_def("Number", &vec![("digits", BuiltInArgType::Int)], None);
    let builtins = generator().register(def).get_builtins();
    let n = keyed_get(&builtins, "NUMBER").unwrap();
    assert_eq!(n.named_args.len(), 1);
    assert_eq!(n.named_args[0].ftl_name, "digits");
    let d = keyed_get(&builtins, "DATETIME").unwrap();
    assert_eq!(d.ty_name, "DateTime");
    assert!(d.named_args.is_empty());
    assert_eq!(builtins.len(), 2);
}

#[test]
fn builtins_come_out_in_name_order() {
    let a = builtin_def("Zeta", &vec![], None);
    let b = builtin_def("Alpha", &vec![], None);
    let builtins = generator().register(a).register(b).get_builtins();
    let names: Vec<&str> = builtins.iter().map(|(k, _)| k.as_str()).collect();
    assert_eq!(names, vec!["ALPHA", "DATETIME", "NUMBER", "ZETA"]);
}

#[test]
fn register_twice_keeps_last() {
    let a = builtin_def("Html", &vec![], None);
    let b = builtin_def("Html", &vec![], Some("{}"));
    let builtins = generator().register(a).register(b).get_builtins();
    assert_eq!(keyed_get(&builtins, "HTML").unwrap().write_to_body.as_deref(), Some("{}"));
    assert_eq!(builtins.len(), 3);
}

#[test]
fn config_defaults_and_setters() {
    let c = generator();
    assert_eq!(c.locales_path(), "locales");
    assert_eq!(c.primary_lang(), "en-US");
    assert_eq!(c.module(), "");
    assert_eq!(c.output(), None);
    let c = c.locales_dir("l10n").default_lang("de-DE").mod_path("i18n").output_path("out.rs");
    assert_eq!(c.locales_path(), "l10n");
    assert_eq!(c.primary_lang(), "de-DE");
    assert_eq!(c.module(), "i18n");
    assert_eq!(c.output(), Some("out.rs"));
}

#[test]
fn default_builtins_have_their_arguments() {
    let n = number();
    assert_eq!(n.name, "NUMBER");
    assert_eq!(n.named_args.len(), 9);
    assert_eq!(n.named_args[0].ftl_name, "minimumFractionDigits");
    assert_eq!(n.named_args[5].arg_type, BuiltInArgType::Bool);
    assert!(n.write_to_body.unwrap().contains("format_number"));
    let d = datetime();
    assert_eq!(d.name, "DATETIME");
    assert_eq!(d.named_args.len(), 19);
    assert_eq!(d.named_args[16].ftl_name, "timeZoneName");
    assert!(d.write_to_body.unwrap().contains("format_datetime"));
}
