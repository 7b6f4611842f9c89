//! Definitions of built-in FTL functions (`NUMBER`, `DATETIME`, and those
//! a user registers).
use vstd::prelude::*;
use crate::ast::copy_string;
use crate::text::{ascii_upper, to_ascii_upper, chars_of, push_char, string_of, to_uppercase, unicode_upper};

verus! {

#[derive(Clone, Debug)]
pub struct BuiltInNamedArg {
    /// FTL name (camelCase, e.g. "minimumFractionDigits").
    pub ftl_name: String,
    /// Rust name (snake_case, e.g. "minimum_fraction_digits").
    pub rust_name: String,
    pub arg_type: BuiltInArgType,
}

#[derive(Clone, Copy, Debug, PartialEq, Eq, Structural)]
pub enum BuiltInArgType {
    String,
    Int,
    Float,
    Bool,
}

#[derive(Clone, Debug)]
pub struct BuiltInFuncDef {
    /// FTL function name (e.g. "NUMBER").
    pub name: String,
    /// Rust type name (e.g. "Number").
    pub ty_name: String,
    pub named_args: Vec<BuiltInNamedArg>,
    /// Raw `write_to` source; when set, codegen emits the type.
    pub write_to_body: Option<String>,
}

/// snake_case to camelCase: every `_` is dropped and the character after a
/// run of `_` is ASCII upper-cased.
pub open spec fn snake_to_camel_spec(s: Seq<char>) -> Seq<char>
    decreases s.len(),
{
    if s.len() == 0 {
        Seq::empty()
    } else {
        let c = s.last();
        snake_to_camel_spec(s.drop_last()) + if c == '_' {
            Seq::empty()
        } else if s.len() >= 2 && s[s.len() - 2] == '_' {
            seq![ascii_upper(c)]
        } else {
            seq![c]
        }
    }
}

pub open spec fn named_arg_is(a: BuiltInNamedArg, ftl: Seq<char>, rust: Seq<char>, t: BuiltInArgType) -> bool {
    a.ftl_name@ == ftl && a.rust_name@ == rust && a.arg_type == t
}

/// The model of a named argument.
pub struct NamedArgV {
    pub ftl_name: Seq<char>,
    pub rust_name: Seq<char>,
    pub arg_type: BuiltInArgType,
}

/// The model of a built-in definition.
pub struct DefV {
    pub name: Seq<char>,
    pub ty_name: Seq<char>,
    pub named_args: Seq<NamedArgV>,
    pub write_to_body: Option<Seq<char>>,
}

pub open spec fn named_arg_v(a: BuiltInNamedArg) -> NamedArgV {
    NamedArgV { ftl_name: a.ftl_name@, rust_name: a.rust_name@, arg_type: a.arg_type }
}

pub open spec fn def_v(d: BuiltInFuncDef) -> DefV {
    DefV {
        name: d.name@,
        ty_name: d.ty_name@,
        named_args: d.named_args@.map_values(|a: BuiltInNamedArg| named_arg_v(a)),
        write_to_body: crate::ast::opt_str_v(d.write_to_body),
    }
}

/// The model of a registry of built-ins keyed by FTL name.
pub open spec fn defs_model(m: Seq<(String, BuiltInFuncDef)>) -> Seq<(Seq<char>, DefV)> {
    crate::keyed::kv_map(m, |d: BuiltInFuncDef| def_v(d))
}

/// A definition with no named arguments and no body.
pub open spec fn plain_def_v(name: Seq<char>, ty_name: Seq<char>) -> DefV {
    DefV { name, ty_name, named_args: Seq::empty(), write_to_body: None }
}

/// Converts a snake_case Rust name to the camelCase FTL name.
#[allow(non_snake_case)]
pub fn __snake_to_camel(s: &str) -> (res: String)
    ensures
        res@ == snake_to_camel_spec(s@),
{
    let cs = chars_of(s);
    let mut out = String::new();
    let mut upper_next = false;
    let mut i: usize = 0;
    while i < cs.len()
        invariant
            cs@ == s@,
            i <= cs.len(),
            out@ == snake_to_camel_spec(s@.subrange(0, i as int)),
            upper_next == (i > 0 && s@[i - 1] == '_'),
        decreases cs.len() - i,
    {
        let c = cs[i];
        let ghost next = s@.subrange(0, i + 1);
        assert(next.drop_last() =~= s@.subrange(0, i as int));
        if i >= 1 {
            assert(next[next.len() - 2] == s@[i - 1]);
        }
        if c == '_' {
            upper_next = true;
        } else if upper_next {
            push_char(&mut out, to_ascii_upper(c));
            upper_next = false;
        } else {
            push_char(&mut out, c);
        }
        i += 1;
    }
    assert(s@.subrange(0, i as int) =~= s@);
    out
}

/// One named argument of a built-in, from its Rust (snake_case) name.
pub fn named_arg(rust_name: &str, arg_type: BuiltInArgType) -> (res: BuiltInNamedArg)
    ensures
        named_arg_is(res, snake_to_camel_spec(rust_name@), rust_name@, arg_type),
{
    BuiltInNamedArg { ftl_name: __snake_to_camel(rust_name), rust_name: string_of(rust_name), arg_type }
}

/// The definition that the `ftl_builtin!` macro produces for a built-in
/// named `name` (its Rust type name), with the given named arguments and,
/// optionally, the source of its `write_to` body: the FTL name is `name`
/// upper-cased and each argument's FTL name is its camelCase form.
pub fn builtin_def(name: &str, args: &Vec<(&str, BuiltInArgType)>, body: Option<&str>) -> (res: BuiltInFuncDef)
    ensures
        res.name@ == unicode_upper(name@),
        res.ty_name@ == name@,
        res.named_args@.len() == args@.len(),
        forall|i: int| 0 <= i < args@.len() ==> named_arg_is(#[trigger] res.named_args@[i],
            snake_to_camel_spec(args@[i].0@), args@[i].0@, args@[i].1),
        match body {
            Some(b) => res.write_to_body matches Some(w) && w@ == b@,
            None => res.write_to_body is None,
        },
{
    let mut named: Vec<BuiltInNamedArg> = Vec::new();
    let mut i: usize = 0;
    while i < args.len()
        invariant
            i <= args@.len(),
            named@.len() == i,
            forall|j: int| 0 <= j < i ==> named_arg_is(#[trigger] named@[j],
                snake_to_camel_spec(args@[j].0@), args@[j].0@, args@[j].1),
        decreases args@.len() - i,
    {
        let (n, t) = args[i];
        named.push(named_arg(n, t));
        i += 1;
    }
    BuiltInFuncDef {
        name: to_uppercase(name),
        ty_name: string_of(name),
        named_args: named,
        write_to_body: match body {
            Some(b) => Some(string_of(b)),
            None => None,
        },
    }
}

/// A definition with no named arguments and no body (how `NUMBER` and
/// `DATETIME` are known when not registered explicitly).
pub fn plain_def(name: &str, ty_name: &str) -> (res: BuiltInFuncDef)
    ensures
        def_v(res) == plain_def_v(name@, ty_name@),
{
    let res = BuiltInFuncDef { name: string_of(name), ty_name: string_of(ty_name), named_args: Vec::new(), write_to_body: None };
    assert(def_v(res).named_args =~= Seq::<NamedArgV>::empty());
    res
}

pub fn copy_named_arg(a: &BuiltInNamedArg) -> (res: BuiltInNamedArg)
    ensures
        named_arg_is(res, a.ftl_name@, a.rust_name@, a.arg_type),
{
    BuiltInNamedArg { ftl_name: copy_string(&a.ftl_name), rust_name: copy_string(&a.rust_name), arg_type: a.arg_type }
}

pub fn copy_def(d: &BuiltInFuncDef) -> (res: BuiltInFuncDef)
    ensures
        def_v(res) == def_v(*d),
{
    let mut named: Vec<BuiltInNamedArg> = Vec::new();
    let mut i: usize = 0;
    while i < d.named_args.len()
        invariant
            i <= d.named_args@.len(),
            named@.len() == i,
            forall|j: int| 0 <= j < i ==> named_arg_is(#[trigger] named@[j],
                d.named_args@[j].ftl_name@, d.named_args@[j].rust_name@, d.named_args@[j].arg_type),
        decreases d.named_args@.len() - i,
    {
        named.push(copy_named_arg(&d.named_args[i]));
        i += 1;
    }
    let res = BuiltInFuncDef {
        name: copy_string(&d.name),
        ty_name: copy_string(&d.ty_name),
        named_args: named,
        write_to_body: match &d.write_to_body {
            Some(b) => Some(copy_string(b)),
            None => None,
        },
    };
    assert(def_v(res).named_args =~= def_v(*d).named_args);
    res
}

/// The named arguments of `NUMBER()`, by Rust name.
pub open spec fn number_args() -> Seq<(Seq<char>, BuiltInArgType)> {
    seq![
        ("minimum_fraction_digits"@, BuiltInArgType::Int),
        ("maximum_fraction_digits"@, BuiltInArgType::Int),
        ("minimum_significant_digits"@, BuiltInArgType::Int),
        ("maximum_significant_digits"@, BuiltInArgType::Int),
        ("minimum_integer_digits"@, BuiltInArgType::Int),
        ("use_grouping"@, BuiltInArgType::Bool),
        ("style"@, BuiltInArgType::String),
        ("currency"@, BuiltInArgType::String),
        ("currency_display"@, BuiltInArgType::String),
    ]
}

/// The `write_to` body of `NUMBER()`.
pub open spec fn number_body() -> Seq<char> {
    "{ ftl_builtin :: format_number(* this.value, this.minimum_fraction_digits, this.maximum_fraction_digits, this.minimum_significant_digits, this.maximum_significant_digits, this.minimum_integer_digits, this.use_grouping, this.style.as_deref(), this.currency.as_deref(), this.currency_display.as_deref(), out, & lang.into(),); }"@
}

/// The `NUMBER()` built-in function, with its named arguments and a
/// `write_to` body that formats through the runtime's number formatter.
pub fn number() -> (res: BuiltInFuncDef)
    ensures
        res.name@ == unicode_upper("Number"@),
        res.ty_name@ == "Number"@,
        res.named_args@.len() == number_args().len(),
        forall|i: int| 0 <= i < number_args().len() ==> named_arg_is(#[trigger] res.named_args@[i],
            snake_to_camel_spec(number_args()[i].0), number_args()[i].0, number_args()[i].1),
        res.write_to_body matches Some(w) && w@ == number_body(),
{
    let args = vec![
        ("minimum_fraction_digits", BuiltInArgType::Int),
        ("maximum_fraction_digits", BuiltInArgType::Int),
        ("minimum_significant_digits", BuiltInArgType::Int),
        ("maximum_significant_digits", BuiltInArgType::Int),
        ("minimum_integer_digits", BuiltInArgType::Int),
        ("use_grouping", BuiltInArgType::Bool),
        ("style", BuiltInArgType::String),
        ("currency", BuiltInArgType::String),
        ("currency_display", BuiltInArgType::String),
    ];
    assert(args@.len() == number_args().len());
    assert forall|i: int| 0 <= i < args@.len() implies (#[trigger] args@[i]).0@ == number_args()[i].0 && args@[i].1 == number_args()[i].1 by {}
    builtin_def(
        "Number",
        &args,
        Some(
            "{ ftl_builtin :: format_number(* this.value, this.minimum_fraction_digits, this.maximum_fraction_digits, this.minimum_significant_digits, this.maximum_significant_digits, this.minimum_integer_digits, this.use_grouping, this.style.as_deref(), this.currency.as_deref(), this.currency_display.as_deref(), out, & lang.into(),); }",
        ),
    )
}

/// The named arguments of `DATETIME()`, by Rust name.
pub open spec fn datetime_args() -> Seq<(Seq<char>, BuiltInArgType)> {
    seq![
        ("year"@, BuiltInArgType::Int),
        ("month"@, BuiltInArgType::Int),
        ("day"@, BuiltInArgType::Int),
        ("hour"@, BuiltInArgType::Int),
        ("minute"@, BuiltInArgType::Int),
        ("second"@, BuiltInArgType::Int),
        ("date_style"@, BuiltInArgType::String),
        ("time_style"@, BuiltInArgType::String),
        ("weekday"@, BuiltInArgType::String),
        ("era"@, BuiltInArgType::String),
        ("year_format"@, BuiltInArgType::String),
        ("month_format"@, BuiltInArgType::String),
        ("day_format"@, BuiltInArgType::String),
        ("hour_format"@, BuiltInArgType::String),
        ("minute_format"@, BuiltInArgType::String),
        ("second_format"@, BuiltInArgType::String),
        ("time_zone_name"@, BuiltInArgType::String),
        ("hour12"@, BuiltInArgType::Bool),
        ("time_zone"@, BuiltInArgType::String),
    ]
}

/// The `write_to` body of `DATETIME()`.
pub open spec fn datetime_body() -> Seq<char> {
    "{ ftl_builtin :: format_datetime(this.year, this.month, this.day, this.hour, this.minute, this.second, this.date_style.as_deref(), this.time_style.as_deref(), this.weekday.as_deref(), this.era.as_deref(), this.year_format.as_deref(), this.month_format.as_deref(), this.day_format.as_deref(), this.hour_format.as_deref(), this.minute_format.as_deref(), this.second_format.as_deref(), this.time_zone_name.as_deref(), this.hour12, this.time_zone.as_deref(), out, & lang.into(),); }"@
}

/// The `DATETIME()` built-in function, with its named arguments and a
/// `write_to` body that formats through the runtime's date formatter.
pub fn datetime() -> (res: BuiltInFuncDef)
    ensures
        res.name@ == unicode_upper("DateTime"@),
        res.ty_name@ == "DateTime"@,
        res.named_args@.len() == datetime_args().len(),
        forall|i: int| 0 <= i < datetime_args().len() ==> named_arg_is(#[trigger] res.named_args@[i],
            snake_to_camel_spec(datetime_args()[i].0), datetime_args()[i].0, datetime_args()[i].1),
        res.write_to_body matches Some(w) && w@ == datetime_body(),
{
    let args = vec![
        ("year", BuiltInArgType::Int),
        ("month", BuiltInArgType::Int),
        ("day", BuiltInArgType::Int),
        ("hour", BuiltInArgType::Int),
        ("minute", BuiltInArgType::Int),
        ("second", BuiltInArgType::Int),
        ("date_style", BuiltInArgType::String),
        ("time_style", BuiltInArgType::String),
        ("weekday", BuiltInArgType::String),
        ("era", BuiltInArgType::String),
        ("year_format", BuiltInArgType::String),
        ("month_format", BuiltInArgType::String),
        ("day_format", BuiltInArgType::String),
        ("hour_format", BuiltInArgType::String),
        ("minute_format", BuiltInArgType::String),
        ("second_format", BuiltInArgType::String),
        ("time_zone_name", BuiltInArgType::String),
        ("hour12", BuiltInArgType::Bool),
        ("time_zone", BuiltInArgType::String),
    ];
    assert(args@.len() == datetime_args().len());
    assert forall|i: int| 0 <= i < args@.len() implies (#[trigger] args@[i]).0@ == datetime_args()[i].0 && args@[i].1 == datetime_args()[i].1 by {}
    builtin_def(
        "DateTime",
        &args,
        Some(
            "{ ftl_builtin :: format_datetime(this.year, this.month, this.day, this.hour, this.minute, this.second, this.date_style.as_deref(), this.time_style.as_deref(), this.weekday.as_deref(), this.era.as_deref(), this.year_format.as_deref(), this.month_format.as_deref(), this.day_format.as_deref(), this.hour_format.as_deref(), this.minute_format.as_deref(), this.second_format.as_deref(), this.time_zone_name.as_deref(), this.hour12, this.time_zone.as_deref(), out, & lang.into(),); }",
        ),
    )
}

}
