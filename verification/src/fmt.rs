//! Generation of the Rust source of one message function.
use vstd::prelude::*;
use vstd::utf8::encode_utf8;
use crate::ast::{Element, ElemV, KeyType, KeyV, ParamType, PT, Variant, VariantV, elem_v, elems_v,
    key_v, params_model, pt_v, str_pairs_v, variants_v, variant_v, lemma_elems_v, lemma_variants_v,
    lemma_str_pairs_v};
use crate::builtin::{BuiltInArgType, BuiltInFuncDef};
use crate::keyed::{gk_lookup, key_lookup, keyed_get, keys_sorted, kv_map, lemma_kv_index, lemma_key_index_bounds};
use crate::plural::{plural_rule_or_fallback, plural_rule_or_fallback_spec};
use crate::text::{dec_str, eq_ignore_ascii_case, push_str, replace, replace_all, str_eq,
    str_eq_ignore_ascii_case, str_result};
use crate::util::{escape_seq, push_escaped, sanitize, sanitize_spec};

verus! {

// ---------------------------------------------------------------------
// Specification of the generated text
// ---------------------------------------------------------------------

/// What `unreachable!()` reports.
pub open spec fn unreachable_msg() -> Seq<char> {
    "internal error: entered unreachable code"@
}

/// The Rust type a parameter is taken as.
pub open spec fn type_str(p: PT) -> Seq<char> {
    match p {
        PT::Str => "impl Into<ftl_core::FluentArg<'a>>"@,
        PT::Num => "impl Into<FluentNum>"@,
        PT::Builtin(t) => t,
    }
}

/// `name: Type` for every parameter, separated by `, ` (also after `&self`).
pub open spec fn param_list(ps: Seq<(Seq<char>, PT)>, with_self: bool) -> Seq<char>
    decreases ps.len(),
{
    if ps.len() == 0 {
        Seq::empty()
    } else {
        param_list(ps.drop_last(), with_self)
            + (if ps.len() > 1 || with_self { ", "@ } else { Seq::empty() })
            + sanitize_spec(ps.last().0) + ": "@ + type_str(ps.last().1)
    }
}

pub open spec fn has_str_param(ps: Seq<(Seq<char>, PT)>) -> bool {
    exists|i: int| 0 <= i < ps.len() && (#[trigger] ps[i]).1 is Str
}

/// The signature of a generated function (after `fn `): the snake-case
/// name, a lifetime when a string parameter exists, the parameters, and
/// `&'static str` as result when there are none, `String` otherwise.
pub open spec fn fn_decl_spec(name: Seq<char>, ps: Seq<(Seq<char>, PT)>, with_self: bool) -> Seq<char> {
    sanitize_spec(name)
        + (if has_str_param(ps) { "<'a>"@ } else { Seq::empty() })
        + "("@ + (if with_self { "&self"@ } else { Seq::empty() })
        + param_list(ps, with_self) + ")"@
        + (if ps.len() == 0 { " -> &'static str"@ } else { " -> String"@ })
}

/// A parameter's type, `Str` when unknown.
pub open spec fn param_type_of(ps: Seq<(Seq<char>, PT)>, name: Seq<char>) -> PT {
    match gk_lookup(ps, name) {
        Some(t) => t,
        None => PT::Str,
    }
}

pub open spec fn is_truthy(raw: Seq<char>) -> bool {
    eq_ignore_ascii_case(raw, "true"@) || raw == "1"@
}

pub open spec fn opt_i64_arg(na: Seq<(Seq<char>, Seq<char>)>, k: Seq<char>) -> Seq<char> {
    match gk_lookup(na, k) {
        Some(raw) => "Some("@ + raw + "i64)"@,
        None => "None"@,
    }
}

pub open spec fn opt_bool_arg(na: Seq<(Seq<char>, Seq<char>)>, k: Seq<char>) -> Seq<char> {
    match gk_lookup(na, k) {
        Some(raw) => if is_truthy(raw) { "Some(true)"@ } else { "Some(false)"@ },
        None => "None"@,
    }
}

pub open spec fn opt_str_arg(na: Seq<(Seq<char>, Seq<char>)>, k: Seq<char>) -> Seq<char> {
    match gk_lookup(na, k) {
        Some(raw) => "Some(\""@ + raw + "\")"@,
        None => "None"@,
    }
}

/// A named-argument value as a Rust literal of the argument's type.
pub open spec fn builtin_arg_spec(raw: Seq<char>, t: BuiltInArgType) -> Seq<char> {
    match t {
        BuiltInArgType::String => "\""@ + raw + "\".to_string()"@,
        BuiltInArgType::Int => raw + "i64"@,
        BuiltInArgType::Float => raw + "f64"@,
        BuiltInArgType::Bool => if is_truthy(raw) { "true"@ } else { "false"@ },
    }
}

/// Builder calls `.name(value)` for each named argument of the definition
/// that the call supplies, in the definition's order.
pub open spec fn builder_calls(defs: Seq<crate::builtin::BuiltInNamedArg>, na: Seq<(Seq<char>, Seq<char>)>) -> Seq<char>
    decreases defs.len(),
{
    if defs.len() == 0 {
        Seq::empty()
    } else {
        let d = defs.last();
        builder_calls(defs.drop_last(), na) + match gk_lookup(na, d.ftl_name@) {
            Some(raw) => "."@ + d.rust_name@ + "("@ + builtin_arg_spec(raw, d.arg_type) + ")"@,
            None => Seq::empty(),
        }
    }
}

pub open spec fn sep_i64(na: Seq<(Seq<char>, Seq<char>)>, k: Seq<char>) -> Seq<char> {
    ", "@ + opt_i64_arg(na, k)
}

pub open spec fn sep_bool(na: Seq<(Seq<char>, Seq<char>)>, k: Seq<char>) -> Seq<char> {
    ", "@ + opt_bool_arg(na, k)
}

pub open spec fn sep_str(na: Seq<(Seq<char>, Seq<char>)>, k: Seq<char>) -> Seq<char> {
    ", "@ + opt_str_arg(na, k)
}

/// `, min-fraction, max-fraction, min-significant, max-significant, min-integer`.
pub open spec fn number_int_args(na: Seq<(Seq<char>, Seq<char>)>) -> Seq<char> {
    sep_i64(na, "minimumFractionDigits"@) + sep_i64(na, "maximumFractionDigits"@)
        + sep_i64(na, "minimumSignificantDigits"@) + sep_i64(na, "maximumSignificantDigits"@)
        + sep_i64(na, "minimumIntegerDigits"@)
}

/// `, grouping, style, currency, currency-display`.
pub open spec fn number_other_args(na: Seq<(Seq<char>, Seq<char>)>) -> Seq<char> {
    sep_bool(na, "useGrouping"@) + sep_str(na, "style"@) + sep_str(na, "currency"@)
        + sep_str(na, "currencyDisplay"@)
}

/// The call of the runtime number formatter for `NUMBER($var, ...)`.
pub open spec fn number_call(var: Seq<char>, na: Seq<(Seq<char>, Seq<char>)>) -> Seq<char> {
    "ftl_core::number::format(*"@ + sanitize_spec(var) + number_int_args(na) + number_other_args(na)
        + ", &mut s, &ftl_core::locale());"@
}

/// `year, month, day`.
pub open spec fn datetime_date_fields(na: Seq<(Seq<char>, Seq<char>)>) -> Seq<char> {
    opt_i64_arg(na, "year"@) + sep_i64(na, "month"@) + sep_i64(na, "day"@)
}

/// `, hour, minute, second`.
pub open spec fn datetime_time_fields(na: Seq<(Seq<char>, Seq<char>)>) -> Seq<char> {
    sep_i64(na, "hour"@) + sep_i64(na, "minute"@) + sep_i64(na, "second"@)
}

/// `year, month, day, hour, minute, second`.
pub open spec fn datetime_fields(na: Seq<(Seq<char>, Seq<char>)>) -> Seq<char> {
    datetime_date_fields(na) + datetime_time_fields(na)
}

/// `, date-style, time-style, weekday, era, year-format`.
pub open spec fn datetime_styles(na: Seq<(Seq<char>, Seq<char>)>) -> Seq<char> {
    sep_str(na, "dateStyle"@) + sep_str(na, "timeStyle"@) + sep_str(na, "weekday"@)
        + sep_str(na, "era"@) + sep_str(na, "yearFormat"@)
}

/// `, month-, day-, hour-, minute-, second-format`.
pub open spec fn datetime_formats(na: Seq<(Seq<char>, Seq<char>)>) -> Seq<char> {
    sep_str(na, "monthFormat"@) + sep_str(na, "dayFormat"@) + sep_str(na, "hourFormat"@)
        + sep_str(na, "minuteFormat"@) + sep_str(na, "secondFormat"@)
}

/// `, zone-name, hour12, zone`.
pub open spec fn datetime_zone(na: Seq<(Seq<char>, Seq<char>)>) -> Seq<char> {
    sep_str(na, "timeZoneName"@) + sep_bool(na, "hour12"@) + sep_str(na, "timeZone"@)
}

/// The call of the runtime date formatter for `DATETIME($var, ...)`.
pub open spec fn datetime_call(na: Seq<(Seq<char>, Seq<char>)>) -> Seq<char> {
    "ftl_core::datetime::format("@ + datetime_fields(na) + datetime_styles(na) + datetime_formats(na)
        + datetime_zone(na) + ", &mut s, &ftl_core::locale());"@
}

/// The statement that appends one element to the output string `s`.
pub open spec fn stmt_spec(e: ElemV, ps: Seq<(Seq<char>, PT)>, indent: Seq<char>,
    builtins: Seq<(String, BuiltInFuncDef)>) -> Result<Seq<char>, Seq<char>>
{
    match e {
        ElemV::Text(t) => Ok(indent + "s.push_str(\""@ + escape_seq(t) + "\");\n"@),
        ElemV::VarRef(name) => Ok(match param_type_of(ps, name) {
            PT::Num => indent + "write!(&mut s, \"{}\", "@ + sanitize_spec(name) + ").unwrap();\n"@,
            PT::Str => indent + sanitize_spec(name) + ".into().write_localized(&mut s);\n"@,
            PT::Builtin(_) => indent + sanitize_spec(name) + ".write_to(&mut s);\n"@,
        }),
        ElemV::BuiltInCall { func_name, var_name, named_args, .. } =>
            if func_name == "NUMBER"@ {
                Ok(indent + number_call(var_name, named_args) + "\n"@)
            } else if func_name == "DATETIME"@ {
                Ok(indent + datetime_call(named_args) + "\n"@)
            } else {
                match key_lookup(builtins, func_name) {
                    None => Err("Built-in function '"@ + func_name + "' not registered"@),
                    Some(def) => Ok(indent + sanitize_spec(var_name) + builder_calls(def.named_args@, named_args)
                        + ".write_to(&mut s);\n"@),
                }
            },
        _ => Err(unreachable_msg()),
    }
}

/// The statements for a list of elements, in order.
pub open spec fn stmts_spec(es: Seq<ElemV>, ps: Seq<(Seq<char>, PT)>, indent: Seq<char>,
    builtins: Seq<(String, BuiltInFuncDef)>) -> Result<Seq<char>, Seq<char>>
    decreases es.len(),
{
    if es.len() == 0 {
        Ok(Seq::empty())
    } else {
        match stmts_spec(es.drop_last(), ps, indent, builtins) {
            Err(e) => Err(e),
            Ok(a) => match stmt_spec(es.last(), ps, indent, builtins) {
                Err(e) => Err(e),
                Ok(b) => Ok(a + b),
            },
        }
    }
}

/// UTF-8 length of a text, as `str::len` reports it.
pub open spec fn text_bytes(t: Seq<char>) -> nat {
    (encode_utf8(t).len() as usize) as nat
}

/// Addition capped at `usize::MAX`.
pub open spec fn sat_add(a: nat, b: nat) -> nat {
    if a + b > usize::MAX { usize::MAX as nat } else { a + b }
}

pub open spec fn flush_parts(parts: Seq<Seq<char>>, acc: nat) -> Seq<Seq<char>> {
    if acc > 0 { parts.push(dec_str(acc)) } else { parts }
}

/// Parts of the capacity sum, and the length of the text run not yet added.
pub open spec fn cap_state(es: Seq<ElemV>) -> Result<(Seq<Seq<char>>, nat), Seq<char>>
    decreases es.len(),
{
    if es.len() == 0 {
        Ok((Seq::empty(), 0))
    } else {
        match cap_state(es.drop_last()) {
            Err(e) => Err(e),
            Ok((parts, acc)) => match es.last() {
                ElemV::Text(t) => Ok((parts, sat_add(acc, text_bytes(t)))),
                ElemV::VarRef(_) | ElemV::BuiltInCall { .. } => Ok((flush_parts(parts, acc).push("32"@), 0)),
                _ => Err(unreachable_msg()),
            },
        }
    }
}

/// Parts joined with ` + `.
pub open spec fn join_plus(ps: Seq<Seq<char>>) -> Seq<char>
    decreases ps.len(),
{
    if ps.len() == 0 {
        Seq::empty()
    } else if ps.len() == 1 {
        ps[0]
    } else {
        join_plus(ps.drop_last()) + " + "@ + ps.last()
    }
}

/// The capacity expression: the byte length of each run of text, and 32
/// for each interpolated value, summed; `0` when there is nothing.
pub open spec fn capacity_spec(es: Seq<ElemV>) -> Result<Seq<char>, Seq<char>> {
    match cap_state(es) {
        Err(e) => Err(e),
        Ok((parts, acc)) => {
            let p = flush_parts(parts, acc);
            Ok(if p.len() == 0 { "0"@ } else { join_plus(p) })
        },
    }
}

/// `let x: FluentNum = x.into();` for every numeric parameter.
pub open spec fn num_convert_spec(ps: Seq<(Seq<char>, PT)>, indent: Seq<char>) -> Seq<char>
    decreases ps.len(),
{
    if ps.len() == 0 {
        Seq::empty()
    } else {
        num_convert_spec(ps.drop_last(), indent) + if ps.last().1 is Num {
            let n = sanitize_spec(ps.last().0);
            indent + "let "@ + n + ": FluentNum = "@ + n + ".into();\n"@
        } else {
            Seq::empty()
        }
    }
}

pub open spec fn all_text(es: Seq<ElemV>) -> bool {
    forall|i: int| 0 <= i < es.len() ==> (#[trigger] es[i]) is Text
}

pub open spec fn any_select(es: Seq<ElemV>) -> bool {
    exists|i: int| 0 <= i < es.len() && (#[trigger] es[i]) is Select
}

/// The text of the text elements, concatenated.
pub open spec fn texts_of(es: Seq<ElemV>) -> Seq<char>
    decreases es.len(),
{
    if es.len() == 0 {
        Seq::empty()
    } else {
        texts_of(es.drop_last()) + match es.last() {
            ElemV::Text(t) => t,
            _ => Seq::empty(),
        }
    }
}

/// The body of a function without a select: a pre-sized `String` filled
/// statement by statement.
pub open spec fn push_body_spec(es: Seq<ElemV>, ps: Seq<(Seq<char>, PT)>,
    builtins: Seq<(String, BuiltInFuncDef)>) -> Result<Seq<char>, Seq<char>>
{
    match capacity_spec(es) {
        Err(e) => Err(e),
        Ok(cap) => match stmts_spec(es, ps, "    "@, builtins) {
            Err(e) => Err(e),
            Ok(st) => Ok("    let cap = "@ + cap + ";\n"@ + num_convert_spec(ps, "    "@)
                + "    let mut s = String::with_capacity(cap);\n"@ + st + "    s\n"@),
        },
    }
}

/// The value of one select arm.
pub open spec fn arm_body_spec(es: Seq<ElemV>, ps: Seq<(Seq<char>, PT)>,
    builtins: Seq<(String, BuiltInFuncDef)>) -> Result<Seq<char>, Seq<char>>
{
    if all_text(es) {
        Ok("\""@ + escape_seq(texts_of(es)) + "\".to_string()"@)
    } else {
        match capacity_spec(es) {
            Err(e) => Err(e),
            Ok(cap) => match stmts_spec(es, ps, "            "@, builtins) {
                Err(e) => Err(e),
                Ok(st) => Ok("{\n"@ + "            let cap = "@ + cap + ";\n"@
                    + "            let mut s = String::with_capacity(cap);\n"@ + st
                    + "            s\n"@ + "        }"@),
            },
        }
    }
}

/// The pattern of a select arm for a string or numeric (`i64`-style) selector.
pub open spec fn arm_pattern_spec(key: KeyV, t: PT, locale: Seq<char>, default: bool) -> Result<Seq<char>, Seq<char>> {
    if default {
        Ok("_"@)
    } else {
        match (key, t) {
            (KeyV::Num(v), _) => Ok(v),
            (KeyV::Ident(cat), PT::Num) => Ok(match plural_rule_or_fallback_spec(locale, cat) {
                Some(r) => if r == "n == 1"@ { "1"@ } else if r == "n == 0"@ { "0"@ } else if r == "n == 2"@ {
                    "2"@ } else { "n if "@ + r },
                None => "n if false"@,
            }),
            (KeyV::Ident(cat), PT::Str) => Ok("\""@ + escape_seq(cat) + "\""@),
            (KeyV::Ident(_), PT::Builtin(_)) => Err("Built-in type cannot be used in select variant pattern"@),
        }
    }
}

/// A CLDR rule over integer `n`, rewritten to truncate the `f64` match value.
pub open spec fn float_guard(r: Seq<char>) -> Seq<char> {
    replace_all(replace_all(replace_all(r, "n !="@, "(n.trunc() as i64) !="@),
        "n =="@, "(n.trunc() as i64) =="@), "n %"@, "(n.trunc() as i64) %"@)
}

/// The pattern of a select arm for an `f64` selector.
pub open spec fn arm_pattern_num_spec(key: KeyV, locale: Seq<char>) -> Seq<char> {
    match key {
        KeyV::Num(v) => v + ".0"@,
        KeyV::Ident(cat) => match plural_rule_or_fallback_spec(locale, cat) {
            Some(r) => if r == "n == 0"@ { "0.0"@ } else if r == "n == 1"@ { "1.0"@ } else if r == "n == 2"@ {
                "2.0"@ } else { "n if "@ + float_guard(r) },
            None => "false"@,
        },
    }
}


/// One arm of a string `match`: pattern, `=>`, value.
pub open spec fn str_arm_spec(v: VariantV, ps: Seq<(Seq<char>, PT)>, locale: Seq<char>,
    builtins: Seq<(String, BuiltInFuncDef)>) -> Result<Seq<char>, Seq<char>>
{
    match arm_pattern_spec(v.key, PT::Str, locale, v.default) {
        Err(e) => Err(e),
        Ok(p) => match arm_body_spec(v.elements, ps, builtins) {
            Err(e) => Err(e),
            Ok(b) => Ok("        "@ + p + " => "@ + b + ",\n"@),
        },
    }
}

/// Select arms for a string selector, for the variants whose `default`
/// flag is `want_default`, in order.
pub open spec fn str_arms_spec(vs: Seq<VariantV>, want_default: bool, ps: Seq<(Seq<char>, PT)>, locale: Seq<char>,
    builtins: Seq<(String, BuiltInFuncDef)>) -> Result<Seq<char>, Seq<char>>
    decreases vs.len(),
{
    if vs.len() == 0 {
        Ok(Seq::empty())
    } else {
        match str_arms_spec(vs.drop_last(), want_default, ps, locale, builtins) {
            Err(e) => Err(e),
            Ok(a) => if vs.last().default != want_default {
                Ok(a)
            } else {
                match str_arm_spec(vs.last(), ps, locale, builtins) {
                    Err(e) => Err(e),
                    Ok(x) => Ok(a + x),
                }
            },
        }
    }
}

/// One arm of a numeric `match`; a default arm matches anything.
pub open spec fn num_arm_spec(v: VariantV, want_default: bool, ps: Seq<(Seq<char>, PT)>, locale: Seq<char>,
    builtins: Seq<(String, BuiltInFuncDef)>) -> Result<Seq<char>, Seq<char>>
{
    match arm_body_spec(v.elements, ps, builtins) {
        Err(e) => Err(e),
        Ok(b) => Ok((if want_default { "        _"@ } else { "        "@ + arm_pattern_num_spec(v.key, locale) })
            + " => "@ + b + ",\n"@),
    }
}

/// Select arms for a numeric selector, for the variants whose `default`
/// flag is `want_default`, in order.
pub open spec fn num_arms_spec(vs: Seq<VariantV>, want_default: bool, ps: Seq<(Seq<char>, PT)>, locale: Seq<char>,
    builtins: Seq<(String, BuiltInFuncDef)>) -> Result<Seq<char>, Seq<char>>
    decreases vs.len(),
{
    if vs.len() == 0 {
        Ok(Seq::empty())
    } else {
        match num_arms_spec(vs.drop_last(), want_default, ps, locale, builtins) {
            Err(e) => Err(e),
            Ok(a) => if vs.last().default != want_default {
                Ok(a)
            } else {
                match num_arm_spec(vs.last(), want_default, ps, locale, builtins) {
                    Err(e) => Err(e),
                    Ok(x) => Ok(a + x),
                }
            },
        }
    }
}

/// The first select element: its selector and variants.
pub open spec fn first_select(es: Seq<ElemV>) -> Option<(Seq<char>, Seq<VariantV>)>
    decreases es.len(),
{
    if es.len() == 0 {
        None
    } else {
        match es[0] {
            ElemV::Select { selector, variants } => Some((selector, variants)),
            _ => first_select(es.drop_first()),
        }
    }
}

/// The body of a function with a select: a `match` over the first select's
/// selector, non-default arms first, then the default arm. Other elements
/// are not part of the body.
pub open spec fn select_body_spec(es: Seq<ElemV>, ps: Seq<(Seq<char>, PT)>, locale: Seq<char>,
    builtins: Seq<(String, BuiltInFuncDef)>) -> Result<Seq<char>, Seq<char>>
{
    match first_select(es) {
        None => Err("gen_select_body called without Select"@),
        Some((sel, vs)) => {
            let n = sanitize_spec(sel);
            match (match gk_lookup(ps, sel) { Some(t) => t, None => PT::Num }) {
                PT::Builtin(_) => Err("Cannot use '"@ + sel + "' (built-in type) as a select selector"@),
                PT::Str => match str_arms_spec(vs, false, ps, locale, builtins) {
                    Err(e) => Err(e),
                    Ok(a1) => match str_arms_spec(vs, true, ps, locale, builtins) {
                        Err(e) => Err(e),
                        Ok(a2) => Ok("    let __sel: String = match "@ + n + ".into() {\n"@
                            + "        FluentArg::Str(s) => s.into_owned(),\n"@
                            + "        _ => return String::new(),\n"@ + "    };\n"@
                            + "    match __sel.as_str() {\n"@ + a1 + a2 + "    }\n"@),
                    },
                },
                PT::Num => match num_arms_spec(vs, false, ps, locale, builtins) {
                    Err(e) => Err(e),
                    Ok(a1) => match num_arms_spec(vs, true, ps, locale, builtins) {
                        Err(e) => Err(e),
                        Ok(a2) => Ok("    let "@ + n + ": FluentNum = "@ + n + ".into();\n"@
                            + "    match *"@ + n + " {\n"@ + a1 + a2 + "    }\n"@),
                    },
                },
            }
        },
    }
}

/// The source of one generated function: a `&'static str` constant for
/// pure text, a `match` for a select, statements pushing to a `String`
/// otherwise; each is marked `#[inline]`.
pub open spec fn fn_spec(name: Seq<char>, es: Seq<ElemV>, ps: Seq<(Seq<char>, PT)>, locale: Seq<char>,
    builtins: Seq<(String, BuiltInFuncDef)>) -> Result<Seq<char>, Seq<char>>
{
    let decl = fn_decl_spec(name, ps, false);
    if all_text(es) {
        Ok("#[inline]\n"@ + "pub fn "@ + decl + " { \""@ + escape_seq(texts_of(es)) + "\" }\n"@)
    } else if any_select(es) {
        match select_body_spec(es, ps, locale, builtins) {
            Err(e) => Err(e),
            Ok(b) => Ok("#[inline]\n"@ + "pub fn "@ + decl + " {\n"@ + b + "\n"@ + "}\n"@),
        }
    } else {
        match push_body_spec(es, ps, builtins) {
            Err(e) => Err(e),
            Ok(b) => Ok("#[inline]\n"@ + "pub fn "@ + decl + " {\n"@ + b + "\n"@ + "}\n"@),
        }
    }
}


// ---------------------------------------------------------------------
// Generation
// ---------------------------------------------------------------------

pub proof fn lemma_params_lookup(params: Seq<(String, ParamType)>, k: Seq<char>)
    ensures
        key_lookup(params, k) matches Some(t) ==> gk_lookup(params_model(params), k) == Some(pt_v(t)),
        key_lookup(params, k) is None ==> gk_lookup(params_model(params), k) is None,
{
    lemma_kv_index(params, |x: ParamType| pt_v(x), k);
    lemma_key_index_bounds(params, k);
}

pub proof fn lemma_named_lookup(na: Seq<(String, String)>, k: Seq<char>)
    ensures
        key_lookup(na, k) matches Some(r) ==> gk_lookup(str_pairs_v(na), k) == Some(r@),
        key_lookup(na, k) is None ==> gk_lookup(str_pairs_v(na), k) is None,
{
    let f = |s: String| s@;
    lemma_str_pairs_v(na);
    assert(str_pairs_v(na) =~= kv_map(na, f));
    lemma_kv_index(na, f, k);
    lemma_key_index_bounds(na, k);
}

/// The type of parameter `name`; `default` when it is not a parameter.
fn lookup_param_type(params: &Vec<(String, ParamType)>, name: &str, default: ParamType) -> (res: ParamType)
    ensures
        pt_v(res) == (match gk_lookup(params_model(params@), name@) { Some(t) => t, None => pt_v(default) }),
{
    proof {
        lemma_params_lookup(params@, name@);
    }
    match keyed_get(params, name) {
        Some(t) => crate::ast::copy_param_type(t),
        None => default,
    }
}

/// The signature of a generated function (what follows `fn `). The
/// parameters are given, and listed, in ascending name order.
pub fn gen_fn_decl(name: &str, params: &Vec<(String, ParamType)>, with_self: bool,
    _builtins: &Vec<(String, BuiltInFuncDef)>) -> (res: String)
    requires
        keys_sorted(params@),
    ensures
        res@ == fn_decl_spec(name@, params_model(params@), with_self),
{
    let ghost pm = params_model(params@);
    let mut out = sanitize(name);
    let mut has_str = false;
    let mut i: usize = 0;
    while i < params.len()
        invariant
            pm == params_model(params@),
            i <= params@.len(),
            has_str == exists|j: int| 0 <= j < i && (#[trigger] pm[j]).1 is Str,
        decreases params@.len() - i,
    {
        if let ParamType::Str = &params[i].1 {
            assert(pm[i as int].1 is Str);
            has_str = true;
        }
        i += 1;
    }
    if has_str {
        push_str(&mut out, "<'a>");
    }
    push_str(&mut out, "(");
    if with_self {
        push_str(&mut out, "&self");
    }
    let ghost head = out@;
    assert(pm.subrange(0, 0) =~= Seq::<(Seq<char>, PT)>::empty());
    i = 0;
    while i < params.len()
        invariant
            pm == params_model(params@),
            i <= params@.len(),
            out@ == head + param_list(pm.subrange(0, i as int), with_self),
        decreases params@.len() - i,
    {
        let ghost before = out@;
        if i > 0 || with_self {
            push_str(&mut out, ", ");
        }
        let pn = sanitize(params[i].0.as_str());
        push_str(&mut out, pn.as_str());
        push_str(&mut out, ": ");
        match &params[i].1 {
            ParamType::Str => push_str(&mut out, "impl Into<ftl_core::FluentArg<'a>>"),
            ParamType::Num => push_str(&mut out, "impl Into<FluentNum>"),
            ParamType::Builtin(t) => push_str(&mut out, t.as_str()),
        }
        assert(pm.subrange(0, i + 1).drop_last() =~= pm.subrange(0, i as int));
        assert(out@ =~= head + param_list(pm.subrange(0, i + 1), with_self));
        i += 1;
    }
    assert(pm.subrange(0, i as int) =~= pm);
    push_str(&mut out, ")");
    if params.len() == 0 {
        push_str(&mut out, " -> &'static str");
    } else {
        push_str(&mut out, " -> String");
    }
    assert(out@ =~= fn_decl_spec(name@, pm, with_self));
    out
}

/// Whether some element is a select.
pub fn has_select(elements: &Vec<Element>) -> (res: bool)
    ensures
        res == any_select(elems_v(elements@)),
{
    proof {
        lemma_elems_v(elements@);
    }
    let mut i: usize = 0;
    while i < elements.len()
        invariant
            i <= elements@.len(),
            elems_v(elements@).len() == elements@.len(),
            forall|j: int| 0 <= j < elements@.len() ==> #[trigger] elems_v(elements@)[j] == elem_v(elements@[j]),
            forall|j: int| 0 <= j < i ==> !((#[trigger] elems_v(elements@)[j]) is Select),
        decreases elements@.len() - i,
    {
        if let Element::Select { .. } = &elements[i] {
            assert(elems_v(elements@)[i as int] is Select);
            return true;
        }
        i += 1;
    }
    false
}

/// Whether every element is text.
pub fn is_pure_text(elements: &Vec<Element>) -> (res: bool)
    ensures
        res == all_text(elems_v(elements@)),
{
    proof {
        lemma_elems_v(elements@);
    }
    let mut i: usize = 0;
    while i < elements.len()
        invariant
            i <= elements@.len(),
            elems_v(elements@).len() == elements@.len(),
            forall|j: int| 0 <= j < elements@.len() ==> #[trigger] elems_v(elements@)[j] == elem_v(elements@[j]),
            forall|j: int| 0 <= j < i ==> (#[trigger] elems_v(elements@)[j]) is Text,
        decreases elements@.len() - i,
    {
        if let Element::Text(_) = &elements[i] {
        } else {
            assert(!(elems_v(elements@)[i as int] is Text));
            return false;
        }
        i += 1;
    }
    true
}

/// The concatenated text of the text elements.
pub fn texts(elements: &Vec<Element>) -> (res: String)
    ensures
        res@ == texts_of(elems_v(elements@)),
{
    let ghost es = elems_v(elements@);
    proof {
        lemma_elems_v(elements@);
    }
    let mut out = String::new();
    let mut i: usize = 0;
    while i < elements.len()
        invariant
            es == elems_v(elements@),
            i <= elements@.len(),
            es.len() == elements@.len(),
            forall|j: int| 0 <= j < elements@.len() ==> #[trigger] es[j] == elem_v(elements@[j]),
            out@ == texts_of(es.subrange(0, i as int)),
        decreases elements@.len() - i,
    {
        let ghost before = out@;
        if let Element::Text(t) = &elements[i] {
            push_str(&mut out, t.as_str());
        }
        assert(es.subrange(0, i + 1).drop_last() =~= es.subrange(0, i as int));
        assert(out@ =~= texts_of(es.subrange(0, i + 1)));
        i += 1;
    }
    assert(es.subrange(0, i as int) =~= es);
    out
}

fn push_opt_i64(out: &mut String, na: &Vec<(String, String)>, k: &str)
    ensures
        final(out)@ == old(out)@ + opt_i64_arg(str_pairs_v(na@), k@),
{
    proof {
        lemma_named_lookup(na@, k@);
    }
    match keyed_get(na, k) {
        Some(raw) => {
            push_str(out, "Some(");
            push_str(out, raw.as_str());
            push_str(out, "i64)");
        },
        None => push_str(out, "None"),
    }
    assert(final(out)@ =~= old(out)@ + opt_i64_arg(str_pairs_v(na@), k@));
}

fn push_opt_bool(out: &mut String, na: &Vec<(String, String)>, k: &str)
    ensures
        final(out)@ == old(out)@ + opt_bool_arg(str_pairs_v(na@), k@),
{
    proof {
        lemma_named_lookup(na@, k@);
    }
    match keyed_get(na, k) {
        Some(raw) => {
            if str_eq_ignore_ascii_case(raw.as_str(), "true") || str_eq(raw.as_str(), "1") {
                push_str(out, "Some(true)");
            } else {
                push_str(out, "Some(false)");
            }
        },
        None => push_str(out, "None"),
    }
}

fn push_opt_str(out: &mut String, na: &Vec<(String, String)>, k: &str)
    ensures
        final(out)@ == old(out)@ + opt_str_arg(str_pairs_v(na@), k@),
{
    proof {
        lemma_named_lookup(na@, k@);
    }
    match keyed_get(na, k) {
        Some(raw) => {
            push_str(out, "Some(\"");
            push_str(out, raw.as_str());
            push_str(out, "\")");
        },
        None => push_str(out, "None"),
    }
    assert(final(out)@ =~= old(out)@ + opt_str_arg(str_pairs_v(na@), k@));
}

fn push_sep_i64(out: &mut String, na: &Vec<(String, String)>, k: &str)
    ensures
        final(out)@ == old(out)@ + sep_i64(str_pairs_v(na@), k@),
{
    let ghost o = old(out)@;
    push_str(out, ", ");
    push_opt_i64(out, na, k);
    assert(out@ =~= o + sep_i64(str_pairs_v(na@), k@));
}

fn push_sep_bool(out: &mut String, na: &Vec<(String, String)>, k: &str)
    ensures
        final(out)@ == old(out)@ + sep_bool(str_pairs_v(na@), k@),
{
    let ghost o = old(out)@;
    push_str(out, ", ");
    push_opt_bool(out, na, k);
    assert(out@ =~= o + sep_bool(str_pairs_v(na@), k@));
}

fn push_sep_str(out: &mut String, na: &Vec<(String, String)>, k: &str)
    ensures
        final(out)@ == old(out)@ + sep_str(str_pairs_v(na@), k@),
{
    let ghost o = old(out)@;
    push_str(out, ", ");
    push_opt_str(out, na, k);
    assert(out@ =~= o + sep_str(str_pairs_v(na@), k@));
}

/// A named-argument value as a Rust literal of the argument's type.
pub fn format_builtin_arg(raw: &str, arg_type: &BuiltInArgType) -> (res: String)
    ensures
        res@ == builtin_arg_spec(raw@, *arg_type),
{
    let mut out = String::new();
    match arg_type {
        BuiltInArgType::String => {
            push_str(&mut out, "\"");
            push_str(&mut out, raw);
            push_str(&mut out, "\".to_string()");
        },
        BuiltInArgType::Int => {
            push_str(&mut out, raw);
            push_str(&mut out, "i64");
        },
        BuiltInArgType::Float => {
            push_str(&mut out, raw);
            push_str(&mut out, "f64");
        },
        BuiltInArgType::Bool => {
            if str_eq_ignore_ascii_case(raw, "true") || str_eq(raw, "1") {
                push_str(&mut out, "true");
            } else {
                push_str(&mut out, "false");
            }
        },
    }
    assert(out@ =~= builtin_arg_spec(raw@, *arg_type));
    out
}

fn push_number_int_args(out: &mut String, na: &Vec<(String, String)>)
    ensures
        final(out)@ == old(out)@ + number_int_args(str_pairs_v(na@)),
{
    let ghost o = old(out)@;
    push_sep_i64(out, na, "minimumFractionDigits");
    push_sep_i64(out, na, "maximumFractionDigits");
    push_sep_i64(out, na, "minimumSignificantDigits");
    push_sep_i64(out, na, "maximumSignificantDigits");
    push_sep_i64(out, na, "minimumIntegerDigits");
    assert(out@ =~= o + number_int_args(str_pairs_v(na@)));
}

fn push_number_other_args(out: &mut String, na: &Vec<(String, String)>)
    ensures
        final(out)@ == old(out)@ + number_other_args(str_pairs_v(na@)),
{
    let ghost o = old(out)@;
    push_sep_bool(out, na, "useGrouping");
    push_sep_str(out, na, "style");
    push_sep_str(out, na, "currency");
    push_sep_str(out, na, "currencyDisplay");
    assert(out@ =~= o + number_other_args(str_pairs_v(na@)));
}

fn push_number_call(out: &mut String, var: &str, na: &Vec<(String, String)>)
    ensures
        final(out)@ == old(out)@ + number_call(var@, str_pairs_v(na@)),
{
    let ghost o = old(out)@;
    push_str(out, "ftl_core::number::format(*");
    let v = sanitize(var);
    push_str(out, v.as_str());
    push_number_int_args(out, na);
    push_number_other_args(out, na);
    push_str(out, ", &mut s, &ftl_core::locale());");
    assert(out@ =~= o + number_call(var@, str_pairs_v(na@)));
}

fn push_datetime_date_fields(out: &mut String, na: &Vec<(String, String)>)
    ensures
        final(out)@ == old(out)@ + datetime_date_fields(str_pairs_v(na@)),
{
    let ghost o = old(out)@;
    push_opt_i64(out, na, "year");
    push_sep_i64(out, na, "month");
    push_sep_i64(out, na, "day");
    assert(out@ =~= o + datetime_date_fields(str_pairs_v(na@)));
}

fn push_datetime_time_fields(out: &mut String, na: &Vec<(String, String)>)
    ensures
        final(out)@ == old(out)@ + datetime_time_fields(str_pairs_v(na@)),
{
    let ghost o = old(out)@;
    push_sep_i64(out, na, "hour");
    push_sep_i64(out, na, "minute");
    push_sep_i64(out, na, "second");
    assert(out@ =~= o + datetime_time_fields(str_pairs_v(na@)));
}

fn push_datetime_fields(out: &mut String, na: &Vec<(String, String)>)
    ensures
        final(out)@ == old(out)@ + datetime_fields(str_pairs_v(na@)),
{
    let ghost o = old(out)@;
    push_datetime_date_fields(out, na);
    push_datetime_time_fields(out, na);
    assert(out@ =~= o + datetime_fields(str_pairs_v(na@)));
}

fn push_datetime_styles(out: &mut String, na: &Vec<(String, String)>)
    ensures
        final(out)@ == old(out)@ + datetime_styles(str_pairs_v(na@)),
{
    let ghost o = old(out)@;
    push_sep_str(out, na, "dateStyle");
    push_sep_str(out, na, "timeStyle");
    push_sep_str(out, na, "weekday");
    push_sep_str(out, na, "era");
    push_sep_str(out, na, "yearFormat");
    assert(out@ =~= o + datetime_styles(str_pairs_v(na@)));
}

fn push_datetime_formats(out: &mut String, na: &Vec<(String, String)>)
    ensures
        final(out)@ == old(out)@ + datetime_formats(str_pairs_v(na@)),
{
    let ghost o = old(out)@;
    push_sep_str(out, na, "monthFormat");
    push_sep_str(out, na, "dayFormat");
    push_sep_str(out, na, "hourFormat");
    push_sep_str(out, na, "minuteFormat");
    push_sep_str(out, na, "secondFormat");
    assert(out@ =~= o + datetime_formats(str_pairs_v(na@)));
}

fn push_datetime_zone(out: &mut String, na: &Vec<(String, String)>)
    ensures
        final(out)@ == old(out)@ + datetime_zone(str_pairs_v(na@)),
{
    let ghost o = old(out)@;
    push_sep_str(out, na, "timeZoneName");
    push_sep_bool(out, na, "hour12");
    push_sep_str(out, na, "timeZone");
    assert(out@ =~= o + datetime_zone(str_pairs_v(na@)));
}

fn push_datetime_call(out: &mut String, na: &Vec<(String, String)>)
    ensures
        final(out)@ == old(out)@ + datetime_call(str_pairs_v(na@)),
{
    let ghost o = old(out)@;
    push_str(out, "ftl_core::datetime::format(");
    push_datetime_fields(out, na);
    push_datetime_styles(out, na);
    push_datetime_formats(out, na);
    push_datetime_zone(out, na);
    push_str(out, ", &mut s, &ftl_core::locale());");
    assert(out@ =~= o + datetime_call(str_pairs_v(na@)));
}

fn push_builder_calls(out: &mut String, def: &BuiltInFuncDef, na: &Vec<(String, String)>)
    ensures
        final(out)@ == old(out)@ + builder_calls(def.named_args@, str_pairs_v(na@)),
{
    let ghost o = old(out)@;
    let ghost ds = def.named_args@;
    let mut i: usize = 0;
    assert(ds.subrange(0, 0) =~= Seq::<crate::builtin::BuiltInNamedArg>::empty());
    while i < def.named_args.len()
        invariant
            ds == def.named_args@,
            i <= ds.len(),
            out@ == o + builder_calls(ds.subrange(0, i as int), str_pairs_v(na@)),
        decreases ds.len() - i,
    {
        let ghost before = out@;
        let a = &def.named_args[i];
        proof {
            lemma_named_lookup(na@, a.ftl_name@);
        }
        match keyed_get(na, a.ftl_name.as_str()) {
            Some(raw) => {
                push_str(out, ".");
                push_str(out, a.rust_name.as_str());
                push_str(out, "(");
                let v = format_builtin_arg(raw.as_str(), &a.arg_type);
                push_str(out, v.as_str());
                push_str(out, ")");
            },
            None => {},
        }
        assert(ds.subrange(0, i + 1).drop_last() =~= ds.subrange(0, i as int));
        assert(out@ =~= o + builder_calls(ds.subrange(0, i + 1), str_pairs_v(na@)));
        i += 1;
    }
    assert(ds.subrange(0, i as int) =~= ds);
}

fn push_stmt(code: &mut String, e: &Element, params: &Vec<(String, ParamType)>, indent: &str,
    builtins: &Vec<(String, BuiltInFuncDef)>) -> (res: Result<(), String>)
    ensures
        match res {
            Ok(()) => match stmt_spec(elem_v(*e), params_model(params@), indent@, builtins@) {
                Ok(p) => final(code)@ == old(code)@ + p,
                Err(_) => false,
            },
            Err(m) => stmt_spec(elem_v(*e), params_model(params@), indent@, builtins@) == Err::<Seq<char>, Seq<char>>(m@)
                && final(code)@ == old(code)@,
        },
{
    let ghost o = code@;
    let ghost pm = params_model(params@);
    match e {
        Element::Text(t) => {
            push_str(code, indent);
            push_str(code, "s.push_str(\"");
            push_escaped(code, t.as_str());
            push_str(code, "\");\n");
            assert(code@ =~= o + (indent@ + "s.push_str(\""@ + escape_seq(t@) + "\");\n"@));
        },
        Element::VarRef(name) => {
            let n = sanitize(name.as_str());
            push_str(code, indent);
            match lookup_param_type(params, name.as_str(), ParamType::Str) {
                ParamType::Num => {
                    push_str(code, "write!(&mut s, \"{}\", ");
                    push_str(code, n.as_str());
                    push_str(code, ").unwrap();\n");
                    assert(code@ =~= o + (indent@ + "write!(&mut s, \"{}\", "@ + sanitize_spec(name@) + ").unwrap();\n"@));
                },
                ParamType::Str => {
                    push_str(code, n.as_str());
                    push_str(code, ".into().write_localized(&mut s);\n");
                    assert(code@ =~= o + (indent@ + sanitize_spec(name@) + ".into().write_localized(&mut s);\n"@));
                },
                ParamType::Builtin(_) => {
                    push_str(code, n.as_str());
                    push_str(code, ".write_to(&mut s);\n");
                    assert(code@ =~= o + (indent@ + sanitize_spec(name@) + ".write_to(&mut s);\n"@));
                },
            }
        },
        Element::BuiltInCall { func_name, var_name, named_args, .. } => {
            if str_eq(func_name.as_str(), "NUMBER") {
                push_str(code, indent);
                push_number_call(code, var_name.as_str(), named_args);
                push_str(code, "\n");
                assert(code@ =~= o + (indent@ + number_call(var_name@, str_pairs_v(named_args@)) + "\n"@));
            } else if str_eq(func_name.as_str(), "DATETIME") {
                push_str(code, indent);
                push_datetime_call(code, named_args);
                push_str(code, "\n");
                assert(code@ =~= o + (indent@ + datetime_call(str_pairs_v(named_args@)) + "\n"@));
            } else {
                match keyed_get(builtins, func_name.as_str()) {
                    None => {
                        let mut m = String::new();
                        push_str(&mut m, "Built-in function '");
                        push_str(&mut m, func_name.as_str());
                        push_str(&mut m, "' not registered");
                        assert(m@ =~= "Built-in function '"@ + func_name@ + "' not registered"@);
                        return Err(m);
                    },
                    Some(def) => {
                        push_str(code, indent);
                        let v = sanitize(var_name.as_str());
                        push_str(code, v.as_str());
                        push_builder_calls(code, def, named_args);
                        push_str(code, ".write_to(&mut s);\n");
                        assert(code@ =~= o + (indent@ + sanitize_spec(var_name@)
                            + builder_calls(def.named_args@, str_pairs_v(named_args@)) + ".write_to(&mut s);\n"@));
                    },
                }
            }
        },
        _ => {
            return Err(crate::text::string_of("internal error: entered unreachable code"));
        },
    }
    Ok(())
}


proof fn lemma_stmts_err_prefix(es: Seq<ElemV>, ps: Seq<(Seq<char>, PT)>, indent: Seq<char>,
    builtins: Seq<(String, BuiltInFuncDef)>, n: int, m: Seq<char>)
    requires
        0 <= n <= es.len(),
        stmts_spec(es.subrange(0, n), ps, indent, builtins) == Err::<Seq<char>, Seq<char>>(m),
    ensures
        stmts_spec(es, ps, indent, builtins) == Err::<Seq<char>, Seq<char>>(m),
    decreases es.len() - n,
{
    if n == es.len() {
        assert(es.subrange(0, n) =~= es);
    } else {
        assert(es.subrange(0, n + 1).drop_last() =~= es.subrange(0, n));
        lemma_stmts_err_prefix(es, ps, indent, builtins, n + 1, m);
    }
}

/// An element that has a push statement: a text, a variable, or a call of
/// `NUMBER`, `DATETIME` or a registered built-in.
pub open spec fn stmt_supported(e: ElemV, builtins: Seq<(String, BuiltInFuncDef)>) -> bool {
    match e {
        ElemV::Text(_) => true,
        ElemV::VarRef(_) => true,
        ElemV::BuiltInCall { func_name, .. } =>
            func_name == "NUMBER"@ || func_name == "DATETIME"@ || key_lookup(builtins, func_name) is Some,
        _ => false,
    }
}

pub open spec fn stmts_supported(es: Seq<ElemV>, builtins: Seq<(String, BuiltInFuncDef)>) -> bool {
    forall|i: int| 0 <= i < es.len() ==> stmt_supported(#[trigger] es[i], builtins)
}

/// The statements of a list exist exactly when each element has one.
pub proof fn lemma_stmts_ok_iff_supported(es: Seq<ElemV>, ps: Seq<(Seq<char>, PT)>, indent: Seq<char>,
    builtins: Seq<(String, BuiltInFuncDef)>)
    ensures
        stmts_spec(es, ps, indent, builtins) is Ok <==> stmts_supported(es, builtins),
    decreases es.len(),
{
    if es.len() > 0 {
        lemma_stmts_ok_iff_supported(es.drop_last(), ps, indent, builtins);
        assert(stmt_spec(es.last(), ps, indent, builtins) is Ok <==> stmt_supported(es.last(), builtins));
        if stmts_supported(es, builtins) {
            assert forall|i: int| 0 <= i < es.drop_last().len() implies
                stmt_supported(#[trigger] es.drop_last()[i], builtins) by {
                assert(es.drop_last()[i] == es[i]);
            }
        }
        if stmts_supported(es.drop_last(), builtins) && stmt_supported(es.last(), builtins) {
            assert forall|i: int| 0 <= i < es.len() implies stmt_supported(#[trigger] es[i], builtins) by {
                if i < es.len() - 1 {
                    assert(es.drop_last()[i] == es[i]);
                }
            }
        }
    }
}

/// The statements of a concatenation: those of the first part followed by
/// those of the second; the first failing element's message otherwise.
pub proof fn lemma_stmts_concat(a: Seq<ElemV>, b: Seq<ElemV>, ps: Seq<(Seq<char>, PT)>, indent: Seq<char>,
    builtins: Seq<(String, BuiltInFuncDef)>)
    ensures
        stmts_spec(a + b, ps, indent, builtins) == match stmts_spec(a, ps, indent, builtins) {
            Err(e) => Err(e),
            Ok(x) => match stmts_spec(b, ps, indent, builtins) {
                Err(e) => Err(e),
                Ok(y) => Ok::<Seq<char>, Seq<char>>(x + y),
            },
        },
    decreases b.len(),
{
    if b.len() == 0 {
        assert(a + b =~= a);
        if let Ok(x) = stmts_spec(a, ps, indent, builtins) {
            assert(x + Seq::<char>::empty() =~= x);
        }
    } else {
        lemma_stmts_concat(a, b.drop_last(), ps, indent, builtins);
        assert((a + b).drop_last() =~= a + b.drop_last());
        assert((a + b).last() == b.last());
        if let Ok(x) = stmts_spec(a, ps, indent, builtins) {
            if let Ok(y) = stmts_spec(b.drop_last(), ps, indent, builtins) {
                if let Ok(z) = stmt_spec(b.last(), ps, indent, builtins) {
                    assert(x + y + z =~= x + (y + z));
                }
            }
        }
    }
}

/// Appends the statements that push each element to `s`. Every element
/// must have one; `try_emit_push_statements` checks them.
pub fn emit_push_statements(elements: &Vec<Element>, params: &Vec<(String, ParamType)>, indent: &str,
    builtins: &Vec<(String, BuiltInFuncDef)>, code: &mut String)
    requires
        stmts_supported(elems_v(elements@), builtins@),
    ensures
        stmts_spec(elems_v(elements@), params_model(params@), indent@, builtins@) matches Ok(p)
            && final(code)@ == old(code)@ + p,
{
    proof {
        lemma_stmts_ok_iff_supported(elems_v(elements@), params_model(params@), indent@, builtins@);
    }
    match try_emit_push_statements(elements, params, indent, builtins, code) {
        Ok(()) => {},
        Err(_) => {
            proof {
                assert(false);
            }
        },
    }
}

/// Appends the statements that push each element to `s`, or gives the
/// message of the first element that has none (an unregistered built-in);
/// the statements of the elements before it are then appended already.
pub fn try_emit_push_statements(elements: &Vec<Element>, params: &Vec<(String, ParamType)>, indent: &str,
    builtins: &Vec<(String, BuiltInFuncDef)>, code: &mut String) -> (res: Result<(), String>)
    ensures
        match res {
            Ok(()) => match stmts_spec(elems_v(elements@), params_model(params@), indent@, builtins@) {
                Ok(p) => final(code)@ == old(code)@ + p,
                Err(_) => false,
            },
            Err(m) => stmts_spec(elems_v(elements@), params_model(params@), indent@, builtins@)
                == Err::<Seq<char>, Seq<char>>(m@) && old(code)@.is_prefix_of(final(code)@),
        },
{
    let ghost es = elems_v(elements@);
    let ghost pm = params_model(params@);
    let ghost o = code@;
    proof {
        lemma_elems_v(elements@);
        assert(es.subrange(0, 0) =~= Seq::<ElemV>::empty());
    }
    let mut i: usize = 0;
    while i < elements.len()
        invariant
            es == elems_v(elements@),
            pm == params_model(params@),
            es.len() == elements@.len(),
            forall|j: int| 0 <= j < elements@.len() ==> #[trigger] es[j] == elem_v(elements@[j]),
            i <= elements@.len(),
            o == old(code)@,
            match stmts_spec(es.subrange(0, i as int), pm, indent@, builtins@) {
                Ok(p) => code@ == o + p,
                Err(_) => false,
            },
        decreases elements@.len() - i,
    {
        let ghost before = code@;
        proof {
            assert(es.subrange(0, i + 1).drop_last() =~= es.subrange(0, i as int));
            assert(es.subrange(0, i + 1).last() == elem_v(elements@[i as int]));
        }
        match push_stmt(code, &elements[i], params, indent, builtins) {
            Ok(()) => {
                proof {
                    let p = stmts_spec(es.subrange(0, i as int), pm, indent@, builtins@)->Ok_0;
                    let q = stmt_spec(elem_v(elements@[i as int]), pm, indent@, builtins@)->Ok_0;
                    assert(code@ =~= o + (p + q));
                }
            },
            Err(m) => {
                proof {
                    lemma_stmts_err_prefix(es, pm, indent@, builtins@, i + 1, m@);
                    assert(code@ == before);
                    assert(code@.subrange(0, o.len() as int) =~= o);
                }
                return Err(m);
            },
        }
        i += 1;
    }
    assert(es.subrange(0, i as int) =~= es);
    Ok(())
}

spec fn strings_v(v: Seq<String>) -> Seq<Seq<char>> {
    v.map_values(|s: String| s@)
}

fn join_parts(parts: &Vec<String>) -> (res: String)
    requires
        parts@.len() > 0,
    ensures
        res@ == join_plus(strings_v(parts@)),
{
    let ghost pv = strings_v(parts@);
    let mut out = crate::ast::copy_string(&parts[0]);
    let mut i: usize = 1;
    assert(pv.subrange(0, 1) =~= seq![pv[0]]);
    while i < parts.len()
        invariant
            pv == strings_v(parts@),
            1 <= i <= parts@.len(),
            out@ == join_plus(pv.subrange(0, i as int)),
        decreases parts@.len() - i,
    {
        push_str(&mut out, " + ");
        push_str(&mut out, parts[i].as_str());
        assert(pv.subrange(0, i + 1).drop_last() =~= pv.subrange(0, i as int));
        i += 1;
    }
    assert(pv.subrange(0, i as int) =~= pv);
    out
}

/// The capacity expression of a list of text and interpolation elements.
pub fn capacity_expr(elements: &Vec<Element>, params: &Vec<(String, ParamType)>) -> (res: Result<String, String>)
    ensures
        match res {
            Ok(c) => capacity_spec(elems_v(elements@)) == Ok::<Seq<char>, Seq<char>>(c@),
            Err(m) => capacity_spec(elems_v(elements@)) == Err::<Seq<char>, Seq<char>>(m@),
        },
{
    let ghost es = elems_v(elements@);
    proof {
        lemma_elems_v(elements@);
        assert(es.subrange(0, 0) =~= Seq::<ElemV>::empty());
        assert(strings_v(Seq::<String>::empty()) =~= Seq::<Seq<char>>::empty());
    }
    let mut parts: Vec<String> = Vec::new();
    let mut acc: usize = 0;
    let mut i: usize = 0;
    while i < elements.len()
        invariant
            es == elems_v(elements@),
            es.len() == elements@.len(),
            forall|j: int| 0 <= j < elements@.len() ==> #[trigger] es[j] == elem_v(elements@[j]),
            i <= elements@.len(),
            cap_state(es.subrange(0, i as int)) == Ok::<(Seq<Seq<char>>, nat), Seq<char>>((strings_v(parts@), acc as nat)),
        decreases elements@.len() - i,
    {
        proof {
            assert(es.subrange(0, i + 1).drop_last() =~= es.subrange(0, i as int));
            assert(es.subrange(0, i + 1).last() == elem_v(elements@[i as int]));
        }
        match &elements[i] {
            Element::Text(t) => {
                let n = t.as_str().len();
                assert(n == text_bytes(t@));
                if acc > usize::MAX - n {
                    acc = usize::MAX;
                } else {
                    acc = acc + n;
                }
                assert(strings_v(parts@) == cap_state(es.subrange(0, i + 1))->Ok_0.0);
            },
            Element::VarRef(_) | Element::BuiltInCall { .. } => {
                if acc > 0 {
                    parts.push(crate::text::usize_to_string(acc));
                    acc = 0;
                }
                parts.push(crate::text::string_of("32"));
                assert(strings_v(parts@) =~= flush_parts(cap_state(es.subrange(0, i as int))->Ok_0.0,
                    cap_state(es.subrange(0, i as int))->Ok_0.1).push("32"@));
            },
            _ => {
                proof {
                    assert(cap_state(es.subrange(0, i + 1)) == Err::<(Seq<Seq<char>>, nat), Seq<char>>(unreachable_msg()));
                    lemma_cap_err_prefix(es, i + 1, unreachable_msg());
                }
                return Err(crate::text::string_of("internal error: entered unreachable code"));
            },
        }
        i += 1;
    }
    assert(es.subrange(0, i as int) =~= es);
    if acc > 0 {
        parts.push(crate::text::usize_to_string(acc));
    }
    assert(strings_v(parts@) =~= flush_parts(cap_state(es)->Ok_0.0, cap_state(es)->Ok_0.1));
    if parts.len() == 0 {
        Ok(crate::text::string_of("0"))
    } else {
        Ok(join_parts(&parts))
    }
}

proof fn lemma_cap_err_prefix(es: Seq<ElemV>, n: int, m: Seq<char>)
    requires
        0 <= n <= es.len(),
        cap_state(es.subrange(0, n)) == Err::<(Seq<Seq<char>>, nat), Seq<char>>(m),
    ensures
        cap_state(es) == Err::<(Seq<Seq<char>>, nat), Seq<char>>(m),
    decreases es.len() - n,
{
    if n == es.len() {
        assert(es.subrange(0, n) =~= es);
    } else {
        assert(es.subrange(0, n + 1).drop_last() =~= es.subrange(0, n));
        lemma_cap_err_prefix(es, n + 1, m);
    }
}

/// Appends `let x: FluentNum = x.into();` for every numeric parameter.
pub fn emit_num_convert(params: &Vec<(String, ParamType)>, indent: &str, code: &mut String)
    ensures
        final(code)@ == old(code)@ + num_convert_spec(params_model(params@), indent@),
{
    let ghost pm = params_model(params@);
    let ghost o = code@;
    assert(pm.subrange(0, 0) =~= Seq::<(Seq<char>, PT)>::empty());
    let mut i: usize = 0;
    while i < params.len()
        invariant
            pm == params_model(params@),
            i <= params@.len(),
            o == old(code)@,
            code@ == o + num_convert_spec(pm.subrange(0, i as int), indent@),
        decreases params@.len() - i,
    {
        let ghost before = code@;
        if let ParamType::Num = &params[i].1 {
            let n = sanitize(params[i].0.as_str());
            push_str(code, indent);
            push_str(code, "let ");
            push_str(code, n.as_str());
            push_str(code, ": FluentNum = ");
            push_str(code, n.as_str());
            push_str(code, ".into();\n");
        }
        assert(pm.subrange(0, i + 1).drop_last() =~= pm.subrange(0, i as int));
        assert(code@ =~= o + num_convert_spec(pm.subrange(0, i + 1), indent@));
        i += 1;
    }
    assert(pm.subrange(0, i as int) =~= pm);
}


/// The body of a function without a select.
fn gen_push_body(elements: &Vec<Element>, params: &Vec<(String, ParamType)>,
    builtins: &Vec<(String, BuiltInFuncDef)>) -> (res: Result<String, String>)
    ensures
        str_result(res) == push_body_spec(elems_v(elements@), params_model(params@), builtins@),
{
    let cap = match capacity_expr(elements, params) {
        Ok(c) => c,
        Err(m) => return Err(m),
    };
    let mut code = String::new();
    push_str(&mut code, "    let cap = ");
    push_str(&mut code, cap.as_str());
    push_str(&mut code, ";\n");
    emit_num_convert(params, "    ", &mut code);
    push_str(&mut code, "    let mut s = String::with_capacity(cap);\n");
    let ghost head = code@;
    match try_emit_push_statements(elements, params, "    ", builtins, &mut code) {
        Ok(()) => {},
        Err(m) => return Err(m),
    }
    push_str(&mut code, "    s\n");
    assert(code@ =~= "    let cap = "@ + cap@ + ";\n"@ + num_convert_spec(params_model(params@), "    "@)
        + "    let mut s = String::with_capacity(cap);\n"@
        + stmts_spec(elems_v(elements@), params_model(params@), "    "@, builtins@)->Ok_0 + "    s\n"@);
    Ok(code)
}

/// The value of one select arm: a string literal for pure text, a block
/// that fills a `String` otherwise.
fn variant_arm_body(elements: &Vec<Element>, params: &Vec<(String, ParamType)>,
    builtins: &Vec<(String, BuiltInFuncDef)>) -> (res: Result<String, String>)
    ensures
        str_result(res) == arm_body_spec(elems_v(elements@), params_model(params@), builtins@),
{
    let mut code = String::new();
    if is_pure_text(elements) {
        let t = texts(elements);
        push_str(&mut code, "\"");
        push_escaped(&mut code, t.as_str());
        push_str(&mut code, "\".to_string()");
        assert(code@ =~= "\""@ + escape_seq(texts_of(elems_v(elements@))) + "\".to_string()"@);
        return Ok(code);
    }
    let cap = match capacity_expr(elements, params) {
        Ok(c) => c,
        Err(m) => return Err(m),
    };
    push_str(&mut code, "{\n");
    push_str(&mut code, "            let cap = ");
    push_str(&mut code, cap.as_str());
    push_str(&mut code, ";\n");
    push_str(&mut code, "            let mut s = String::with_capacity(cap);\n");
    match try_emit_push_statements(elements, params, "            ", builtins, &mut code) {
        Ok(()) => {},
        Err(m) => return Err(m),
    }
    push_str(&mut code, "            s\n");
    push_str(&mut code, "        }");
    assert(code@ =~= "{\n"@ + "            let cap = "@ + cap@ + ";\n"@
        + "            let mut s = String::with_capacity(cap);\n"@
        + stmts_spec(elems_v(elements@), params_model(params@), "            "@, builtins@)->Ok_0
        + "            s\n"@ + "        }"@);
    Ok(code)
}

/// The pattern of a select arm; `_` for the default variant.
pub fn variant_arm_pattern(key: &KeyType, selector_type: &ParamType, locale: &str, default: bool)
    -> (res: Result<String, String>)
    ensures
        str_result(res) == arm_pattern_spec(key_v(*key), pt_v(*selector_type), locale@, default),
{
    if default {
        return Ok(crate::text::string_of("_"));
    }
    match key {
        KeyType::Num(v) => Ok(crate::ast::copy_string(v)),
        KeyType::Ident(cat) => match selector_type {
            ParamType::Num => {
                let r = plural_rule_or_fallback(locale, cat.as_str());
                match r {
                    Some(rule) => {
                        if str_eq(rule, "n == 1") {
                            Ok(crate::text::string_of("1"))
                        } else if str_eq(rule, "n == 0") {
                            Ok(crate::text::string_of("0"))
                        } else if str_eq(rule, "n == 2") {
                            Ok(crate::text::string_of("2"))
                        } else {
                            let mut out = crate::text::string_of("n if ");
                            push_str(&mut out, rule);
                            Ok(out)
                        }
                    },
                    None => Ok(crate::text::string_of("n if false")),
                }
            },
            ParamType::Str => {
                let mut out = crate::text::string_of("\"");
                push_escaped(&mut out, cat.as_str());
                push_str(&mut out, "\"");
                Ok(out)
            },
            ParamType::Builtin(_) => Err(crate::text::string_of(
                "Built-in type cannot be used in select variant pattern")),
        },
    }
}

/// The pattern of a select arm over an `f64` selector.
pub fn variant_arm_pattern_num(key: &KeyType, locale: &str) -> (res: String)
    ensures
        res@ == arm_pattern_num_spec(key_v(*key), locale@),
{
    match key {
        KeyType::Num(v) => {
            let mut out = crate::ast::copy_string(v);
            push_str(&mut out, ".0");
            out
        },
        KeyType::Ident(cat) => match plural_rule_or_fallback(locale, cat.as_str()) {
            Some(rule) => {
                if str_eq(rule, "n == 0") {
                    crate::text::string_of("0.0")
                } else if str_eq(rule, "n == 1") {
                    crate::text::string_of("1.0")
                } else if str_eq(rule, "n == 2") {
                    crate::text::string_of("2.0")
                } else {
                    proof {
                        reveal_strlit("n !=");
                        reveal_strlit("n ==");
                        reveal_strlit("n %");
                    }
                    let g1 = replace(rule, "n !=", "(n.trunc() as i64) !=");
                    let g2 = replace(g1.as_str(), "n ==", "(n.trunc() as i64) ==");
                    let g3 = replace(g2.as_str(), "n %", "(n.trunc() as i64) %");
                    let mut out = crate::text::string_of("n if ");
                    push_str(&mut out, g3.as_str());
                    out
                }
            },
            None => crate::text::string_of("false"),
        },
    }
}


proof fn lemma_str_arms_err_prefix(vs: Seq<VariantV>, want_default: bool, ps: Seq<(Seq<char>, PT)>,
    locale: Seq<char>, builtins: Seq<(String, BuiltInFuncDef)>, n: int, m: Seq<char>)
    requires
        0 <= n <= vs.len(),
        str_arms_spec(vs.subrange(0, n), want_default, ps, locale, builtins) == Err::<Seq<char>, Seq<char>>(m),
    ensures
        str_arms_spec(vs, want_default, ps, locale, builtins) == Err::<Seq<char>, Seq<char>>(m),
    decreases vs.len() - n,
{
    if n == vs.len() {
        assert(vs.subrange(0, n) =~= vs);
    } else {
        assert(vs.subrange(0, n + 1).drop_last() =~= vs.subrange(0, n));
        lemma_str_arms_err_prefix(vs, want_default, ps, locale, builtins, n + 1, m);
    }
}

proof fn lemma_num_arms_err_prefix(vs: Seq<VariantV>, want_default: bool, ps: Seq<(Seq<char>, PT)>,
    locale: Seq<char>, builtins: Seq<(String, BuiltInFuncDef)>, n: int, m: Seq<char>)
    requires
        0 <= n <= vs.len(),
        num_arms_spec(vs.subrange(0, n), want_default, ps, locale, builtins) == Err::<Seq<char>, Seq<char>>(m),
    ensures
        num_arms_spec(vs, want_default, ps, locale, builtins) == Err::<Seq<char>, Seq<char>>(m),
    decreases vs.len() - n,
{
    if n == vs.len() {
        assert(vs.subrange(0, n) =~= vs);
    } else {
        assert(vs.subrange(0, n + 1).drop_last() =~= vs.subrange(0, n));
        lemma_num_arms_err_prefix(vs, want_default, ps, locale, builtins, n + 1, m);
    }
}

/// One arm of a string `match`.
fn str_arm(v: &Variant, params: &Vec<(String, ParamType)>, locale: &str,
    builtins: &Vec<(String, BuiltInFuncDef)>) -> (res: Result<String, String>)
    ensures
        str_result(res) == str_arm_spec(variant_v(*v), params_model(params@), locale@, builtins@),
{
    let pat = match variant_arm_pattern(&v.key, &ParamType::Str, locale, v.default) {
        Ok(p) => p,
        Err(m) => return Err(m),
    };
    let body = match variant_arm_body(&v.elements, params, builtins) {
        Ok(b) => b,
        Err(m) => return Err(m),
    };
    let mut code = crate::text::string_of("        ");
    push_str(&mut code, pat.as_str());
    push_str(&mut code, " => ");
    push_str(&mut code, body.as_str());
    push_str(&mut code, ",\n");
    assert(code@ =~= "        "@ + pat@ + " => "@ + body@ + ",\n"@);
    Ok(code)
}

/// One arm of a numeric `match`.
fn num_arm(v: &Variant, want_default: bool, params: &Vec<(String, ParamType)>, locale: &str,
    builtins: &Vec<(String, BuiltInFuncDef)>) -> (res: Result<String, String>)
    ensures
        str_result(res) == num_arm_spec(variant_v(*v), want_default, params_model(params@), locale@, builtins@),
{
    let body = match variant_arm_body(&v.elements, params, builtins) {
        Ok(b) => b,
        Err(m) => return Err(m),
    };
    let mut code = String::new();
    if want_default {
        push_str(&mut code, "        _");
    } else {
        push_str(&mut code, "        ");
        let pat = variant_arm_pattern_num(&v.key, locale);
        push_str(&mut code, pat.as_str());
    }
    let ghost mid = code@;
    push_str(&mut code, " => ");
    push_str(&mut code, body.as_str());
    push_str(&mut code, ",\n");
    assert(code@ =~= mid + " => "@ + body@ + ",\n"@);
    Ok(code)
}

/// Appends the arms of a string `match`, for the variants whose `default`
/// flag is `want_default`.
#[verifier::rlimit(40)]
#[verifier::spinoff_prover]
fn push_str_arms(code: &mut String, variants: &Vec<Variant>, want_default: bool,
    params: &Vec<(String, ParamType)>, locale: &str, builtins: &Vec<(String, BuiltInFuncDef)>)
    -> (res: Result<(), String>)
    ensures
        match res {
            Ok(()) => match str_arms_spec(variants_v(variants@), want_default, params_model(params@), locale@, builtins@) {
                Ok(p) => final(code)@ == old(code)@ + p,
                Err(_) => false,
            },
            Err(m) => str_arms_spec(variants_v(variants@), want_default, params_model(params@), locale@, builtins@)
                == Err::<Seq<char>, Seq<char>>(m@),
        },
{
    let ghost vs = variants_v(variants@);
    let ghost pm = params_model(params@);
    let ghost o = code@;
    proof {
        lemma_variants_v(variants@);
        assert(vs.subrange(0, 0) =~= Seq::<VariantV>::empty());
    }
    let mut i: usize = 0;
    while i < variants.len()
        invariant
            vs == variants_v(variants@),
            pm == params_model(params@),
            vs.len() == variants@.len(),
            forall|j: int| 0 <= j < variants@.len() ==> #[trigger] vs[j] == variant_v(variants@[j]),
            i <= variants@.len(),
            o == old(code)@,
            match str_arms_spec(vs.subrange(0, i as int), want_default, pm, locale@, builtins@) {
                Ok(p) => code@ == o + p,
                Err(_) => false,
            },
        decreases variants@.len() - i,
    {
        proof {
            assert(vs.subrange(0, i + 1).drop_last() =~= vs.subrange(0, i as int));
            assert(vs.subrange(0, i + 1).last() == variant_v(variants@[i as int]));
        }
        let v = &variants[i];
        if v.default == want_default {
            match str_arm(v, params, locale, builtins) {
                Ok(x) => {
                    push_str(code, x.as_str());
                },
                Err(m) => {
                    proof {
                        lemma_str_arms_err_prefix(vs, want_default, pm, locale@, builtins@, i + 1, m@);
                    }
                    return Err(m);
                },
            }
        }
        i += 1;
    }
    assert(vs.subrange(0, i as int) =~= vs);
    Ok(())
}

/// Appends the arms of a numeric `match`, for the variants whose `default`
/// flag is `want_default`.
fn push_num_arms(code: &mut String, variants: &Vec<Variant>, want_default: bool,
    params: &Vec<(String, ParamType)>, locale: &str, builtins: &Vec<(String, BuiltInFuncDef)>)
    -> (res: Result<(), String>)
    ensures
        match res {
            Ok(()) => match num_arms_spec(variants_v(variants@), want_default, params_model(params@), locale@, builtins@) {
                Ok(p) => final(code)@ == old(code)@ + p,
                Err(_) => false,
            },
            Err(m) => num_arms_spec(variants_v(variants@), want_default, params_model(params@), locale@, builtins@)
                == Err::<Seq<char>, Seq<char>>(m@),
        },
{
    let ghost vs = variants_v(variants@);
    let ghost pm = params_model(params@);
    let ghost o = code@;
    proof {
        lemma_variants_v(variants@);
        assert(vs.subrange(0, 0) =~= Seq::<VariantV>::empty());
    }
    let mut i: usize = 0;
    while i < variants.len()
        invariant
            vs == variants_v(variants@),
            pm == params_model(params@),
            vs.len() == variants@.len(),
            forall|j: int| 0 <= j < variants@.len() ==> #[trigger] vs[j] == variant_v(variants@[j]),
            i <= variants@.len(),
            o == old(code)@,
            match num_arms_spec(vs.subrange(0, i as int), want_default, pm, locale@, builtins@) {
                Ok(p) => code@ == o + p,
                Err(_) => false,
            },
        decreases variants@.len() - i,
    {
        proof {
            assert(vs.subrange(0, i + 1).drop_last() =~= vs.subrange(0, i as int));
            assert(vs.subrange(0, i + 1).last() == variant_v(variants@[i as int]));
        }
        let v = &variants[i];
        if v.default == want_default {
            match num_arm(v, want_default, params, locale, builtins) {
                Ok(x) => {
                    push_str(code, x.as_str());
                },
                Err(m) => {
                    proof {
                        lemma_num_arms_err_prefix(vs, want_default, pm, locale@, builtins@, i + 1, m@);
                    }
                    return Err(m);
                },
            }
        }
        i += 1;
    }
    assert(vs.subrange(0, i as int) =~= vs);
    Ok(())
}

fn is_select(e: &Element) -> (res: bool)
    ensures
        res == (elem_v(*e) is Select),
{
    match e {
        Element::Select { .. } => true,
        _ => false,
    }
}

/// A list whose first select has a selector that is no built-in
/// parameter: what a select body is generated for.
pub open spec fn select_ready(es: Seq<ElemV>, ps: Seq<(Seq<char>, PT)>) -> bool {
    first_select(es) matches Some((sel, _)) && !(gk_lookup(ps, sel) matches Some(PT::Builtin(_)))
}

proof fn lemma_any_select_first(es: Seq<ElemV>)
    ensures
        any_select(es) ==> first_select(es) is Some,
    decreases es.len(),
{
    if es.len() > 0 && any_select(es) && !(es[0] is Select) {
        let i = choose|i: int| 0 <= i < es.len() && (#[trigger] es[i]) is Select;
        assert(es.drop_first()[i - 1] == es[i]);
        lemma_any_select_first(es.drop_first());
    }
}

/// The index of the first select element, if any.
fn find_select(elements: &Vec<Element>) -> (res: Option<usize>)
    ensures
        match res {
            Some(k) => k < elements@.len() && first_select(elems_v(elements@))
                == (match elements@[k as int] {
                    Element::Select { selector, variants } => Some((selector@, variants_v(variants@))),
                    _ => None,
                }) && elem_v(elements@[k as int]) is Select,
            None => first_select(elems_v(elements@)) is None,
        },
{
    let ghost es = elems_v(elements@);
    proof {
        lemma_elems_v(elements@);
        assert(es.skip(0) =~= es);
    }
    let mut k: usize = 0;
    while k < elements.len() && !is_select(&elements[k])
        invariant
            es == elems_v(elements@),
            es.len() == elements@.len(),
            forall|j: int| 0 <= j < elements@.len() ==> #[trigger] es[j] == elem_v(elements@[j]),
            k <= elements@.len(),
            first_select(es.skip(k as int)) == first_select(es),
        decreases elements@.len() - k,
    {
        proof {
            assert(es.skip(k as int)[0] == es[k as int]);
            assert(es.skip(k as int).drop_first() =~= es.skip(k + 1));
        }
        k += 1;
    }
    if k == elements.len() {
        proof {
            assert(es.skip(k as int).len() == 0);
        }
        return None;
    }
    proof {
        assert(es.skip(k as int)[0] == es[k as int]);
    }
    Some(k)
}

/// The body of a function with a select; the list must be ready for one
/// (`select_ready`).
fn gen_select_body(elements: &Vec<Element>, params: &Vec<(String, ParamType)>, locale: &str,
    builtins: &Vec<(String, BuiltInFuncDef)>) -> (res: Result<String, String>)
    requires
        select_ready(elems_v(elements@), params_model(params@)),
    ensures
        str_result(res) == select_body_spec(elems_v(elements@), params_model(params@), locale@, builtins@),
{
    let k = match find_select(elements) {
        Some(k) => k,
        None => {
            proof {
                assert(false);
            }
            return Err(String::new());
        },
    };
    let (selector, variants) = match &elements[k] {
        Element::Select { selector, variants } => (selector, variants),
        _ => {
            proof {
                assert(false);
            }
            return Err(String::new());
        },
    };
    let n = sanitize(selector.as_str());
    let t = lookup_param_type(params, selector.as_str(), ParamType::Num);
    let mut code = String::new();
    match t {
        ParamType::Builtin(_) => {
            proof {
                assert(false);
            }
            return Err(String::new());
        },
        ParamType::Str => {
            push_str(&mut code, "    let __sel: String = match ");
            push_str(&mut code, n.as_str());
            push_str(&mut code, ".into() {\n");
            push_str(&mut code, "        FluentArg::Str(s) => s.into_owned(),\n");
            push_str(&mut code, "        _ => return String::new(),\n");
            push_str(&mut code, "    };\n");
            push_str(&mut code, "    match __sel.as_str() {\n");
            let ghost head = code@;
            match push_str_arms(&mut code, variants, false, params, locale, builtins) {
                Ok(()) => {},
                Err(m) => return Err(m),
            }
            match push_str_arms(&mut code, variants, true, params, locale, builtins) {
                Ok(()) => {},
                Err(m) => return Err(m),
            }
            push_str(&mut code, "    }\n");
            assert(head =~= "    let __sel: String = match "@ + n@ + ".into() {\n"@
                + "        FluentArg::Str(s) => s.into_owned(),\n"@
                + "        _ => return String::new(),\n"@ + "    };\n"@
                + "    match __sel.as_str() {\n"@);
        },
        ParamType::Num => {
            push_str(&mut code, "    let ");
            push_str(&mut code, n.as_str());
            push_str(&mut code, ": FluentNum = ");
            push_str(&mut code, n.as_str());
            push_str(&mut code, ".into();\n");
            push_str(&mut code, "    match *");
            push_str(&mut code, n.as_str());
            push_str(&mut code, " {\n");
            let ghost head = code@;
            match push_num_arms(&mut code, variants, false, params, locale, builtins) {
                Ok(()) => {},
                Err(m) => return Err(m),
            }
            match push_num_arms(&mut code, variants, true, params, locale, builtins) {
                Ok(()) => {},
                Err(m) => return Err(m),
            }
            push_str(&mut code, "    }\n");
            assert(head =~= "    let "@ + n@ + ": FluentNum = "@ + n@ + ".into();\n"@
                + "    match *"@ + n@ + " {\n"@);
        },
    }
    Ok(code)
}

/// The Rust source of the function for one message: `#[inline]`, then a
/// `&'static str` body for pure text, a `match` when the message selects,
/// and statements that fill a `String` otherwise.
pub fn generate_one_function(name: &str, elements: &Vec<Element>, params: &Vec<(String, ParamType)>,
    locale: &str, builtins: &Vec<(String, BuiltInFuncDef)>) -> (res: Result<String, String>)
    requires
        keys_sorted(params@),
    ensures
        str_result(res) == fn_spec(name@, elems_v(elements@), params_model(params@), locale@, builtins@),
{
    let decl = gen_fn_decl(name, params, false, builtins);
    let mut code = String::new();
    push_str(&mut code, "#[inline]\n");
    push_str(&mut code, "pub fn ");
    push_str(&mut code, decl.as_str());
    if is_pure_text(elements) {
        let t = texts(elements);
        push_str(&mut code, " { \"");
        push_escaped(&mut code, t.as_str());
        push_str(&mut code, "\" }\n");
        assert(code@ =~= "#[inline]\n"@ + "pub fn "@ + decl@ + " { \""@ + escape_seq(t@) + "\" }\n"@);
        return Ok(code);
    }
    let body = if has_select(elements) {
        proof {
            lemma_any_select_first(elems_v(elements@));
        }
        match find_select(elements) {
            None => Err(crate::text::string_of("gen_select_body called without Select")),
            Some(k) => match &elements[k] {
                Element::Select { selector, .. } => match lookup_param_type(params, selector.as_str(), ParamType::Num) {
                    ParamType::Builtin(_) => {
                        let mut m = crate::text::string_of("Cannot use '");
                        push_str(&mut m, selector.as_str());
                        push_str(&mut m, "' (built-in type) as a select selector");
                        Err(m)
                    },
                    _ => gen_select_body(elements, params, locale, builtins),
                },
                _ => Err(crate::text::string_of("gen_select_body called without Select")),
            },
        }
    } else {
        gen_push_body(elements, params, builtins)
    };
    match body {
        Ok(b) => {
            push_str(&mut code, " {\n");
            push_str(&mut code, b.as_str());
            push_str(&mut code, "\n");
            push_str(&mut code, "}\n");
            assert(code@ =~= "#[inline]\n"@ + "pub fn "@ + decl@ + " {\n"@ + b@ + "\n"@ + "}\n"@);
            Ok(code)
        },
        Err(m) => Err(m),
    }
}

// ---------------------------------------------------------------------
// What the capacity terms add up to
// ---------------------------------------------------------------------

/// The bytes of the text and 32 for each interpolated value.
pub open spec fn cap_total(es: Seq<ElemV>) -> nat
    decreases es.len(),
{
    if es.len() == 0 {
        0
    } else {
        cap_total(es.drop_last()) + match es.last() {
            ElemV::Text(t) => text_bytes(t),
            ElemV::VarRef(_) | ElemV::BuiltInCall { .. } => 32nat,
            _ => 0nat,
        }
    }
}

pub open spec fn flush_nums(ns: Seq<nat>, acc: nat) -> Seq<nat> {
    if acc > 0 { ns.push(acc) } else { ns }
}

/// The capacity terms as numbers: one per run of text (its byte length)
/// and 32 per interpolated value, with the run not yet closed.
pub open spec fn cap_nums(es: Seq<ElemV>) -> (Seq<nat>, nat)
    decreases es.len(),
{
    if es.len() == 0 {
        (Seq::empty(), 0)
    } else {
        let (ns, acc) = cap_nums(es.drop_last());
        match es.last() {
            ElemV::Text(t) => (ns, acc + text_bytes(t)),
            ElemV::VarRef(_) | ElemV::BuiltInCall { .. } => (flush_nums(ns, acc).push(32nat), 0),
            _ => (ns, acc),
        }
    }
}

pub open spec fn seq_sum(ns: Seq<nat>) -> nat
    decreases ns.len(),
{
    if ns.len() == 0 { 0 } else { seq_sum(ns.drop_last()) + ns.last() }
}

pub open spec fn dec_strs(ns: Seq<nat>) -> Seq<Seq<char>> {
    ns.map_values(|n: nat| dec_str(n))
}

proof fn lemma_cap_nums(es: Seq<ElemV>)
    ensures
        seq_sum(cap_nums(es).0) + cap_nums(es).1 == cap_total(es),
        forall|i: int| 0 <= i < cap_nums(es).0.len() ==> #[trigger] cap_nums(es).0[i] > 0,
        cap_total(es) <= usize::MAX ==> (cap_state(es) matches Ok((parts, acc)) ==> parts == dec_strs(cap_nums(es).0)
            && acc == cap_nums(es).1),
    decreases es.len(),
{
    if es.len() > 0 {
        let d = es.drop_last();
        lemma_cap_nums(d);
        let (ns, acc) = cap_nums(d);
        match es.last() {
            ElemV::VarRef(_) | ElemV::BuiltInCall { .. } => {
                let f = flush_nums(ns, acc);
                if acc > 0 {
                    assert(ns.push(acc).drop_last() =~= ns);
                    assert(seq_sum(ns.push(acc)) == seq_sum(ns) + acc);
                }
                assert(seq_sum(f) == seq_sum(ns) + acc);
                assert(f.push(32nat).drop_last() =~= f);
                assert(seq_sum(f.push(32nat)) == seq_sum(f) + 32);
                assert(cap_nums(es) == (f.push(32nat), 0nat));
                assert(dec_strs(ns.push(acc)) =~= dec_strs(ns).push(dec_str(acc)));
                assert(dec_strs(f.push(32nat)) =~= dec_strs(f).push(dec_str(32nat)));
                assert(dec_str(32nat) =~= "32"@) by {
                    reveal_strlit("32");
                    reveal_with_fuel(dec_str, 3);
                    assert(dec_str(3nat) == seq![crate::text::digit_char(3nat)]);
                }
            },
            _ => {},
        }
    }
}

/// The terms of the capacity expression are the byte length of each run
/// of text and 32 for each interpolated value, in order: as numbers they
/// are positive and add up to the text's bytes plus 32 per value (when
/// that fits a `usize`); with no term the expression is `0`.
pub proof fn lemma_capacity_terms(es: Seq<ElemV>)
    requires
        capacity_spec(es) is Ok,
        cap_total(es) <= usize::MAX,
    ensures
        ({
            let ns = flush_nums(cap_nums(es).0, cap_nums(es).1);
            &&& seq_sum(ns) == cap_total(es)
            &&& forall|i: int| 0 <= i < ns.len() ==> #[trigger] ns[i] > 0
            &&& capacity_spec(es) == Ok::<Seq<char>, Seq<char>>(
                if ns.len() == 0 { "0"@ } else { join_plus(dec_strs(ns)) })
        }),
{
    lemma_cap_nums(es);
    let (ns0, acc) = cap_nums(es);
    if acc > 0 {
        assert(ns0.push(acc).drop_last() =~= ns0);
        assert(dec_strs(ns0.push(acc)) =~= dec_strs(ns0).push(dec_str(acc)));
    }
}

// ---------------------------------------------------------------------
// The runtime formatters' parameters, in the order they take them
// ---------------------------------------------------------------------

/// How a named argument is passed to a runtime formatter.
pub enum SlotKind {
    Int,
    Bool,
    Str,
}

/// The literal passed for the option `name`: `Some(..)` of its value, or
/// `None` when the call does not give it.
pub open spec fn slot_text(na: Seq<(Seq<char>, Seq<char>)>, opt: (Seq<char>, SlotKind)) -> Seq<char> {
    match opt.1 {
        SlotKind::Int => opt_i64_arg(na, opt.0),
        SlotKind::Bool => opt_bool_arg(na, opt.0),
        SlotKind::Str => opt_str_arg(na, opt.0),
    }
}

/// A runtime formatter that generated code calls.
pub enum Formatter {
    Number,
    DateTime,
}

/// The option a formatter takes at position `i`.
pub open spec fn formatter_option(fm: Formatter, i: int) -> (Seq<char>, SlotKind) {
    match fm {
        Formatter::Number => number_option(i),
        Formatter::DateTime => datetime_option(i),
    }
}

/// The first `n` options of a formatter, each passed in its position,
/// separated by `, `.
#[verifier::opaque]
pub open spec fn slot_list(fm: Formatter, n: nat, na: Seq<(Seq<char>, Seq<char>)>) -> Seq<char>
    decreases n,
{
    if n == 0 {
        Seq::empty()
    } else if n == 1 {
        slot_text(na, formatter_option(fm, 0))
    } else {
        slot_list(fm, (n - 1) as nat, na) + ", "@ + slot_text(na, formatter_option(fm, n - 1))
    }
}

/// The options the runtime number formatter takes after the value, in its
/// parameter order: `min_fraction_digits`, `max_fraction_digits`,
/// `min_significant_digits`, `max_significant_digits`, `min_integer_digits`,
/// `use_grouping`, `style`, `currency`, `currency_display`; each named by
/// its `NUMBER` option.
pub open spec fn number_option(i: int) -> (Seq<char>, SlotKind) {
    if i == 0 { ("minimumFractionDigits"@, SlotKind::Int) }
    else if i == 1 { ("maximumFractionDigits"@, SlotKind::Int) }
    else if i == 2 { ("minimumSignificantDigits"@, SlotKind::Int) }
    else if i == 3 { ("maximumSignificantDigits"@, SlotKind::Int) }
    else if i == 4 { ("minimumIntegerDigits"@, SlotKind::Int) }
    else if i == 5 { ("useGrouping"@, SlotKind::Bool) }
    else if i == 6 { ("style"@, SlotKind::Str) }
    else if i == 7 { ("currency"@, SlotKind::Str) }
    else { ("currencyDisplay"@, SlotKind::Str) }
}

/// The options the runtime date formatter takes, in its parameter order:
/// `year`, `month`, `day`, `hour`, `minute`, `second`, `date_style`,
/// `time_style`, `weekday`, `era`, `year_format`, `month_format`,
/// `day_format`, `hour_format`, `minute_format`, `second_format`,
/// `time_zone_name`, `hour12`, `time_zone` (see `datetime::format_datetime`);
/// each named by its `DATETIME` option.
pub open spec fn datetime_option(i: int) -> (Seq<char>, SlotKind) {
    if i == 0 { ("year"@, SlotKind::Int) }
    else if i == 1 { ("month"@, SlotKind::Int) }
    else if i == 2 { ("day"@, SlotKind::Int) }
    else if i == 3 { ("hour"@, SlotKind::Int) }
    else if i == 4 { ("minute"@, SlotKind::Int) }
    else if i == 5 { ("second"@, SlotKind::Int) }
    else if i == 6 { ("dateStyle"@, SlotKind::Str) }
    else if i == 7 { ("timeStyle"@, SlotKind::Str) }
    else if i == 8 { ("weekday"@, SlotKind::Str) }
    else if i == 9 { ("era"@, SlotKind::Str) }
    else if i == 10 { ("yearFormat"@, SlotKind::Str) }
    else if i == 11 { ("monthFormat"@, SlotKind::Str) }
    else if i == 12 { ("dayFormat"@, SlotKind::Str) }
    else if i == 13 { ("hourFormat"@, SlotKind::Str) }
    else if i == 14 { ("minuteFormat"@, SlotKind::Str) }
    else if i == 15 { ("secondFormat"@, SlotKind::Str) }
    else if i == 16 { ("timeZoneName"@, SlotKind::Str) }
    else if i == 17 { ("hour12"@, SlotKind::Bool) }
    else { ("timeZone"@, SlotKind::Str) }
}

proof fn lemma_slot_list_step(fm: Formatter, n: nat, na: Seq<(Seq<char>, Seq<char>)>)
    ensures
        slot_list(fm, 1, na) == slot_text(na, formatter_option(fm, 0)),
        n >= 1 ==> slot_list(fm, n + 1, na) == slot_list(fm, n, na) + ", "@ + slot_text(na, formatter_option(fm, n as int)),
{
    reveal_with_fuel(slot_list, 2);
}

proof fn lemma_sep_step(a: Seq<char>, sep: Seq<char>, o: Seq<char>)
    ensures
        sep + (a + sep + o) == (sep + a) + (sep + o),
{
    assert(sep + (a + sep + o) =~= (sep + a) + (sep + o));
}

proof fn lemma_concat_tail4(x: Seq<char>, a: Seq<char>, b: Seq<char>, c: Seq<char>, d: Seq<char>)
    ensures
        x + (a + b + c + d) == x + a + b + c + d,
        x + (a + b + c) == x + a + b + c,
{
    assert(x + (a + b + c + d) =~= x + a + b + c + d);
    assert(x + (a + b + c) =~= x + a + b + c);
}

proof fn lemma_concat_mid(p: Seq<char>, v: Seq<char>, m: Seq<char>, n: Seq<char>, t: Seq<char>)
    ensures
        p + v + m + n + t == p + v + (m + n) + t,
{
    assert(p + v + m + n + t =~= p + v + (m + n) + t);
}

/// In the generated `NUMBER` call, the argument after the value at each
/// position is the option the runtime number formatter takes there: the
/// value of `minimumFractionDigits` lands in `min_fraction_digits`, that of
/// `maximumFractionDigits` in `max_fraction_digits`, and so on.
pub proof fn lemma_number_call_positions(var: Seq<char>, na: Seq<(Seq<char>, Seq<char>)>)
    ensures
        number_call(var, na) == "ftl_core::number::format(*"@ + sanitize_spec(var) + ", "@
            + slot_list(Formatter::Number, 9, na) + ", &mut s, &ftl_core::locale());"@,
{
    let f = Formatter::Number;
    let sep = ", "@;
    let a1 = opt_i64_arg(na, "minimumFractionDigits"@);
    lemma_slot_list_step(f, 1, na);
    assert(slot_list(f, 1, na) == a1);
    let a2 = slot_list(f, 1, na) + sep + opt_i64_arg(na, "maximumFractionDigits"@);
    lemma_slot_list_step(f, 1, na);
    assert(slot_list(f, 2, na) == a2);
    let a3 = a2 + sep + opt_i64_arg(na, "minimumSignificantDigits"@);
    lemma_slot_list_step(f, 2, na);
    assert(slot_list(f, 3, na) == a3);
    let a4 = a3 + sep + opt_i64_arg(na, "maximumSignificantDigits"@);
    lemma_slot_list_step(f, 3, na);
    assert(slot_list(f, 4, na) == a4);
    let a5 = a4 + sep + opt_i64_arg(na, "minimumIntegerDigits"@);
    lemma_slot_list_step(f, 4, na);
    assert(slot_list(f, 5, na) == a5);
    let a6 = a5 + sep + opt_bool_arg(na, "useGrouping"@);
    lemma_slot_list_step(f, 5, na);
    assert(slot_list(f, 6, na) == a6);
    let a7 = a6 + sep + opt_str_arg(na, "style"@);
    lemma_slot_list_step(f, 6, na);
    assert(slot_list(f, 7, na) == a7);
    let a8 = a7 + sep + opt_str_arg(na, "currency"@);
    lemma_slot_list_step(f, 7, na);
    assert(slot_list(f, 8, na) == a8);
    let a9 = a8 + sep + opt_str_arg(na, "currencyDisplay"@);
    lemma_slot_list_step(f, 8, na);
    assert(slot_list(f, 9, na) == a9);
    let o2 = opt_i64_arg(na, "maximumFractionDigits"@);
    let o3 = opt_i64_arg(na, "minimumSignificantDigits"@);
    let o4 = opt_i64_arg(na, "maximumSignificantDigits"@);
    let o5 = opt_i64_arg(na, "minimumIntegerDigits"@);
    lemma_sep_step(a1, sep, o2);
    lemma_sep_step(a2, sep, o3);
    lemma_sep_step(a3, sep, o4);
    lemma_sep_step(a4, sep, o5);
    assert(number_int_args(na) == sep + a5);
    let s6 = sep_bool(na, "useGrouping"@);
    let s7 = sep_str(na, "style"@);
    let s8 = sep_str(na, "currency"@);
    let s9 = sep_str(na, "currencyDisplay"@);
    lemma_sep_step(a5, sep, opt_bool_arg(na, "useGrouping"@));
    lemma_sep_step(a6, sep, opt_str_arg(na, "style"@));
    lemma_sep_step(a7, sep, opt_str_arg(na, "currency"@));
    lemma_sep_step(a8, sep, opt_str_arg(na, "currencyDisplay"@));
    assert(sep + a9 == sep + a5 + s6 + s7 + s8 + s9);
    lemma_concat_tail4(number_int_args(na), s6, s7, s8, s9);
    assert(number_int_args(na) + number_other_args(na) == sep + a9);
    let pre = "ftl_core::number::format(*"@;
    let v = sanitize_spec(var);
    let t = ", &mut s, &ftl_core::locale());"@;
    lemma_concat_mid(pre, v, number_int_args(na), number_other_args(na), t);
    lemma_concat_mid(pre, v, sep, a9, t);
}

proof fn lemma_plus_step(a: Seq<char>, sep: Seq<char>, o: Seq<char>)
    ensures
        a + sep + o == a + (sep + o),
{
    assert(a + sep + o =~= a + (sep + o));
}

proof fn lemma_concat_tail5(x: Seq<char>, a: Seq<char>, b: Seq<char>, c: Seq<char>, d: Seq<char>, e: Seq<char>)
    ensures
        x + (a + b + c + d + e) == x + a + b + c + d + e,
{
    assert(x + (a + b + c + d + e) =~= x + a + b + c + d + e);
}

proof fn lemma_concat_four(p: Seq<char>, a: Seq<char>, b: Seq<char>, c: Seq<char>, d: Seq<char>, t: Seq<char>)
    ensures
        p + a + b + c + d + t == p + (a + b + c + d) + t,
{
    assert(p + a + b + c + d + t =~= p + (a + b + c + d) + t);
}

/// In the generated `DATETIME` call, the argument at each position is the
/// option the runtime date formatter takes there.
pub proof fn lemma_datetime_call_positions(na: Seq<(Seq<char>, Seq<char>)>)
    ensures
        datetime_call(na) == "ftl_core::datetime::format("@ + slot_list(Formatter::DateTime, 19, na)
            + ", &mut s, &ftl_core::locale());"@,
{
    let f = Formatter::DateTime;
    let sep = ", "@;
    let a1 = opt_i64_arg(na, "year"@);
    lemma_slot_list_step(f, 1, na);
    assert(slot_list(f, 1, na) == a1);
    let a2 = a1 + sep + opt_i64_arg(na, "month"@);
    lemma_slot_list_step(f, 1, na);
    assert(slot_list(f, 2, na) == a2);
    lemma_plus_step(a1, sep, opt_i64_arg(na, "month"@));
    let a3 = a2 + sep + opt_i64_arg(na, "day"@);
    lemma_slot_list_step(f, 2, na);
    assert(slot_list(f, 3, na) == a3);
    lemma_plus_step(a2, sep, opt_i64_arg(na, "day"@));
    let a4 = a3 + sep + opt_i64_arg(na, "hour"@);
    lemma_slot_list_step(f, 3, na);
    assert(slot_list(f, 4, na) == a4);
    lemma_plus_step(a3, sep, opt_i64_arg(na, "hour"@));
    let a5 = a4 + sep + opt_i64_arg(na, "minute"@);
    lemma_slot_list_step(f, 4, na);
    assert(slot_list(f, 5, na) == a5);
    lemma_plus_step(a4, sep, opt_i64_arg(na, "minute"@));
    let a6 = a5 + sep + opt_i64_arg(na, "second"@);
    lemma_slot_list_step(f, 5, na);
    assert(slot_list(f, 6, na) == a6);
    lemma_plus_step(a5, sep, opt_i64_arg(na, "second"@));
    let a7 = a6 + sep + opt_str_arg(na, "dateStyle"@);
    lemma_slot_list_step(f, 6, na);
    assert(slot_list(f, 7, na) == a7);
    lemma_plus_step(a6, sep, opt_str_arg(na, "dateStyle"@));
    let a8 = a7 + sep + opt_str_arg(na, "timeStyle"@);
    lemma_slot_list_step(f, 7, na);
    assert(slot_list(f, 8, na) == a8);
    lemma_plus_step(a7, sep, opt_str_arg(na, "timeStyle"@));
    let a9 = a8 + sep + opt_str_arg(na, "weekday"@);
    lemma_slot_list_step(f, 8, na);
    assert(slot_list(f, 9, na) == a9);
    lemma_plus_step(a8, sep, opt_str_arg(na, "weekday"@));
    let a10 = a9 + sep + opt_str_arg(na, "era"@);
    lemma_slot_list_step(f, 9, na);
    assert(slot_list(f, 10, na) == a10);
    lemma_plus_step(a9, sep, opt_str_arg(na, "era"@));
    let a11 = a10 + sep + opt_str_arg(na, "yearFormat"@);
    lemma_slot_list_step(f, 10, na);
    assert(slot_list(f, 11, na) == a11);
    lemma_plus_step(a10, sep, opt_str_arg(na, "yearFormat"@));
    let a12 = a11 + sep + opt_str_arg(na, "monthFormat"@);
    lemma_slot_list_step(f, 11, na);
    assert(slot_list(f, 12, na) == a12);
    lemma_plus_step(a11, sep, opt_str_arg(na, "monthFormat"@));
    let a13 = a12 + sep + opt_str_arg(na, "dayFormat"@);
    lemma_slot_list_step(f, 12, na);
    assert(slot_list(f, 13, na) == a13);
    lemma_plus_step(a12, sep, opt_str_arg(na, "dayFormat"@));
    let a14 = a13 + sep + opt_str_arg(na, "hourFormat"@);
    lemma_slot_list_step(f, 13, na);
    assert(slot_list(f, 14, na) == a14);
    lemma_plus_step(a13, sep, opt_str_arg(na, "hourFormat"@));
    let a15 = a14 + sep + opt_str_arg(na, "minuteFormat"@);
    lemma_slot_list_step(f, 14, na);
    assert(slot_list(f, 15, na) == a15);
    lemma_plus_step(a14, sep, opt_str_arg(na, "minuteFormat"@));
    let a16 = a15 + sep + opt_str_arg(na, "secondFormat"@);
    lemma_slot_list_step(f, 15, na);
    assert(slot_list(f, 16, na) == a16);
    lemma_plus_step(a15, sep, opt_str_arg(na, "secondFormat"@));
    let a17 = a16 + sep + opt_str_arg(na, "timeZoneName"@);
    lemma_slot_list_step(f, 16, na);
    assert(slot_list(f, 17, na) == a17);
    lemma_plus_step(a16, sep, opt_str_arg(na, "timeZoneName"@));
    let a18 = a17 + sep + opt_bool_arg(na, "hour12"@);
    lemma_slot_list_step(f, 17, na);
    assert(slot_list(f, 18, na) == a18);
    lemma_plus_step(a17, sep, opt_bool_arg(na, "hour12"@));
    let a19 = a18 + sep + opt_str_arg(na, "timeZone"@);
    lemma_slot_list_step(f, 18, na);
    assert(slot_list(f, 19, na) == a19);
    lemma_plus_step(a18, sep, opt_str_arg(na, "timeZone"@));
    assert(datetime_date_fields(na) == a3);
    lemma_concat_tail4(a3, sep_i64(na, "hour"@), sep_i64(na, "minute"@), sep_i64(na, "second"@), Seq::empty());
    assert(datetime_fields(na) == a6);
    lemma_concat_tail5(a6, sep_str(na, "dateStyle"@), sep_str(na, "timeStyle"@), sep_str(na, "weekday"@), sep_str(na, "era"@), sep_str(na, "yearFormat"@));
    assert(datetime_fields(na) + datetime_styles(na) == a11);
    lemma_concat_tail5(a11, sep_str(na, "monthFormat"@), sep_str(na, "dayFormat"@), sep_str(na, "hourFormat"@), sep_str(na, "minuteFormat"@), sep_str(na, "secondFormat"@));
    assert(datetime_fields(na) + datetime_styles(na) + datetime_formats(na) == a16);
    lemma_concat_tail4(a16, sep_str(na, "timeZoneName"@), sep_bool(na, "hour12"@), sep_str(na, "timeZone"@), Seq::empty());
    assert(datetime_fields(na) + datetime_styles(na) + datetime_formats(na) + datetime_zone(na) == a19);
    lemma_concat_four("ftl_core::datetime::format("@, datetime_fields(na), datetime_styles(na), datetime_formats(na), datetime_zone(na), ", &mut s, &ftl_core::locale());"@);
}

// ---------------------------------------------------------------------
// Order of the arms of a generated `match`
// ---------------------------------------------------------------------

/// `x` occurs in `y` starting at position `o`.
pub open spec fn starts_at(x: Seq<char>, y: Seq<char>, o: int) -> bool {
    0 <= o && o + x.len() <= y.len() && y.subrange(o, o + x.len()) == x
}

proof fn lemma_starts_at_prefix(x: Seq<char>, r: Seq<char>, y: Seq<char>, o: int)
    requires
        starts_at(x + r, y, o),
    ensures
        starts_at(x, y, o),
{
    let w = y.subrange(o, o + (x + r).len());
    assert(w == x + r);
    assert(y.subrange(o, o + x.len()) =~= w.subrange(0, x.len() as int));
    assert((x + r).subrange(0, x.len() as int) =~= x);
}

proof fn lemma_starts_at_first(x: Seq<char>, pre: Seq<char>, a: Seq<char>, b: Seq<char>, t: Seq<char>, o: int)
    requires
        starts_at(x, a, o),
    ensures
        starts_at(x, pre + a + b + t, pre.len() + o),
{
    let y = pre + a + b + t;
    assert(y.subrange(pre.len() + o, pre.len() + o + x.len()) =~= a.subrange(o, o + x.len()));
}

proof fn lemma_starts_at_second(x: Seq<char>, pre: Seq<char>, a: Seq<char>, b: Seq<char>, t: Seq<char>, o: int)
    requires
        starts_at(x, b, o),
    ensures
        starts_at(x, pre + a + b + t, pre.len() + a.len() + o),
{
    let y = pre + a + b + t;
    assert(y.subrange(pre.len() + a.len() + o, pre.len() + a.len() + o + x.len()) =~= b.subrange(o, o + x.len()));
}

proof fn lemma_starts_at_grow(x: Seq<char>, a: Seq<char>, c: Seq<char>, o: int)
    requires
        starts_at(x, a, o),
    ensures
        starts_at(x, a + c, o),
{
    assert((a + c).subrange(o, o + x.len()) =~= a.subrange(o, o + x.len()));
}

proof fn lemma_str_arms_hold(vs: Seq<VariantV>, want: bool, ps: Seq<(Seq<char>, PT)>, locale: Seq<char>,
    b: Seq<(String, BuiltInFuncDef)>, i: int)
    requires
        str_arms_spec(vs, want, ps, locale, b) is Ok,
        0 <= i < vs.len(),
        vs[i].default == want,
    ensures
        str_arm_spec(vs[i], ps, locale, b) matches Ok(x)
            && exists|o: int| starts_at(x, str_arms_spec(vs, want, ps, locale, b)->Ok_0, o),
    decreases vs.len(),
{
    let a = str_arms_spec(vs.drop_last(), want, ps, locale, b)->Ok_0;
    if i == vs.len() - 1 {
        let x = str_arm_spec(vs.last(), ps, locale, b)->Ok_0;
        assert((a + x).subrange(a.len() as int, (a.len() + x.len()) as int) =~= x);
        assert(starts_at(x, a + x, a.len() as int));
        assert(vs.last() == vs[i]);
        assert(str_arms_spec(vs, want, ps, locale, b)->Ok_0 == a + x);
    } else {
        lemma_str_arms_hold(vs.drop_last(), want, ps, locale, b, i);
        assert(vs.drop_last()[i] == vs[i]);
        let x = str_arm_spec(vs[i], ps, locale, b)->Ok_0;
        let o = choose|o: int| starts_at(x, a, o);
        if vs.last().default == want {
            let y = str_arm_spec(vs.last(), ps, locale, b)->Ok_0;
            lemma_starts_at_grow(x, a, y, o);
        }
        assert(starts_at(x, str_arms_spec(vs, want, ps, locale, b)->Ok_0, o));
    }
}

proof fn lemma_num_arms_hold(vs: Seq<VariantV>, want: bool, ps: Seq<(Seq<char>, PT)>, locale: Seq<char>,
    b: Seq<(String, BuiltInFuncDef)>, i: int)
    requires
        num_arms_spec(vs, want, ps, locale, b) is Ok,
        0 <= i < vs.len(),
        vs[i].default == want,
    ensures
        num_arm_spec(vs[i], want, ps, locale, b) matches Ok(x)
            && exists|o: int| starts_at(x, num_arms_spec(vs, want, ps, locale, b)->Ok_0, o),
    decreases vs.len(),
{
    let a = num_arms_spec(vs.drop_last(), want, ps, locale, b)->Ok_0;
    if i == vs.len() - 1 {
        let x = num_arm_spec(vs.last(), want, ps, locale, b)->Ok_0;
        assert((a + x).subrange(a.len() as int, (a.len() + x.len()) as int) =~= x);
        assert(starts_at(x, a + x, a.len() as int));
        assert(vs.last() == vs[i]);
        assert(num_arms_spec(vs, want, ps, locale, b)->Ok_0 == a + x);
    } else {
        lemma_num_arms_hold(vs.drop_last(), want, ps, locale, b, i);
        assert(vs.drop_last()[i] == vs[i]);
        let x = num_arm_spec(vs[i], want, ps, locale, b)->Ok_0;
        let o = choose|o: int| starts_at(x, a, o);
        if vs.last().default == want {
            let y = num_arm_spec(vs.last(), want, ps, locale, b)->Ok_0;
            lemma_starts_at_grow(x, a, y, o);
        }
        assert(starts_at(x, num_arms_spec(vs, want, ps, locale, b)->Ok_0, o));
    }
}

/// A string key as a Rust pattern: the quoted name, or the number itself.
pub open spec fn str_key_pattern(k: KeyV) -> Seq<char> {
    match k {
        KeyV::Ident(n) => "\""@ + escape_seq(n) + "\""@,
        KeyV::Num(v) => v,
    }
}

/// In the `match` generated for a string selector, every keyed arm comes
/// before the default (wildcard) arm: a value equal to a variant's key
/// selects that variant, and only other values reach the default.
pub proof fn lemma_string_select_default_last(es: Seq<ElemV>, ps: Seq<(Seq<char>, PT)>, locale: Seq<char>,
    b: Seq<(String, BuiltInFuncDef)>, i: int, j: int)
    requires
        select_body_spec(es, ps, locale, b) is Ok,
        first_select(es) is Some,
        gk_lookup(ps, first_select(es)->Some_0.0) == Some(PT::Str),
        0 <= i < first_select(es)->Some_0.1.len(),
        !first_select(es)->Some_0.1[i].default,
        0 <= j < first_select(es)->Some_0.1.len(),
        first_select(es)->Some_0.1[j].default,
    ensures
        exists|p: int, q: int| p < q
            && starts_at("        "@ + str_key_pattern(first_select(es)->Some_0.1[i].key) + " => "@,
                select_body_spec(es, ps, locale, b)->Ok_0, p)
            && starts_at("        _ => "@, select_body_spec(es, ps, locale, b)->Ok_0, q),
{
    let sel = first_select(es)->Some_0.0;
    let vs = first_select(es)->Some_0.1;
    let out = select_body_spec(es, ps, locale, b)->Ok_0;
    let n = sanitize_spec(sel);
    let a1 = str_arms_spec(vs, false, ps, locale, b)->Ok_0;
    let a2 = str_arms_spec(vs, true, ps, locale, b)->Ok_0;
    let h = "    let __sel: String = match "@ + n + ".into() {\n"@
        + "        FluentArg::Str(s) => s.into_owned(),\n"@
        + "        _ => return String::new(),\n"@ + "    };\n"@
        + "    match __sel.as_str() {\n"@;
    let t = "    }\n"@;
    assert(out == h + a1 + a2 + t);
    lemma_str_arms_hold(vs, false, ps, locale, b, i);
    lemma_str_arms_hold(vs, true, ps, locale, b, j);
    let xi = str_arm_spec(vs[i], ps, locale, b)->Ok_0;
    let xj = str_arm_spec(vs[j], ps, locale, b)->Ok_0;
    let o1 = choose|o: int| starts_at(xi, a1, o);
    let o2 = choose|o: int| starts_at(xj, a2, o);
    let bi = arm_body_spec(vs[i].elements, ps, b)->Ok_0;
    let bj = arm_body_spec(vs[j].elements, ps, b)->Ok_0;
    let pi = "        "@ + str_key_pattern(vs[i].key) + " => "@;
    assert(xi =~= pi + (bi + ",\n"@));
    let pj = "        _ => "@;
    assert(xj =~= pj + (bj + ",\n"@)) by {
        reveal_strlit("        ");
        reveal_strlit("_");
        reveal_strlit(" => ");
        reveal_strlit("        _ => ");
    }
    lemma_starts_at_prefix(pi, bi + ",\n"@, a1, o1);
    lemma_starts_at_prefix(pj, bj + ",\n"@, a2, o2);
    lemma_starts_at_first(pi, h, a1, a2, t, o1);
    lemma_starts_at_second(pj, h, a1, a2, t, o2);
    assert(pi.len() > 0) by {
        reveal_strlit("        ");
    }
    assert(h.len() + o1 < h.len() + a1.len() + o2);
    assert(starts_at(pi, out, h.len() + o1));
    assert(starts_at(pj, out, h.len() + a1.len() + o2));
}

/// In the `match` generated for a numeric selector, every keyed arm comes
/// before the default (wildcard) arm.
pub proof fn lemma_numeric_select_default_last(es: Seq<ElemV>, ps: Seq<(Seq<char>, PT)>, locale: Seq<char>,
    b: Seq<(String, BuiltInFuncDef)>, i: int, j: int)
    requires
        select_body_spec(es, ps, locale, b) is Ok,
        first_select(es) is Some,
        !(gk_lookup(ps, first_select(es)->Some_0.0) matches Some(t) && t != PT::Num),
        0 <= i < first_select(es)->Some_0.1.len(),
        !first_select(es)->Some_0.1[i].default,
        0 <= j < first_select(es)->Some_0.1.len(),
        first_select(es)->Some_0.1[j].default,
    ensures
        exists|p: int, q: int| p < q
            && starts_at("        "@ + arm_pattern_num_spec(first_select(es)->Some_0.1[i].key, locale) + " => "@,
                select_body_spec(es, ps, locale, b)->Ok_0, p)
            && starts_at("        _ => "@, select_body_spec(es, ps, locale, b)->Ok_0, q),
{
    let sel = first_select(es)->Some_0.0;
    let vs = first_select(es)->Some_0.1;
    let out = select_body_spec(es, ps, locale, b)->Ok_0;
    let n = sanitize_spec(sel);
    let a1 = num_arms_spec(vs, false, ps, locale, b)->Ok_0;
    let a2 = num_arms_spec(vs, true, ps, locale, b)->Ok_0;
    let h = "    let "@ + n + ": FluentNum = "@ + n + ".into();\n"@ + "    match *"@ + n + " {\n"@;
    let t = "    }\n"@;
    assert(out == h + a1 + a2 + t);
    lemma_num_arms_hold(vs, false, ps, locale, b, i);
    lemma_num_arms_hold(vs, true, ps, locale, b, j);
    let xi = num_arm_spec(vs[i], false, ps, locale, b)->Ok_0;
    let xj = num_arm_spec(vs[j], true, ps, locale, b)->Ok_0;
    let o1 = choose|o: int| starts_at(xi, a1, o);
    let o2 = choose|o: int| starts_at(xj, a2, o);
    let bi = arm_body_spec(vs[i].elements, ps, b)->Ok_0;
    let bj = arm_body_spec(vs[j].elements, ps, b)->Ok_0;
    let pi = "        "@ + arm_pattern_num_spec(vs[i].key, locale) + " => "@;
    assert(xi =~= pi + (bi + ",\n"@));
    let pj = "        _ => "@;
    assert(xj =~= pj + (bj + ",\n"@)) by {
        reveal_strlit("        _");
        reveal_strlit(" => ");
        reveal_strlit("        _ => ");
    }
    lemma_starts_at_prefix(pi, bi + ",\n"@, a1, o1);
    lemma_starts_at_prefix(pj, bj + ",\n"@, a2, o2);
    lemma_starts_at_first(pi, h, a1, a2, t, o1);
    lemma_starts_at_second(pj, h, a1, a2, t, o2);
    assert(pi.len() > 0) by {
        reveal_strlit("        ");
    }
    assert(h.len() + o1 < h.len() + a1.len() + o2);
    assert(starts_at(pi, out, h.len() + o1));
    assert(starts_at(pj, out, h.len() + a1.len() + o2));
}

}
