//! The generated Rust module: built-in argument types, one module of
//! functions per locale, the runtime locale switch and the `t!` macro.
use vstd::prelude::*;
use crate::ast::{AttrV, EntriesV, LocaleEntries, NamedV, entries_v};
use crate::builtin::{BuiltInArgType, BuiltInFuncDef, BuiltInNamedArg, DefV, NamedArgV, def_v, defs_model};
use crate::convert::flat_name;
use crate::fmt::{fn_spec, generate_one_function};
use crate::generator::{Generator, locales_model};
use crate::keyed::{gk_lookup, keyed_get, keys_sorted, lemma_kv_lookup};
use crate::params::{params_spec, try_collect_params};
use crate::text::{dec_str, push_str, push_usize, str_result, string_of, trim_end, trim_end_spec};
use crate::util::{name_parts, pascal_join, sanitize, sanitize_spec, sanitize_upper};

verus! {

// ---------------------------------------------------------------------
// Built-in argument types
// ---------------------------------------------------------------------

pub open spec fn arg_ty(t: BuiltInArgType) -> Seq<char> {
    match t {
        BuiltInArgType::String => "String"@,
        BuiltInArgType::Int => "i64"@,
        BuiltInArgType::Float => "f64"@,
        BuiltInArgType::Bool => "bool"@,
    }
}

pub open spec fn fields_spec(args: Seq<NamedArgV>) -> Seq<char>
    decreases args.len(),
{
    if args.len() == 0 {
        Seq::empty()
    } else {
        fields_spec(args.drop_last()) + "    pub "@ + args.last().rust_name + ": Option<"@ + arg_ty(args.last().arg_type)
            + ">,\n"@
    }
}

pub open spec fn inits_spec(args: Seq<NamedArgV>) -> Seq<char>
    decreases args.len(),
{
    if args.len() == 0 {
        Seq::empty()
    } else {
        inits_spec(args.drop_last()) + "            "@ + args.last().rust_name + ": None,\n"@
    }
}

pub open spec fn setter_spec(a: NamedArgV) -> Seq<char> {
    "    pub fn "@ + a.rust_name + "(mut self, v: "@ + arg_ty(a.arg_type) + ") -> Self {\n"@
        + "        self."@ + a.rust_name + " = Some(v);\n"@ + "        self\n"@ + "    }\n"@ + "\n"@
}

pub open spec fn setters_spec(args: Seq<NamedArgV>) -> Seq<char>
    decreases args.len(),
{
    if args.len() == 0 { Seq::empty() } else { setters_spec(args.drop_last()) + setter_spec(args.last()) }
}

/// The struct of a built-in's value and named arguments.
pub open spec fn type_decl_spec(d: DefV) -> Seq<char> {
    "\n"@ + "pub struct "@ + d.ty_name + " {\n"@ + "    pub value: FluentNum,\n"@ + fields_spec(d.named_args)
        + "}\n"@ + "\n"@
}

/// Its constructor.
pub open spec fn type_ctor_spec(d: DefV) -> Seq<char> {
    "impl "@ + d.ty_name + " {\n"@ + "    pub fn new(v: impl Into<FluentNum>) -> Self {\n"@ + "        Self {\n"@
        + "            value: v.into(),\n"@ + inits_spec(d.named_args) + "        }\n"@ + "    }\n"@ + "\n"@
}

/// Its rendering, through the registered `write_to` body.
pub open spec fn type_tail_spec(body: Seq<char>) -> Seq<char> {
    "    pub fn write_to(self, out: &mut String) {\n"@ + "        self.write_to_with(out, get_locale())\n"@
        + "    }\n"@ + "\n"@ + "    #[allow(unused_variables)]\n"@
        + "    pub fn write_to_with(self, out: &mut String, lang: Lang) {\n"@ + "        let this = &self;\n"@
        + "        "@ + body + "\n"@ + "    }\n"@ + "}\n"@
}

/// The type of every built-in that has a `write_to` body, in name order.
pub open spec fn builtin_types_spec(defs: Seq<(Seq<char>, DefV)>) -> Seq<char>
    decreases defs.len(),
{
    if defs.len() == 0 {
        Seq::empty()
    } else {
        builtin_types_spec(defs.drop_last()) + match defs.last().1.write_to_body {
            Some(body) => type_decl_spec(defs.last().1) + type_ctor_spec(defs.last().1) + setters_spec(defs.last().1.named_args)
                + type_tail_spec(body),
            None => Seq::empty(),
        }
    }
}

/// `use super::Type;` for every built-in that has a type.
pub open spec fn uses_spec(defs: Seq<(Seq<char>, DefV)>) -> Seq<char>
    decreases defs.len(),
{
    if defs.len() == 0 {
        Seq::empty()
    } else {
        uses_spec(defs.drop_last()) + if defs.last().1.write_to_body is Some {
            "    use super::"@ + defs.last().1.ty_name + ";\n"@
        } else {
            Seq::empty()
        }
    }
}

pub open spec fn named_args_v(args: Seq<BuiltInNamedArg>) -> Seq<NamedArgV> {
    args.map_values(|a: BuiltInNamedArg| crate::builtin::named_arg_v(a))
}

fn push_arg_ty(out: &mut String, t: BuiltInArgType)
    ensures
        final(out)@ == old(out)@ + arg_ty(t),
{
    match t {
        BuiltInArgType::String => push_str(out, "String"),
        BuiltInArgType::Int => push_str(out, "i64"),
        BuiltInArgType::Float => push_str(out, "f64"),
        BuiltInArgType::Bool => push_str(out, "bool"),
    }
}

fn push_fields(out: &mut String, args: &Vec<BuiltInNamedArg>)
    ensures
        final(out)@ == old(out)@ + fields_spec(named_args_v(args@)),
{
    let ghost o = out@;
    let ghost av = named_args_v(args@);
    let mut i: usize = 0;
    assert(av.subrange(0, 0) =~= Seq::<NamedArgV>::empty());
    while i < args.len()
        invariant
            av == named_args_v(args@),
            i <= args@.len(),
            out@ == o + fields_spec(av.subrange(0, i as int)),
        decreases args@.len() - i,
    {
        let ghost before = out@;
        push_str(out, "    pub ");
        push_str(out, args[i].rust_name.as_str());
        push_str(out, ": Option<");
        push_arg_ty(out, args[i].arg_type);
        push_str(out, ">,\n");
        assert(av.subrange(0, i + 1).drop_last() =~= av.subrange(0, i as int));
        assert(av[i as int] == crate::builtin::named_arg_v(args@[i as int]));
        assert(out@ =~= o + fields_spec(av.subrange(0, i + 1)));
        i += 1;
    }
    assert(av.subrange(0, i as int) =~= av);
}

fn push_inits(out: &mut String, args: &Vec<BuiltInNamedArg>)
    ensures
        final(out)@ == old(out)@ + inits_spec(named_args_v(args@)),
{
    let ghost o = out@;
    let ghost av = named_args_v(args@);
    let mut i: usize = 0;
    assert(av.subrange(0, 0) =~= Seq::<NamedArgV>::empty());
    while i < args.len()
        invariant
            av == named_args_v(args@),
            i <= args@.len(),
            out@ == o + inits_spec(av.subrange(0, i as int)),
        decreases args@.len() - i,
    {
        push_str(out, "            ");
        push_str(out, args[i].rust_name.as_str());
        push_str(out, ": None,\n");
        assert(av.subrange(0, i + 1).drop_last() =~= av.subrange(0, i as int));
        assert(av[i as int] == crate::builtin::named_arg_v(args@[i as int]));
        assert(out@ =~= o + inits_spec(av.subrange(0, i + 1)));
        i += 1;
    }
    assert(av.subrange(0, i as int) =~= av);
}

fn push_setter(out: &mut String, a: &BuiltInNamedArg)
    ensures
        final(out)@ == old(out)@ + setter_spec(crate::builtin::named_arg_v(*a)),
{
    let ghost o = out@;
    push_str(out, "    pub fn ");
    push_str(out, a.rust_name.as_str());
    push_str(out, "(mut self, v: ");
    push_arg_ty(out, a.arg_type);
    push_str(out, ") -> Self {\n");
    push_str(out, "        self.");
    push_str(out, a.rust_name.as_str());
    push_str(out, " = Some(v);\n");
    push_str(out, "        self\n");
    push_str(out, "    }\n");
    push_str(out, "\n");
    assert(out@ =~= o + setter_spec(crate::builtin::named_arg_v(*a)));
}

fn push_setters(out: &mut String, args: &Vec<BuiltInNamedArg>)
    ensures
        final(out)@ == old(out)@ + setters_spec(named_args_v(args@)),
{
    let ghost o = out@;
    let ghost av = named_args_v(args@);
    let mut i: usize = 0;
    assert(av.subrange(0, 0) =~= Seq::<NamedArgV>::empty());
    while i < args.len()
        invariant
            av == named_args_v(args@),
            i <= args@.len(),
            out@ == o + setters_spec(av.subrange(0, i as int)),
        decreases args@.len() - i,
    {
        push_setter(out, &args[i]);
        assert(av.subrange(0, i + 1).drop_last() =~= av.subrange(0, i as int));
        assert(av[i as int] == crate::builtin::named_arg_v(args@[i as int]));
        assert(out@ =~= o + setters_spec(av.subrange(0, i + 1)));
        i += 1;
    }
    assert(av.subrange(0, i as int) =~= av);
}

fn push_type_decl(out: &mut String, d: &BuiltInFuncDef)
    ensures
        final(out)@ == old(out)@ + type_decl_spec(def_v(*d)),
{
    let ghost o = out@;
    push_str(out, "\n");
    push_str(out, "pub struct ");
    push_str(out, d.ty_name.as_str());
    push_str(out, " {\n");
    push_str(out, "    pub value: FluentNum,\n");
    push_fields(out, &d.named_args);
    push_str(out, "}\n");
    push_str(out, "\n");
    assert(def_v(*d).named_args == named_args_v(d.named_args@));
    assert(out@ =~= o + type_decl_spec(def_v(*d)));
}

fn push_type_ctor(out: &mut String, d: &BuiltInFuncDef)
    ensures
        final(out)@ == old(out)@ + type_ctor_spec(def_v(*d)),
{
    let ghost o = out@;
    push_str(out, "impl ");
    push_str(out, d.ty_name.as_str());
    push_str(out, " {\n");
    push_str(out, "    pub fn new(v: impl Into<FluentNum>) -> Self {\n");
    push_str(out, "        Self {\n");
    push_str(out, "            value: v.into(),\n");
    push_inits(out, &d.named_args);
    push_str(out, "        }\n");
    push_str(out, "    }\n");
    push_str(out, "\n");
    assert(def_v(*d).named_args == named_args_v(d.named_args@));
    assert(out@ =~= o + type_ctor_spec(def_v(*d)));
}

fn push_type_tail(out: &mut String, body: &String)
    ensures
        final(out)@ == old(out)@ + type_tail_spec(body@),
{
    let ghost o = out@;
    push_str(out, "    pub fn write_to(self, out: &mut String) {\n");
    push_str(out, "        self.write_to_with(out, get_locale())\n");
    push_str(out, "    }\n");
    push_str(out, "\n");
    push_str(out, "    #[allow(unused_variables)]\n");
    push_str(out, "    pub fn write_to_with(self, out: &mut String, lang: Lang) {\n");
    push_str(out, "        let this = &self;\n");
    push_str(out, "        ");
    push_str(out, body.as_str());
    push_str(out, "\n");
    push_str(out, "    }\n");
    push_str(out, "}\n");
    assert(out@ =~= o + type_tail_spec(body@));
}

/// Appends the type of every built-in that has a `write_to` body, in the
/// registry's (ascending) key order.
pub fn emit_builtin_types(builtins: &Vec<(String, BuiltInFuncDef)>, out: &mut String)
    requires
        keys_sorted(builtins@),
    ensures
        final(out)@ == old(out)@ + builtin_types_spec(defs_model(builtins@)),
{
    let ghost o = out@;
    let ghost dm = defs_model(builtins@);
    let mut i: usize = 0;
    assert(dm.subrange(0, 0) =~= Seq::<(Seq<char>, DefV)>::empty());
    while i < builtins.len()
        invariant
            dm == defs_model(builtins@),
            i <= builtins@.len(),
            out@ == o + builtin_types_spec(dm.subrange(0, i as int)),
        decreases builtins@.len() - i,
    {
        let ghost before = out@;
        let d = &builtins[i].1;
        assert(dm.subrange(0, i + 1).drop_last() =~= dm.subrange(0, i as int));
        assert(dm[i as int].1 == def_v(*d));
        match &d.write_to_body {
            Some(body) => {
                push_type_decl(out, d);
                push_type_ctor(out, d);
                push_setters(out, &d.named_args);
                push_type_tail(out, body);
                assert(def_v(*d).named_args == named_args_v(d.named_args@));
                assert(out@ =~= before + (type_decl_spec(def_v(*d)) + type_ctor_spec(def_v(*d))
                    + setters_spec(def_v(*d).named_args) + type_tail_spec(body@)));
            },
            None => {},
        }
        assert(out@ =~= o + builtin_types_spec(dm.subrange(0, i + 1)));
        i += 1;
    }
    assert(dm.subrange(0, i as int) =~= dm);
}

fn push_uses(out: &mut String, builtins: &Vec<(String, BuiltInFuncDef)>)
    ensures
        final(out)@ == old(out)@ + uses_spec(defs_model(builtins@)),
{
    let ghost o = out@;
    let ghost dm = defs_model(builtins@);
    let mut i: usize = 0;
    assert(dm.subrange(0, 0) =~= Seq::<(Seq<char>, DefV)>::empty());
    while i < builtins.len()
        invariant
            dm == defs_model(builtins@),
            i <= builtins@.len(),
            out@ == o + uses_spec(dm.subrange(0, i as int)),
        decreases builtins@.len() - i,
    {
        let d = &builtins[i].1;
        assert(dm.subrange(0, i + 1).drop_last() =~= dm.subrange(0, i as int));
        assert(dm[i as int].1 == def_v(*d));
        if d.write_to_body.is_some() {
            push_str(out, "    use super::");
            push_str(out, d.ty_name.as_str());
            push_str(out, ";\n");
        }
        assert(out@ =~= o + uses_spec(dm.subrange(0, i + 1)));
        i += 1;
    }
    assert(dm.subrange(0, i as int) =~= dm);
}

} // verus!

verus! {

// ---------------------------------------------------------------------
// Locale modules
// ---------------------------------------------------------------------

pub open spec fn msg_ctx(p: NamedV) -> Seq<char> {
    "message '"@ + p.name + "'"@
}

pub open spec fn attr_ctx(p: AttrV) -> Seq<char> {
    "attribute '"@ + p.owner + "."@ + p.name + "'"@
}

/// The function of one message of the primary locale in a locale's
/// module: the locale's own message when it has it, else the primary
/// message (formatted for the primary locale) and a warning comment. Its
/// parameters are always those of the primary message.
pub open spec fn msg_fn_spec(key: Seq<char>, p: NamedV, lmsgs: Seq<(Seq<char>, NamedV)>, locale: Seq<char>,
    primary: Seq<char>, b: Seq<(String, BuiltInFuncDef)>) -> Result<Seq<char>, Seq<char>>
{
    match params_spec(p.elements, msg_ctx(p)) {
        Err(m) => Err(m),
        Ok(ps) => match gk_lookup(lmsgs, key) {
            Some(m) => match fn_spec(m.name, m.elements, ps, locale, b) {
                Err(e) => Err(e),
                Ok(c) => Ok(trim_end_spec(c) + "\n"@),
            },
            None => match fn_spec(p.name, p.elements, ps, primary, b) {
                Err(e) => Err(e),
                Ok(c) => Ok(trim_end_spec(c) + "\n"@ + "// WARNING: '"@ + p.name + "' missing, using '"@ + locale
                    + "' fallback\n"@),
            },
        },
    }
}

pub open spec fn msgs_spec(pm: Seq<(Seq<char>, NamedV)>, lm: Seq<(Seq<char>, NamedV)>, locale: Seq<char>,
    primary: Seq<char>, b: Seq<(String, BuiltInFuncDef)>) -> Result<Seq<char>, Seq<char>>
    decreases pm.len(),
{
    if pm.len() == 0 {
        Ok(Seq::empty())
    } else {
        match msgs_spec(pm.drop_last(), lm, locale, primary, b) {
            Err(m) => Err(m),
            Ok(a) => match msg_fn_spec(pm.last().0, pm.last().1, lm, locale, primary, b) {
                Err(m) => Err(m),
                Ok(c) => Ok(a + c),
            },
        }
    }
}

/// The function of one attribute of the primary locale, named
/// `owner__name`, chosen like a message's.
pub open spec fn attr_fn_spec(key: Seq<char>, p: AttrV, lattrs: Seq<(Seq<char>, AttrV)>, locale: Seq<char>,
    primary: Seq<char>, b: Seq<(String, BuiltInFuncDef)>) -> Result<Seq<char>, Seq<char>>
{
    match params_spec(p.elements, attr_ctx(p)) {
        Err(m) => Err(m),
        Ok(ps) => match gk_lookup(lattrs, key) {
            Some(a) => match fn_spec(flat_name(p.owner, p.name), a.elements, ps, locale, b) {
                Err(e) => Err(e),
                Ok(c) => Ok(trim_end_spec(c) + "\n"@),
            },
            None => match fn_spec(flat_name(p.owner, p.name), p.elements, ps, primary, b) {
                Err(e) => Err(e),
                Ok(c) => Ok(trim_end_spec(c) + "\n"@ + "// WARNING: attribute '"@ + p.owner + "."@ + p.name
                    + "' missing, using '"@ + locale + "' fallback\n"@),
            },
        },
    }
}

pub open spec fn attrs_spec(pa: Seq<(Seq<char>, AttrV)>, la: Seq<(Seq<char>, AttrV)>, locale: Seq<char>,
    primary: Seq<char>, b: Seq<(String, BuiltInFuncDef)>) -> Result<Seq<char>, Seq<char>>
    decreases pa.len(),
{
    if pa.len() == 0 {
        Ok(Seq::empty())
    } else {
        match attrs_spec(pa.drop_last(), la, locale, primary, b) {
            Err(m) => Err(m),
            Ok(a) => match attr_fn_spec(pa.last().0, pa.last().1, la, locale, primary, b) {
                Err(m) => Err(m),
                Ok(c) => Ok(a + c),
            },
        }
    }
}

/// A locale that lacks a message of the primary locale gets, for it, the
/// very function the primary locale's module has, followed by a warning
/// comment: the gap is filled from the primary locale when the code is
/// generated.
pub proof fn lemma_missing_message_uses_primary(key: Seq<char>, p: NamedV, lm: Seq<(Seq<char>, NamedV)>,
    pm: Seq<(Seq<char>, NamedV)>, locale: Seq<char>, primary: Seq<char>, b: Seq<(String, BuiltInFuncDef)>)
    requires
        gk_lookup(lm, key) is None,
        gk_lookup(pm, key) == Some(p),
    ensures
        match (msg_fn_spec(key, p, lm, locale, primary, b), msg_fn_spec(key, p, pm, primary, primary, b)) {
            (Ok(a), Ok(c)) => a == c + "// WARNING: '"@ + p.name + "' missing, using '"@ + locale + "' fallback\n"@,
            (Err(x), Err(y)) => x == y,
            _ => false,
        },
{
}

/// The same holds of the attributes of the primary locale.
pub proof fn lemma_missing_attribute_uses_primary(key: Seq<char>, p: AttrV, la: Seq<(Seq<char>, AttrV)>,
    pa: Seq<(Seq<char>, AttrV)>, locale: Seq<char>, primary: Seq<char>, b: Seq<(String, BuiltInFuncDef)>)
    requires
        gk_lookup(la, key) is None,
        gk_lookup(pa, key) == Some(p),
    ensures
        match (attr_fn_spec(key, p, la, locale, primary, b), attr_fn_spec(key, p, pa, primary, primary, b)) {
            (Ok(a), Ok(c)) => a == c + "// WARNING: attribute '"@ + p.owner + "."@ + p.name + "' missing, using '"@
                + locale + "' fallback\n"@,
            (Err(x), Err(y)) => x == y,
            _ => false,
        },
{
}

pub open spec fn module_header_spec(locale: Seq<char>, defs: Seq<(Seq<char>, DefV)>) -> Seq<char> {
    "pub mod "@ + sanitize_spec(locale) + " {\n"@
        + "    #![allow(non_snake_case, unused_imports, dead_code, unused_variables)]\n"@
        + "    use std::fmt::Write;\n"@ + "    use ftl_core::{FluentNum, FluentArg};\n"@ + uses_spec(defs)
}

/// The module of one locale: a function for every message and attribute
/// of the primary locale.
#[verifier::opaque]
pub open spec fn module_spec(locale: Seq<char>, le: EntriesV, pe: EntriesV, primary: Seq<char>,
    b: Seq<(String, BuiltInFuncDef)>) -> Result<Seq<char>, Seq<char>>
{
    match msgs_spec(pe.messages, le.messages, locale, primary, b) {
        Err(m) => Err(m),
        Ok(ms) => match attrs_spec(pe.attributes, le.attributes, locale, primary, b) {
            Err(m) => Err(m),
            Ok(at) => Ok(module_header_spec(locale, defs_model(b)) + ms + at + "}\n"@ + "\n"@),
        },
    }
}

fn push_fn_code(out: &mut String, code: String)
    ensures
        final(out)@ == old(out)@ + trim_end_spec(code@) + "\n"@,
{
    let t = trim_end(code.as_str());
    push_str(out, t.as_str());
    push_str(out, "\n");
}

fn msg_fn(key: &String, p: &crate::ast::Message, le: &LocaleEntries, locale: &str, primary: &str,
    builtins: &Vec<(String, BuiltInFuncDef)>) -> (res: Result<String, String>)
    ensures
        str_result(res) == msg_fn_spec(key@, crate::ast::message_v(*p), entries_v(*le).messages, locale@, primary@, builtins@),
{
    let mut ctx = string_of("message '");
    push_str(&mut ctx, p.name.as_str());
    push_str(&mut ctx, "'");
    let params = match try_collect_params(&p.elements, ctx.as_str()) {
        Ok(ps) => ps,
        Err(m) => return Err(m),
    };
    proof {
        lemma_kv_lookup(le.messages@, |m: crate::ast::Message| crate::ast::message_v(m), key@);
    }
    let mut out = String::new();
    match keyed_get(&le.messages, key.as_str()) {
        Some(m) => {
            let code = match generate_one_function(m.name.as_str(), &m.elements, &params, locale, builtins) {
                Ok(c) => c,
                Err(e) => return Err(e),
            };
            push_fn_code(&mut out, code);
        },
        None => {
            let code = match generate_one_function(p.name.as_str(), &p.elements, &params, primary, builtins) {
                Ok(c) => c,
                Err(e) => return Err(e),
            };
            push_fn_code(&mut out, code);
            push_str(&mut out, "// WARNING: '");
            push_str(&mut out, p.name.as_str());
            push_str(&mut out, "' missing, using '");
            push_str(&mut out, locale);
            push_str(&mut out, "' fallback\n");
        },
    }
    Ok(out)
}

fn attr_fn(key: &String, p: &crate::ast::Attribute, le: &LocaleEntries, locale: &str, primary: &str,
    builtins: &Vec<(String, BuiltInFuncDef)>) -> (res: Result<String, String>)
    ensures
        str_result(res) == attr_fn_spec(key@, crate::ast::attribute_v(*p), entries_v(*le).attributes, locale@, primary@,
            builtins@),
{
    let mut ctx = string_of("attribute '");
    push_str(&mut ctx, p.owner.as_str());
    push_str(&mut ctx, ".");
    push_str(&mut ctx, p.name.as_str());
    push_str(&mut ctx, "'");
    let params = match try_collect_params(&p.elements, ctx.as_str()) {
        Ok(ps) => ps,
        Err(m) => return Err(m),
    };
    let fn_name = crate::convert::flatten_attr_name(p.owner.as_str(), p.name.as_str());
    proof {
        lemma_kv_lookup(le.attributes@, |a: crate::ast::Attribute| crate::ast::attribute_v(a), key@);
    }
    let mut out = String::new();
    match keyed_get(&le.attributes, key.as_str()) {
        Some(a) => {
            let code = match generate_one_function(fn_name.as_str(), &a.elements, &params, locale, builtins) {
                Ok(c) => c,
                Err(e) => return Err(e),
            };
            push_fn_code(&mut out, code);
        },
        None => {
            let code = match generate_one_function(fn_name.as_str(), &p.elements, &params, primary, builtins) {
                Ok(c) => c,
                Err(e) => return Err(e),
            };
            push_fn_code(&mut out, code);
            push_str(&mut out, "// WARNING: attribute '");
            push_str(&mut out, p.owner.as_str());
            push_str(&mut out, ".");
            push_str(&mut out, p.name.as_str());
            push_str(&mut out, "' missing, using '");
            push_str(&mut out, locale);
            push_str(&mut out, "' fallback\n");
        },
    }
    Ok(out)
}

proof fn lemma_msgs_err(pm: Seq<(Seq<char>, NamedV)>, lm: Seq<(Seq<char>, NamedV)>, locale: Seq<char>,
    primary: Seq<char>, b: Seq<(String, BuiltInFuncDef)>, n: int, m: Seq<char>)
    requires
        0 <= n <= pm.len(),
        msgs_spec(pm.subrange(0, n), lm, locale, primary, b) == Err::<Seq<char>, Seq<char>>(m),
    ensures
        msgs_spec(pm, lm, locale, primary, b) == Err::<Seq<char>, Seq<char>>(m),
    decreases pm.len() - n,
{
    if n == pm.len() {
        assert(pm.subrange(0, n) =~= pm);
    } else {
        assert(pm.subrange(0, n + 1).drop_last() =~= pm.subrange(0, n));
        lemma_msgs_err(pm, lm, locale, primary, b, n + 1, m);
    }
}

proof fn lemma_attrs_err(pa: Seq<(Seq<char>, AttrV)>, la: Seq<(Seq<char>, AttrV)>, locale: Seq<char>,
    primary: Seq<char>, b: Seq<(String, BuiltInFuncDef)>, n: int, m: Seq<char>)
    requires
        0 <= n <= pa.len(),
        attrs_spec(pa.subrange(0, n), la, locale, primary, b) == Err::<Seq<char>, Seq<char>>(m),
    ensures
        attrs_spec(pa, la, locale, primary, b) == Err::<Seq<char>, Seq<char>>(m),
    decreases pa.len() - n,
{
    if n == pa.len() {
        assert(pa.subrange(0, n) =~= pa);
    } else {
        assert(pa.subrange(0, n + 1).drop_last() =~= pa.subrange(0, n));
        lemma_attrs_err(pa, la, locale, primary, b, n + 1, m);
    }
}

fn push_msg_fns(out: &mut String, le: &LocaleEntries, pe: &LocaleEntries, locale: &str, primary: &str,
    builtins: &Vec<(String, BuiltInFuncDef)>) -> (res: Result<(), String>)
    ensures
        match res {
            Ok(()) => match msgs_spec(entries_v(*pe).messages, entries_v(*le).messages, locale@, primary@, builtins@) {
                Ok(c) => final(out)@ == old(out)@ + c,
                Err(_) => false,
            },
            Err(m) => msgs_spec(entries_v(*pe).messages, entries_v(*le).messages, locale@, primary@, builtins@)
                == Err::<Seq<char>, Seq<char>>(m@),
        },
{
    let ghost o = out@;
    let ghost pm = entries_v(*pe).messages;
    let ghost lm = entries_v(*le).messages;
    let mut i: usize = 0;
    assert(pm.subrange(0, 0) =~= Seq::<(Seq<char>, NamedV)>::empty());
    while i < pe.messages.len()
        invariant
            pm == entries_v(*pe).messages,
            lm == entries_v(*le).messages,
            o == old(out)@,
            i <= pe.messages@.len(),
            match msgs_spec(pm.subrange(0, i as int), lm, locale@, primary@, builtins@) {
                Ok(c) => out@ == o + c,
                Err(_) => false,
            },
        decreases pe.messages@.len() - i,
    {
        assert(pm.subrange(0, i + 1).drop_last() =~= pm.subrange(0, i as int));
        assert(pm[i as int] == (pe.messages@[i as int].0@, crate::ast::message_v(pe.messages@[i as int].1)));
        match msg_fn(&pe.messages[i].0, &pe.messages[i].1, le, locale, primary, builtins) {
            Ok(c) => {
                let ghost before = out@;
                push_str(out, c.as_str());
                proof {
                    let a = msgs_spec(pm.subrange(0, i as int), lm, locale@, primary@, builtins@)->Ok_0;
                    assert(out@ =~= o + (a + c@));
                }
            },
            Err(m) => {
                proof {
                    lemma_msgs_err(pm, lm, locale@, primary@, builtins@, i as int + 1, m@);
                }
                return Err(m);
            },
        }
        i += 1;
    }
    assert(pm.subrange(0, i as int) =~= pm);
    Ok(())
}

fn push_attr_fns(out: &mut String, le: &LocaleEntries, pe: &LocaleEntries, locale: &str, primary: &str,
    builtins: &Vec<(String, BuiltInFuncDef)>) -> (res: Result<(), String>)
    ensures
        match res {
            Ok(()) => match attrs_spec(entries_v(*pe).attributes, entries_v(*le).attributes, locale@, primary@, builtins@) {
                Ok(c) => final(out)@ == old(out)@ + c,
                Err(_) => false,
            },
            Err(m) => attrs_spec(entries_v(*pe).attributes, entries_v(*le).attributes, locale@, primary@, builtins@)
                == Err::<Seq<char>, Seq<char>>(m@),
        },
{
    let ghost o = out@;
    let ghost pa = entries_v(*pe).attributes;
    let ghost la = entries_v(*le).attributes;
    let mut i: usize = 0;
    assert(pa.subrange(0, 0) =~= Seq::<(Seq<char>, AttrV)>::empty());
    while i < pe.attributes.len()
        invariant
            pa == entries_v(*pe).attributes,
            la == entries_v(*le).attributes,
            o == old(out)@,
            i <= pe.attributes@.len(),
            match attrs_spec(pa.subrange(0, i as int), la, locale@, primary@, builtins@) {
                Ok(c) => out@ == o + c,
                Err(_) => false,
            },
        decreases pe.attributes@.len() - i,
    {
        assert(pa.subrange(0, i + 1).drop_last() =~= pa.subrange(0, i as int));
        assert(pa[i as int] == (pe.attributes@[i as int].0@, crate::ast::attribute_v(pe.attributes@[i as int].1)));
        match attr_fn(&pe.attributes[i].0, &pe.attributes[i].1, le, locale, primary, builtins) {
            Ok(c) => {
                push_str(out, c.as_str());
                proof {
                    let a = attrs_spec(pa.subrange(0, i as int), la, locale@, primary@, builtins@)->Ok_0;
                    assert(out@ =~= o + (a + c@));
                }
            },
            Err(m) => {
                proof {
                    lemma_attrs_err(pa, la, locale@, primary@, builtins@, i as int + 1, m@);
                }
                return Err(m);
            },
        }
        i += 1;
    }
    assert(pa.subrange(0, i as int) =~= pa);
    Ok(())
}

/// Appends the module of one locale.
pub fn emit_module(locale: &str, le: &LocaleEntries, pe: &LocaleEntries, primary: &str,
    builtins: &Vec<(String, BuiltInFuncDef)>, out: &mut String) -> (res: Result<(), String>)
    ensures
        match res {
            Ok(()) => match module_spec(locale@, entries_v(*le), entries_v(*pe), primary@, builtins@) {
                Ok(c) => final(out)@ == old(out)@ + c,
                Err(_) => false,
            },
            Err(m) => module_spec(locale@, entries_v(*le), entries_v(*pe), primary@, builtins@)
                == Err::<Seq<char>, Seq<char>>(m@),
        },
{
    let ghost o = out@;
    reveal(module_spec);
    let mut code = String::new();
    push_str(&mut code, "pub mod ");
    let mn = sanitize(locale);
    push_str(&mut code, mn.as_str());
    push_str(&mut code, " {\n");
    push_str(&mut code, "    #![allow(non_snake_case, unused_imports, dead_code, unused_variables)]\n");
    push_str(&mut code, "    use std::fmt::Write;\n");
    push_str(&mut code, "    use ftl_core::{FluentNum, FluentArg};\n");
    push_uses(&mut code, builtins);
    assert(code@ =~= module_header_spec(locale@, defs_model(builtins@)));
    let ghost h = code@;
    match push_msg_fns(&mut code, le, pe, locale, primary, builtins) {
        Ok(()) => {},
        Err(m) => return Err(m),
    }
    let ghost h2 = code@;
    match push_attr_fns(&mut code, le, pe, locale, primary, builtins) {
        Ok(()) => {},
        Err(m) => return Err(m),
    }
    push_str(&mut code, "}\n");
    push_str(&mut code, "\n");
    push_str(out, code.as_str());
    proof {
        let ms = msgs_spec(entries_v(*pe).messages, entries_v(*le).messages, locale@, primary@, builtins@)->Ok_0;
        let at = attrs_spec(entries_v(*pe).attributes, entries_v(*le).attributes, locale@, primary@, builtins@)->Ok_0;
        assert(code@ =~= module_header_spec(locale@, defs_model(builtins@)) + ms + at + "}\n"@ + "\n"@);
    }
    Ok(())
}

} // verus!

verus! {

// ---------------------------------------------------------------------
// Runtime
// ---------------------------------------------------------------------

pub open spec fn upper_spec(l: Seq<char>) -> Seq<char> {
    pascal_join(name_parts(l))
}

pub open spec fn runtime_head_spec() -> Seq<char> {
    "use std::sync::atomic::{AtomicU8, Ordering};\n"@ + "\n"@ + "use ftl_core::unic_langid::LanguageIdentifier;\n"@
        + "use std::str::FromStr;\n"@ + "\n"@ + "static LOCALE_ID: AtomicU8 = AtomicU8::new(0);\n"@ + "\n"@
        + "#[doc(hidden)]\n"@ + "#[inline]\n"@ + "pub fn __ftl_locale_id() -> u8 {\n"@
        + "    LOCALE_ID.load(Ordering::Acquire)\n"@ + "}\n"@ + "\n"@ + "pub enum Lang {\n"@
}

pub open spec fn variants_spec(ls: Seq<Seq<char>>) -> Seq<char>
    decreases ls.len(),
{
    if ls.len() == 0 { Seq::empty() } else { variants_spec(ls.drop_last()) + "    "@ + upper_spec(ls.last()) + ",\n"@ }
}

pub open spec fn from_head_spec() -> Seq<char> {
    "}\n"@ + "\n"@ + "impl From<Lang> for LanguageIdentifier {\n"@ + "    fn from(l: Lang) -> Self {\n"@
        + "        match l {\n"@
}

pub open spec fn from_arms_spec(ls: Seq<Seq<char>>) -> Seq<char>
    decreases ls.len(),
{
    if ls.len() == 0 {
        Seq::empty()
    } else {
        from_arms_spec(ls.drop_last()) + "            Lang::"@ + upper_spec(ls.last())
            + " => LanguageIdentifier::from_str(\""@ + ls.last() + "\").expect(\"valid locale\"),\n"@
    }
}

pub open spec fn get_head_spec() -> Seq<char> {
    "        }\n"@ + "    }\n"@ + "}\n"@ + "\n"@ + "pub fn get_locale() -> Lang {\n"@
        + "    match LOCALE_ID.load(Ordering::Acquire) {\n"@
}

pub open spec fn get_arms_spec(ls: Seq<Seq<char>>) -> Seq<char>
    decreases ls.len(),
{
    if ls.len() == 0 {
        Seq::empty()
    } else {
        get_arms_spec(ls.drop_last()) + "        "@ + dec_str((ls.len() - 1) as nat) + " => Lang::"@ + upper_spec(ls.last())
            + ",\n"@
    }
}

pub open spec fn set_head_spec(primary: Seq<char>) -> Seq<char> {
    "        _ => Lang::"@ + upper_spec(primary) + ",\n"@ + "    }\n"@ + "}\n"@ + "\n"@
        + "pub fn set_lang(lang: Lang) {\n"@ + "    let id = match lang {\n"@
}

pub open spec fn set_arms_spec(ls: Seq<Seq<char>>) -> Seq<char>
    decreases ls.len(),
{
    if ls.len() == 0 {
        Seq::empty()
    } else {
        set_arms_spec(ls.drop_last()) + "        Lang::"@ + upper_spec(ls.last()) + " => "@ + dec_str((ls.len() - 1) as nat)
            + ",\n"@
    }
}

pub open spec fn runtime_tail_spec() -> Seq<char> {
    "    };\n"@ + "    LOCALE_ID.store(id, Ordering::Release);\n"@ + "    let lid: LanguageIdentifier = lang.into();\n"@
        + "    ftl_core::set_locale(&lid);\n"@ + "}\n"@
}

/// The locale switch: the `Lang` enum with one variant per locale (in
/// locale order, numbered from 0), its conversion to a language
/// identifier, and `get_locale`/`set_lang` over an atomic id that falls
/// back to the primary locale.
#[verifier::opaque]
pub open spec fn runtime_spec(ls: Seq<Seq<char>>, primary: Seq<char>) -> Seq<char> {
    runtime_head_spec() + variants_spec(ls) + from_head_spec() + from_arms_spec(ls) + get_head_spec()
        + get_arms_spec(ls) + set_head_spec(primary) + set_arms_spec(ls) + runtime_tail_spec()
}

pub open spec fn strs_v(v: Seq<&String>) -> Seq<Seq<char>> {
    v.map_values(|s: &String| s@)
}

fn push_runtime_head(out: &mut String)
    ensures
        final(out)@ == old(out)@ + runtime_head_spec(),
{
    let ghost o = out@;
    push_str(out, "use std::sync::atomic::{AtomicU8, Ordering};\n");
    push_str(out, "\n");
    push_str(out, "use ftl_core::unic_langid::LanguageIdentifier;\n");
    push_str(out, "use std::str::FromStr;\n");
    push_str(out, "\n");
    push_str(out, "static LOCALE_ID: AtomicU8 = AtomicU8::new(0);\n");
    push_str(out, "\n");
    push_str(out, "#[doc(hidden)]\n");
    push_str(out, "#[inline]\n");
    push_str(out, "pub fn __ftl_locale_id() -> u8 {\n");
    push_str(out, "    LOCALE_ID.load(Ordering::Acquire)\n");
    push_str(out, "}\n");
    push_str(out, "\n");
    push_str(out, "pub enum Lang {\n");
    assert(out@ =~= o + runtime_head_spec());
}

fn push_from_head(out: &mut String)
    ensures
        final(out)@ == old(out)@ + from_head_spec(),
{
    let ghost o = out@;
    push_str(out, "}\n");
    push_str(out, "\n");
    push_str(out, "impl From<Lang> for LanguageIdentifier {\n");
    push_str(out, "    fn from(l: Lang) -> Self {\n");
    push_str(out, "        match l {\n");
    assert(out@ =~= o + from_head_spec());
}

fn push_get_head(out: &mut String)
    ensures
        final(out)@ == old(out)@ + get_head_spec(),
{
    let ghost o = out@;
    push_str(out, "        }\n");
    push_str(out, "    }\n");
    push_str(out, "}\n");
    push_str(out, "\n");
    push_str(out, "pub fn get_locale() -> Lang {\n");
    push_str(out, "    match LOCALE_ID.load(Ordering::Acquire) {\n");
    assert(out@ =~= o + get_head_spec());
}

fn push_set_head(out: &mut String, primary: &str)
    ensures
        final(out)@ == old(out)@ + set_head_spec(primary@),
{
    let ghost o = out@;
    push_str(out, "        _ => Lang::");
    let u = sanitize_upper(primary);
    push_str(out, u.as_str());
    push_str(out, ",\n");
    push_str(out, "    }\n");
    push_str(out, "}\n");
    push_str(out, "\n");
    push_str(out, "pub fn set_lang(lang: Lang) {\n");
    push_str(out, "    let id = match lang {\n");
    assert(out@ =~= o + set_head_spec(primary@));
}

fn push_runtime_tail(out: &mut String)
    ensures
        final(out)@ == old(out)@ + runtime_tail_spec(),
{
    let ghost o = out@;
    push_str(out, "    };\n");
    push_str(out, "    LOCALE_ID.store(id, Ordering::Release);\n");
    push_str(out, "    let lid: LanguageIdentifier = lang.into();\n");
    push_str(out, "    ftl_core::set_locale(&lid);\n");
    push_str(out, "}\n");
    assert(out@ =~= o + runtime_tail_spec());
}

/// The four per-locale lists of the runtime.
fn push_locale_lists(out: &mut String, ls: &Vec<&String>, which: usize)
    requires
        which < 4,
    ensures
        final(out)@ == old(out)@ + (if which == 0 { variants_spec(strs_v(ls@)) } else if which == 1 {
            from_arms_spec(strs_v(ls@)) } else if which == 2 { get_arms_spec(strs_v(ls@)) } else {
            set_arms_spec(strs_v(ls@)) }),
{
    let ghost o = out@;
    let ghost lv = strs_v(ls@);
    let mut i: usize = 0;
    assert(lv.subrange(0, 0) =~= Seq::<Seq<char>>::empty());
    while i < ls.len()
        invariant
            lv == strs_v(ls@),
            which < 4,
            i <= ls@.len(),
            out@ == o + (if which == 0 { variants_spec(lv.subrange(0, i as int)) } else if which == 1 {
                from_arms_spec(lv.subrange(0, i as int)) } else if which == 2 { get_arms_spec(lv.subrange(0, i as int)) } else {
                set_arms_spec(lv.subrange(0, i as int)) }),
        decreases ls@.len() - i,
    {
        let ghost before = out@;
        let l: &String = ls[i];
        let ghost sub = lv.subrange(0, i + 1);
        assert(sub.drop_last() =~= lv.subrange(0, i as int));
        assert(sub.last() == l@);
        assert(sub.len() - 1 == i);
        let u = sanitize_upper(l.as_str());
        if which == 0 {
            push_str(out, "    ");
            push_str(out, u.as_str());
            push_str(out, ",\n");
            assert(out@ =~= o + variants_spec(sub));
        } else if which == 1 {
            push_str(out, "            Lang::");
            push_str(out, u.as_str());
            push_str(out, " => LanguageIdentifier::from_str(\"");
            push_str(out, l.as_str());
            push_str(out, "\").expect(\"valid locale\"),\n");
            assert(out@ =~= o + from_arms_spec(sub));
        } else if which == 2 {
            push_str(out, "        ");
            push_usize(out, i);
            push_str(out, " => Lang::");
            push_str(out, u.as_str());
            push_str(out, ",\n");
            assert(out@ =~= o + get_arms_spec(sub));
        } else {
            push_str(out, "        Lang::");
            push_str(out, u.as_str());
            push_str(out, " => ");
            push_usize(out, i);
            push_str(out, ",\n");
            assert(out@ =~= o + set_arms_spec(sub));
        }
        i += 1;
    }
    assert(lv.subrange(0, i as int) =~= lv);
}

/// Appends the runtime locale switch.
pub fn emit_runtime(locales: &Vec<&String>, primary: &str, out: &mut String)
    ensures
        final(out)@ == old(out)@ + runtime_spec(strs_v(locales@), primary@),
{
    let ghost o = out@;
    reveal(runtime_spec);
    push_runtime_head(out);
    push_locale_lists(out, locales, 0);
    push_from_head(out);
    push_locale_lists(out, locales, 1);
    push_get_head(out);
    push_locale_lists(out, locales, 2);
    push_set_head(out, primary);
    push_locale_lists(out, locales, 3);
    push_runtime_tail(out);
    assert(out@ =~= o + runtime_spec(strs_v(locales@), primary@));
}

} // verus!

verus! {

// ---------------------------------------------------------------------
// The `t!` macro and the whole module
// ---------------------------------------------------------------------

/// Where the generated code is reached from: `$crate`, or `$crate::path`.
pub open spec fn pfx_spec(mod_path: Seq<char>) -> Seq<char> {
    if mod_path.len() == 0 { "$crate"@ } else { "$crate::"@ + mod_path }
}

pub open spec fn macro_arms_spec(ls: Seq<Seq<char>>, pfx: Seq<char>, with_args: bool) -> Seq<char>
    decreases ls.len(),
{
    if ls.len() == 0 {
        Seq::empty()
    } else {
        macro_arms_spec(ls.drop_last(), pfx, with_args) + "            "@ + dec_str((ls.len() - 1) as nat) + " => "@ + pfx
            + "::"@ + sanitize_spec(ls.last()) + (if with_args { "::$key($($args),*),\n"@ } else { "::$key(),\n"@ })
    }
}

/// The arm of `t!(key)`.
pub open spec fn macro_first_spec(ls: Seq<Seq<char>>, pfx: Seq<char>, primary: Seq<char>) -> Seq<char> {
    "#[macro_export]\n"@ + "macro_rules! t {\n"@ + "    ($key:ident) => {\n"@ + "        match "@ + pfx
        + "::__ftl_locale_id() {\n"@ + macro_arms_spec(ls, pfx, false) + "            _ => "@ + pfx + "::"@
        + sanitize_spec(primary) + "::$key(),\n"@ + "        }\n"@ + "    };\n"@
}

/// The arm of `t!(key(args))`.
pub open spec fn macro_second_spec(ls: Seq<Seq<char>>, pfx: Seq<char>, primary: Seq<char>) -> Seq<char> {
    "    ($key:ident($($args:expr),* $(,)?)) => {\n"@ + "        match "@ + pfx + "::__ftl_locale_id() {\n"@
        + macro_arms_spec(ls, pfx, true) + "            _ => "@ + pfx + "::"@ + sanitize_spec(primary)
        + "::$key($($args),*),\n"@ + "        }\n"@ + "    };\n"@ + "}\n"@
}

/// `t!(key)` and `t!(key(args))`: the function `key` of the current
/// locale's module, the primary locale's for an unknown id.
#[verifier::opaque]
pub open spec fn macro_spec(ls: Seq<Seq<char>>, pfx: Seq<char>, primary: Seq<char>) -> Seq<char> {
    macro_first_spec(ls, pfx, primary) + macro_second_spec(ls, pfx, primary)
}

#[verifier::opaque]
pub open spec fn header_spec(primary: Seq<char>) -> Seq<char> {
    "// Auto-generated by ftl-codegen\n"@ + "// Primary language: "@ + primary + "\n"@
        + "#[allow(non_upper_case_globals, unused, dead_code)]\n"@ + "\n"@ + "use ftl_core::FluentNum;\n"@ + "\n"@
}

/// The modules of all locales, in locale order.
pub open spec fn modules_spec(locs: Seq<(Seq<char>, EntriesV)>, pe: EntriesV, primary: Seq<char>,
    b: Seq<(String, BuiltInFuncDef)>) -> Result<Seq<char>, Seq<char>>
    decreases locs.len(),
{
    if locs.len() == 0 {
        Ok(Seq::empty())
    } else {
        match modules_spec(locs.drop_last(), pe, primary, b) {
            Err(m) => Err(m),
            Ok(a) => match module_spec(locs.last().0, locs.last().1, pe, primary, b) {
                Err(m) => Err(m),
                Ok(c) => Ok(a + c),
            },
        }
    }
}

/// The generated module: a header, the built-in types, the module of each
/// locale, the runtime locale switch and the `t!` macro.
pub open spec fn generate_spec(locs: Seq<(Seq<char>, EntriesV)>, pe: EntriesV, primary: Seq<char>, mod_path: Seq<char>,
    b: Seq<(String, BuiltInFuncDef)>) -> Result<Seq<char>, Seq<char>>
{
    let ls = locs.map_values(|p: (Seq<char>, EntriesV)| p.0);
    match modules_spec(locs, pe, primary, b) {
        Err(m) => Err(m),
        Ok(ms) => Ok(header_spec(primary) + builtin_types_spec(defs_model(b)) + ms + runtime_spec(ls, primary)
            + macro_spec(ls, pfx_spec(mod_path), primary)),
    }
}

fn push_macro_arms(out: &mut String, ls: &Vec<&String>, pfx: &str, with_args: bool)
    ensures
        final(out)@ == old(out)@ + macro_arms_spec(strs_v(ls@), pfx@, with_args),
{
    let ghost o = out@;
    let ghost lv = strs_v(ls@);
    let mut i: usize = 0;
    assert(lv.subrange(0, 0) =~= Seq::<Seq<char>>::empty());
    while i < ls.len()
        invariant
            lv == strs_v(ls@),
            i <= ls@.len(),
            out@ == o + macro_arms_spec(lv.subrange(0, i as int), pfx@, with_args),
        decreases ls@.len() - i,
    {
        let l: &String = ls[i];
        let ghost sub = lv.subrange(0, i + 1);
        assert(sub.drop_last() =~= lv.subrange(0, i as int));
        assert(sub.last() == l@);
        push_str(out, "            ");
        push_usize(out, i);
        push_str(out, " => ");
        push_str(out, pfx);
        push_str(out, "::");
        let mn = sanitize(l.as_str());
        push_str(out, mn.as_str());
        if with_args {
            push_str(out, "::$key($($args),*),\n");
        } else {
            push_str(out, "::$key(),\n");
        }
        assert(out@ =~= o + macro_arms_spec(sub, pfx@, with_args));
        i += 1;
    }
    assert(lv.subrange(0, i as int) =~= lv);
}

fn push_macro_first(ls: &Vec<&String>, pfx: &str, primary: &str, out: &mut String)
    ensures
        final(out)@ == old(out)@ + macro_first_spec(strs_v(ls@), pfx@, primary@),
{
    let ghost o = out@;
    let pm = sanitize(primary);
    push_str(out, "#[macro_export]\n");
    push_str(out, "macro_rules! t {\n");
    push_str(out, "    ($key:ident) => {\n");
    push_str(out, "        match ");
    push_str(out, pfx);
    push_str(out, "::__ftl_locale_id() {\n");
    push_macro_arms(out, ls, pfx, false);
    push_str(out, "            _ => ");
    push_str(out, pfx);
    push_str(out, "::");
    push_str(out, pm.as_str());
    push_str(out, "::$key(),\n");
    push_str(out, "        }\n");
    push_str(out, "    };\n");
    assert(out@ =~= o + macro_first_spec(strs_v(ls@), pfx@, primary@));
}

fn push_macro_second(ls: &Vec<&String>, pfx: &str, primary: &str, out: &mut String)
    ensures
        final(out)@ == old(out)@ + macro_second_spec(strs_v(ls@), pfx@, primary@),
{
    let ghost o = out@;
    let pm = sanitize(primary);
    push_str(out, "    ($key:ident($($args:expr),* $(,)?)) => {\n");
    push_str(out, "        match ");
    push_str(out, pfx);
    push_str(out, "::__ftl_locale_id() {\n");
    push_macro_arms(out, ls, pfx, true);
    push_str(out, "            _ => ");
    push_str(out, pfx);
    push_str(out, "::");
    push_str(out, pm.as_str());
    push_str(out, "::$key($($args),*),\n");
    push_str(out, "        }\n");
    push_str(out, "    };\n");
    push_str(out, "}\n");
    assert(out@ =~= o + macro_second_spec(strs_v(ls@), pfx@, primary@));
}

/// Appends the `t!` macro.
pub fn emit_macro(ls: &Vec<&String>, pfx: &str, primary: &str, out: &mut String)
    ensures
        final(out)@ == old(out)@ + macro_spec(strs_v(ls@), pfx@, primary@),
{
    let ghost o = out@;
    reveal(macro_spec);
    push_macro_first(ls, pfx, primary, out);
    push_macro_second(ls, pfx, primary, out);
    assert(out@ =~= o + macro_spec(strs_v(ls@), pfx@, primary@));
}

proof fn lemma_modules_err(locs: Seq<(Seq<char>, EntriesV)>, pe: EntriesV, primary: Seq<char>,
    b: Seq<(String, BuiltInFuncDef)>, n: int, m: Seq<char>)
    requires
        0 <= n <= locs.len(),
        modules_spec(locs.subrange(0, n), pe, primary, b) == Err::<Seq<char>, Seq<char>>(m),
    ensures
        modules_spec(locs, pe, primary, b) == Err::<Seq<char>, Seq<char>>(m),
    decreases locs.len() - n,
{
    if n == locs.len() {
        assert(locs.subrange(0, n) =~= locs);
    } else {
        assert(locs.subrange(0, n + 1).drop_last() =~= locs.subrange(0, n));
        lemma_modules_err(locs, pe, primary, b, n + 1, m);
    }
}

fn push_modules(out: &mut String, g: &Generator, pe: &LocaleEntries) -> (res: Result<(), String>)
    ensures
        match res {
            Ok(()) => match modules_spec(locales_model(g.locales@), entries_v(*pe), g.primary@, g.builtins@) {
                Ok(c) => final(out)@ == old(out)@ + c,
                Err(_) => false,
            },
            Err(m) => modules_spec(locales_model(g.locales@), entries_v(*pe), g.primary@, g.builtins@)
                == Err::<Seq<char>, Seq<char>>(m@),
        },
{
    let ghost o = out@;
    let ghost lm = locales_model(g.locales@);
    let mut i: usize = 0;
    assert(lm.subrange(0, 0) =~= Seq::<(Seq<char>, EntriesV)>::empty());
    while i < g.locales.len()
        invariant
            lm == locales_model(g.locales@),
            o == old(out)@,
            i <= g.locales@.len(),
            match modules_spec(lm.subrange(0, i as int), entries_v(*pe), g.primary@, g.builtins@) {
                Ok(c) => out@ == o + c,
                Err(_) => false,
            },
        decreases g.locales@.len() - i,
    {
        assert(lm.subrange(0, i + 1).drop_last() =~= lm.subrange(0, i as int));
        assert(lm[i as int] == (g.locales@[i as int].0@, entries_v(g.locales@[i as int].1)));
        let ghost before = out@;
        match emit_module(g.locales[i].0.as_str(), &g.locales[i].1, pe, g.primary.as_str(), &g.builtins, out) {
            Ok(()) => {
                proof {
                    let a = modules_spec(lm.subrange(0, i as int), entries_v(*pe), g.primary@, g.builtins@)->Ok_0;
                    let c = module_spec(lm[i as int].0, lm[i as int].1, entries_v(*pe), g.primary@, g.builtins@)->Ok_0;
                    assert(out@ =~= o + (a + c));
                }
            },
            Err(m) => {
                proof {
                    lemma_modules_err(lm, entries_v(*pe), g.primary@, g.builtins@, i as int + 1, m@);
                }
                return Err(m);
            },
        }
        i += 1;
    }
    assert(lm.subrange(0, i as int) =~= lm);
    Ok(())
}

impl Generator {
    /// The Rust source of the i18n module.
    pub fn generate(&self) -> (res: Result<String, String>)
        requires
            gk_lookup(locales_model(self.locales@), self.primary@) is Some,
            keys_sorted(self.locales@),
            keys_sorted(self.builtins@),
        ensures
            str_result(res) == generate_spec(locales_model(self.locales@),
                gk_lookup(locales_model(self.locales@), self.primary@)->0, self.primary@, self.mod_path@, self.builtins@),
    {
        proof {
            lemma_kv_lookup(self.locales@, |e: LocaleEntries| entries_v(e), self.primary@);
        }
        let pe = match keyed_get(&self.locales, self.primary.as_str()) {
            Some(pe) => pe,
            None => {
                proof {
                    assert(false);
                }
                return Err(String::new());
            },
        };
        let mut ls: Vec<&String> = Vec::new();
        let mut i: usize = 0;
        while i < self.locales.len()
            invariant
                i <= self.locales@.len(),
                ls@.len() == i,
                forall|j: int| 0 <= j < i ==> (#[trigger] ls@[j])@ == self.locales@[j].0@,
            decreases self.locales@.len() - i,
        {
            ls.push(&self.locales[i].0);
            i += 1;
        }
        assert(strs_v(ls@) =~= locales_model(self.locales@).map_values(|p: (Seq<char>, EntriesV)| p.0));
        let pfx = if self.mod_path.as_str().is_empty() {
            string_of("$crate")
        } else {
            let mut p = string_of("$crate::");
            push_str(&mut p, self.mod_path.as_str());
            p
        };
        assert(pfx@ =~= pfx_spec(self.mod_path@));
        let mut out = String::new();
        push_str(&mut out, "// Auto-generated by ftl-codegen\n");
        push_str(&mut out, "// Primary language: ");
        push_str(&mut out, self.primary.as_str());
        push_str(&mut out, "\n");
        push_str(&mut out, "#[allow(non_upper_case_globals, unused, dead_code)]\n");
        push_str(&mut out, "\n");
        push_str(&mut out, "use ftl_core::FluentNum;\n");
        push_str(&mut out, "\n");
        assert(out@ =~= header_spec(self.primary@)) by {
            reveal(header_spec);
        }
        emit_builtin_types(&self.builtins, &mut out);
        let ghost h = out@;
        match push_modules(&mut out, self, pe) {
            Ok(()) => {},
            Err(m) => return Err(m),
        }
        let ghost h2 = out@;
        emit_runtime(&ls, self.primary.as_str(), &mut out);
        emit_macro(&ls, pfx.as_str(), self.primary.as_str(), &mut out);
        proof {
            let ms = modules_spec(locales_model(self.locales@), entries_v(*pe), self.primary@, self.builtins@)->Ok_0;
            let lv = locales_model(self.locales@).map_values(|p: (Seq<char>, EntriesV)| p.0);
            assert(out@ =~= header_spec(self.primary@) + builtin_types_spec(defs_model(self.builtins@)) + ms
                + runtime_spec(lv, self.primary@) + macro_spec(lv, pfx_spec(self.mod_path@), self.primary@));
        }
        Ok(out)
    }
}

// ---------------------------------------------------------------------
// Where a locale's text comes from in the generated module
// ---------------------------------------------------------------------

/// `x` occurs in `y` as a contiguous run.
#[verifier::opaque]
pub open spec fn occurs_in(x: Seq<char>, y: Seq<char>) -> bool {
    exists|j: int| 0 <= j && j + x.len() <= y.len() && #[trigger] y.subrange(j, j + x.len()) == x
}

proof fn lemma_occurs_in_concat(x: Seq<char>, u: Seq<char>, y: Seq<char>, v: Seq<char>)
    requires
        occurs_in(x, y),
    ensures
        occurs_in(x, u + y + v),
{
    reveal(occurs_in);
    let j = choose|j: int| 0 <= j && j + x.len() <= y.len() && #[trigger] y.subrange(j, j + x.len()) == x;
    let z = u + y + v;
    assert(z.subrange(u.len() + j, u.len() + j + x.len()) =~= x);
}

proof fn lemma_occurs_in_self(x: Seq<char>)
    ensures
        occurs_in(x, x),
{
    reveal(occurs_in);
    let j: int = 0;
    assert(x.subrange(j, j + x.len()) =~= x);
}

proof fn lemma_occurs_in_trans(x: Seq<char>, y: Seq<char>, z: Seq<char>)
    requires
        occurs_in(x, y),
        occurs_in(y, z),
    ensures
        occurs_in(x, z),
{
    reveal(occurs_in);
    let j = choose|j: int| 0 <= j && j + x.len() <= y.len() && #[trigger] y.subrange(j, j + x.len()) == x;
    let k = choose|k: int| 0 <= k && k + y.len() <= z.len() && #[trigger] z.subrange(k, k + y.len()) == y;
    assert(z.subrange(k + j, k + j + x.len()) =~= x);
}

/// Each message function of a locale's module occurs in its run of
/// message functions.
proof fn lemma_msgs_hold_each(pm: Seq<(Seq<char>, NamedV)>, lm: Seq<(Seq<char>, NamedV)>, locale: Seq<char>,
    primary: Seq<char>, b: Seq<(String, BuiltInFuncDef)>, k: int)
    requires
        msgs_spec(pm, lm, locale, primary, b) is Ok,
        0 <= k < pm.len(),
    ensures
        msg_fn_spec(pm[k].0, pm[k].1, lm, locale, primary, b) matches Ok(c)
            && occurs_in(c, msgs_spec(pm, lm, locale, primary, b)->Ok_0),
    decreases pm.len(),
{
    let a = msgs_spec(pm.drop_last(), lm, locale, primary, b)->Ok_0;
    let c = msg_fn_spec(pm.last().0, pm.last().1, lm, locale, primary, b)->Ok_0;
    if k == pm.len() - 1 {
        lemma_occurs_in_self(c);
        lemma_occurs_in_concat(c, a, c, Seq::empty());
        assert(a + c + Seq::<char>::empty() =~= a + c);
    } else {
        lemma_msgs_hold_each(pm.drop_last(), lm, locale, primary, b, k);
        assert(pm.drop_last()[k] == pm[k]);
        let ck = msg_fn_spec(pm[k].0, pm[k].1, lm, locale, primary, b)->Ok_0;
        lemma_occurs_in_concat(ck, Seq::empty(), a, c);
        assert(Seq::<char>::empty() + a + c =~= a + c);
    }
}

/// Each locale's module occurs in the run of modules.
proof fn lemma_modules_hold_each(locs: Seq<(Seq<char>, EntriesV)>, pe: EntriesV, primary: Seq<char>,
    b: Seq<(String, BuiltInFuncDef)>, i: int)
    requires
        modules_spec(locs, pe, primary, b) is Ok,
        0 <= i < locs.len(),
    ensures
        module_spec(locs[i].0, locs[i].1, pe, primary, b) matches Ok(c)
            && occurs_in(c, modules_spec(locs, pe, primary, b)->Ok_0),
    decreases locs.len(),
{
    let a = modules_spec(locs.drop_last(), pe, primary, b)->Ok_0;
    let c = module_spec(locs.last().0, locs.last().1, pe, primary, b)->Ok_0;
    if i == locs.len() - 1 {
        lemma_occurs_in_self(c);
        lemma_occurs_in_concat(c, a, c, Seq::empty());
        assert(a + c + Seq::<char>::empty() =~= a + c);
    } else {
        lemma_modules_hold_each(locs.drop_last(), pe, primary, b, i);
        assert(locs.drop_last()[i] == locs[i]);
        let ci = module_spec(locs[i].0, locs[i].1, pe, primary, b)->Ok_0;
        lemma_occurs_in_concat(ci, Seq::empty(), a, c);
        assert(Seq::<char>::empty() + a + c =~= a + c);
    }
}

/// A locale's module holds its run of message functions.
proof fn lemma_module_holds_msgs(locale: Seq<char>, le: EntriesV, pe: EntriesV, primary: Seq<char>,
    b: Seq<(String, BuiltInFuncDef)>)
    requires
        module_spec(locale, le, pe, primary, b) is Ok,
    ensures
        msgs_spec(pe.messages, le.messages, locale, primary, b) matches Ok(fs)
            && occurs_in(fs, module_spec(locale, le, pe, primary, b)->Ok_0),
{
    reveal(module_spec);
    let fs = msgs_spec(pe.messages, le.messages, locale, primary, b)->Ok_0;
    let at = attrs_spec(pe.attributes, le.attributes, locale, primary, b)->Ok_0;
    let h = module_header_spec(locale, defs_model(b));
    assert(module_spec(locale, le, pe, primary, b)->Ok_0 == h + fs + at + "}\n"@ + "\n"@);
    lemma_occurs_in_self(fs);
    lemma_occurs_in_right(fs, h, fs);
    lemma_occurs_in_left(fs, h + fs, at);
    lemma_occurs_in_left(fs, h + fs + at, "}\n"@);
    lemma_occurs_in_left(fs, h + fs + at + "}\n"@, "\n"@);
}

/// The generated module holds the run of locale modules.
proof fn lemma_generate_holds_modules(locs: Seq<(Seq<char>, EntriesV)>, pe: EntriesV, primary: Seq<char>,
    mod_path: Seq<char>, b: Seq<(String, BuiltInFuncDef)>)
    requires
        generate_spec(locs, pe, primary, mod_path, b) is Ok,
    ensures
        modules_spec(locs, pe, primary, b) matches Ok(ms) && occurs_in(ms, generate_spec(locs, pe, primary, mod_path, b)->Ok_0),
{
    let ms = modules_spec(locs, pe, primary, b)->Ok_0;
    let ls = locs.map_values(|q: (Seq<char>, EntriesV)| q.0);
    let pre = header_spec(primary) + builtin_types_spec(defs_model(b));
    let post = runtime_spec(ls, primary) + macro_spec(ls, pfx_spec(mod_path), primary);
    lemma_occurs_in_self(ms);
    lemma_occurs_in_concat(ms, pre, ms, post);
    assert(pre + ms + post =~= generate_spec(locs, pe, primary, mod_path, b)->Ok_0);
}

/// In the generated module, a locale that lacks a message of the primary
/// locale holds the primary locale's own function for it, followed by a
/// warning comment naming the message and the locale.
pub proof fn lemma_generate_fills_missing_message(locs: Seq<(Seq<char>, EntriesV)>, pe: EntriesV, primary: Seq<char>,
    mod_path: Seq<char>, b: Seq<(String, BuiltInFuncDef)>, i: int, key: Seq<char>, p: NamedV)
    requires
        generate_spec(locs, pe, primary, mod_path, b) is Ok,
        0 <= i < locs.len(),
        gk_lookup(locs[i].1.messages, key) is None,
        gk_lookup(pe.messages, key) == Some(p),
    ensures
        msg_fn_spec(key, p, pe.messages, primary, primary, b) matches Ok(c)
            && occurs_in(c + "// WARNING: '"@ + p.name + "' missing, using '"@ + locs[i].0 + "' fallback\n"@,
                generate_spec(locs, pe, primary, mod_path, b)->Ok_0),
{
    let locale = locs[i].0;
    let le = locs[i].1;
    let out = generate_spec(locs, pe, primary, mod_path, b)->Ok_0;
    lemma_generate_holds_modules(locs, pe, primary, mod_path, b);
    let ms = modules_spec(locs, pe, primary, b)->Ok_0;
    lemma_modules_hold_each(locs, pe, primary, b, i);
    let md = module_spec(locale, le, pe, primary, b)->Ok_0;
    lemma_module_holds_msgs(locale, le, pe, primary, b);
    let fs = msgs_spec(pe.messages, le.messages, locale, primary, b)->Ok_0;
    crate::keyed::lemma_gk_index_first(pe.messages, key);
    let k = crate::keyed::gk_index(pe.messages, key)->0;
    assert(pe.messages[k] == (key, p));
    lemma_msgs_hold_each(pe.messages, le.messages, locale, primary, b, k);
    lemma_missing_message_uses_primary(key, p, le.messages, pe.messages, locale, primary, b);
    let f = msg_fn_spec(key, p, le.messages, locale, primary, b)->Ok_0;
    lemma_occurs_in_trans(f, fs, md);
    lemma_occurs_in_trans(f, md, ms);
    lemma_occurs_in_trans(f, ms, out);
}

/// Each attribute function of a locale's module occurs in its run of
/// attribute functions.
proof fn lemma_attrs_hold_each(pa: Seq<(Seq<char>, AttrV)>, la: Seq<(Seq<char>, AttrV)>, locale: Seq<char>,
    primary: Seq<char>, b: Seq<(String, BuiltInFuncDef)>, k: int)
    requires
        attrs_spec(pa, la, locale, primary, b) is Ok,
        0 <= k < pa.len(),
    ensures
        attr_fn_spec(pa[k].0, pa[k].1, la, locale, primary, b) matches Ok(c)
            && occurs_in(c, attrs_spec(pa, la, locale, primary, b)->Ok_0),
    decreases pa.len(),
{
    let a = attrs_spec(pa.drop_last(), la, locale, primary, b)->Ok_0;
    let c = attr_fn_spec(pa.last().0, pa.last().1, la, locale, primary, b)->Ok_0;
    if k == pa.len() - 1 {
        lemma_occurs_in_self(c);
        lemma_occurs_in_concat(c, a, c, Seq::empty());
        assert(a + c + Seq::<char>::empty() =~= a + c);
    } else {
        lemma_attrs_hold_each(pa.drop_last(), la, locale, primary, b, k);
        assert(pa.drop_last()[k] == pa[k]);
        let ck = attr_fn_spec(pa[k].0, pa[k].1, la, locale, primary, b)->Ok_0;
        lemma_occurs_in_concat(ck, Seq::empty(), a, c);
        assert(Seq::<char>::empty() + a + c =~= a + c);
    }
}

/// A locale's module holds its run of attribute functions.
proof fn lemma_module_holds_attrs(locale: Seq<char>, le: EntriesV, pe: EntriesV, primary: Seq<char>,
    b: Seq<(String, BuiltInFuncDef)>)
    requires
        module_spec(locale, le, pe, primary, b) is Ok,
    ensures
        attrs_spec(pe.attributes, le.attributes, locale, primary, b) matches Ok(at)
            && occurs_in(at, module_spec(locale, le, pe, primary, b)->Ok_0),
{
    reveal(module_spec);
    let fs = msgs_spec(pe.messages, le.messages, locale, primary, b)->Ok_0;
    let at = attrs_spec(pe.attributes, le.attributes, locale, primary, b)->Ok_0;
    let h = module_header_spec(locale, defs_model(b));
    assert(module_spec(locale, le, pe, primary, b)->Ok_0 == h + fs + at + "}\n"@ + "\n"@);
    lemma_occurs_in_self(at);
    lemma_occurs_in_right(at, h + fs, at);
    lemma_occurs_in_left(at, h + fs + at, "}\n"@);
    lemma_occurs_in_left(at, h + fs + at + "}\n"@, "\n"@);
}

/// The same holds of an attribute of the primary locale that a locale
/// lacks: its module holds the primary locale's function for it, followed
/// by a warning comment.
pub proof fn lemma_generate_fills_missing_attribute(locs: Seq<(Seq<char>, EntriesV)>, pe: EntriesV, primary: Seq<char>,
    mod_path: Seq<char>, b: Seq<(String, BuiltInFuncDef)>, i: int, key: Seq<char>, p: AttrV)
    requires
        generate_spec(locs, pe, primary, mod_path, b) is Ok,
        0 <= i < locs.len(),
        gk_lookup(locs[i].1.attributes, key) is None,
        gk_lookup(pe.attributes, key) == Some(p),
    ensures
        attr_fn_spec(key, p, pe.attributes, primary, primary, b) matches Ok(c)
            && occurs_in(c + "// WARNING: attribute '"@ + p.owner + "."@ + p.name + "' missing, using '"@ + locs[i].0
                + "' fallback\n"@, generate_spec(locs, pe, primary, mod_path, b)->Ok_0),
{
    let locale = locs[i].0;
    let le = locs[i].1;
    let out = generate_spec(locs, pe, primary, mod_path, b)->Ok_0;
    lemma_generate_holds_modules(locs, pe, primary, mod_path, b);
    let ms = modules_spec(locs, pe, primary, b)->Ok_0;
    lemma_modules_hold_each(locs, pe, primary, b, i);
    let md = module_spec(locale, le, pe, primary, b)->Ok_0;
    lemma_module_holds_attrs(locale, le, pe, primary, b);
    let at = attrs_spec(pe.attributes, le.attributes, locale, primary, b)->Ok_0;
    crate::keyed::lemma_gk_index_first(pe.attributes, key);
    let k = crate::keyed::gk_index(pe.attributes, key)->0;
    assert(pe.attributes[k] == (key, p));
    lemma_attrs_hold_each(pe.attributes, le.attributes, locale, primary, b, k);
    lemma_missing_attribute_uses_primary(key, p, le.attributes, pe.attributes, locale, primary, b);
    let f = attr_fn_spec(key, p, le.attributes, locale, primary, b)->Ok_0;
    lemma_occurs_in_trans(f, at, md);
    lemma_occurs_in_trans(f, md, ms);
    lemma_occurs_in_trans(f, ms, out);
}


proof fn lemma_occurs_in_left(x: Seq<char>, a: Seq<char>, b: Seq<char>)
    requires
        occurs_in(x, a),
    ensures
        occurs_in(x, a + b),
{
    lemma_occurs_in_concat(x, Seq::empty(), a, b);
    assert(Seq::<char>::empty() + a + b =~= a + b);
}

proof fn lemma_occurs_in_right(x: Seq<char>, a: Seq<char>, b: Seq<char>)
    requires
        occurs_in(x, b),
    ensures
        occurs_in(x, a + b),
{
    lemma_occurs_in_concat(x, a, b, Seq::empty());
    assert(a + b + Seq::<char>::empty() =~= a + b);
}

pub open spec fn variant_line(l: Seq<char>) -> Seq<char> {
    "    "@ + upper_spec(l) + ",\n"@
}

pub open spec fn get_arm(i: nat, l: Seq<char>) -> Seq<char> {
    "        "@ + dec_str(i) + " => Lang::"@ + upper_spec(l) + ",\n"@
}

pub open spec fn set_arm(i: nat, l: Seq<char>) -> Seq<char> {
    "        Lang::"@ + upper_spec(l) + " => "@ + dec_str(i) + ",\n"@
}

pub open spec fn macro_arm(i: nat, l: Seq<char>, pfx: Seq<char>) -> Seq<char> {
    "            "@ + dec_str(i) + " => "@ + pfx + "::"@ + sanitize_spec(l) + "::$key(),\n"@
}

proof fn lemma_variants_hold(ls: Seq<Seq<char>>, i: int)
    requires
        0 <= i < ls.len(),
    ensures
        occurs_in(variant_line(ls[i]), variants_spec(ls)),
    decreases ls.len(),
{
    let a = variants_spec(ls.drop_last());
    if i == ls.len() - 1 {
        lemma_occurs_in_self(variant_line(ls[i]));
        lemma_occurs_in_right(variant_line(ls[i]), a, variant_line(ls[i]));
        assert(a + variant_line(ls[i]) =~= variants_spec(ls));
    } else {
        lemma_variants_hold(ls.drop_last(), i);
        assert(ls.drop_last()[i] == ls[i]);
        lemma_occurs_in_left(variant_line(ls[i]), a, variant_line(ls.last()));
        assert(a + variant_line(ls.last()) =~= variants_spec(ls));
    }
}

proof fn lemma_get_arms_hold(ls: Seq<Seq<char>>, i: int)
    requires
        0 <= i < ls.len(),
    ensures
        occurs_in(get_arm(i as nat, ls[i]), get_arms_spec(ls)),
    decreases ls.len(),
{
    let a = get_arms_spec(ls.drop_last());
    let last = get_arm((ls.len() - 1) as nat, ls.last());
    assert(a + last =~= get_arms_spec(ls));
    if i == ls.len() - 1 {
        lemma_occurs_in_self(last);
        lemma_occurs_in_right(last, a, last);
    } else {
        lemma_get_arms_hold(ls.drop_last(), i);
        assert(ls.drop_last()[i] == ls[i]);
        lemma_occurs_in_left(get_arm(i as nat, ls[i]), a, last);
    }
}

proof fn lemma_set_arms_hold(ls: Seq<Seq<char>>, i: int)
    requires
        0 <= i < ls.len(),
    ensures
        occurs_in(set_arm(i as nat, ls[i]), set_arms_spec(ls)),
    decreases ls.len(),
{
    let a = set_arms_spec(ls.drop_last());
    let last = set_arm((ls.len() - 1) as nat, ls.last());
    assert(a + last =~= set_arms_spec(ls));
    if i == ls.len() - 1 {
        lemma_occurs_in_self(last);
        lemma_occurs_in_right(last, a, last);
    } else {
        lemma_set_arms_hold(ls.drop_last(), i);
        assert(ls.drop_last()[i] == ls[i]);
        lemma_occurs_in_left(set_arm(i as nat, ls[i]), a, last);
    }
}

proof fn lemma_macro_arms_hold(ls: Seq<Seq<char>>, pfx: Seq<char>, i: int)
    requires
        0 <= i < ls.len(),
    ensures
        occurs_in(macro_arm(i as nat, ls[i], pfx), macro_arms_spec(ls, pfx, false)),
    decreases ls.len(),
{
    let a = macro_arms_spec(ls.drop_last(), pfx, false);
    let last = macro_arm((ls.len() - 1) as nat, ls.last(), pfx);
    assert(a + last =~= macro_arms_spec(ls, pfx, false));
    if i == ls.len() - 1 {
        lemma_occurs_in_self(last);
        lemma_occurs_in_right(last, a, last);
    } else {
        lemma_macro_arms_hold(ls.drop_last(), pfx, i);
        assert(ls.drop_last()[i] == ls[i]);
        lemma_occurs_in_left(macro_arm(i as nat, ls[i], pfx), a, last);
    }
}

/// The locale switch holds, for each locale, its `Lang` variant and its
/// number in both directions.
proof fn lemma_runtime_holds(ls: Seq<Seq<char>>, primary: Seq<char>, i: int)
    requires
        0 <= i < ls.len(),
    ensures
        occurs_in(variant_line(ls[i]), runtime_spec(ls, primary)),
        occurs_in(get_arm(i as nat, ls[i]), runtime_spec(ls, primary)),
        occurs_in(set_arm(i as nat, ls[i]), runtime_spec(ls, primary)),
{
    reveal(runtime_spec);
    let h = runtime_head_spec();
    let v = variants_spec(ls);
    let fh = from_head_spec();
    let fa = from_arms_spec(ls);
    let gh = get_head_spec();
    let ga = get_arms_spec(ls);
    let sh = set_head_spec(primary);
    let sa = set_arms_spec(ls);
    let t = runtime_tail_spec();
    let x = variant_line(ls[i]);
    lemma_variants_hold(ls, i);
    lemma_occurs_in_right(x, h, v);
    lemma_occurs_in_left(x, h + v, fh);
    lemma_occurs_in_left(x, h + v + fh, fa);
    lemma_occurs_in_left(x, h + v + fh + fa, gh);
    lemma_occurs_in_left(x, h + v + fh + fa + gh, ga);
    lemma_occurs_in_left(x, h + v + fh + fa + gh + ga, sh);
    lemma_occurs_in_left(x, h + v + fh + fa + gh + ga + sh, sa);
    lemma_occurs_in_left(x, h + v + fh + fa + gh + ga + sh + sa, t);
    let y = get_arm(i as nat, ls[i]);
    lemma_get_arms_hold(ls, i);
    lemma_occurs_in_right(y, h + v + fh + fa + gh, ga);
    lemma_occurs_in_left(y, h + v + fh + fa + gh + ga, sh);
    lemma_occurs_in_left(y, h + v + fh + fa + gh + ga + sh, sa);
    lemma_occurs_in_left(y, h + v + fh + fa + gh + ga + sh + sa, t);
    let z = set_arm(i as nat, ls[i]);
    lemma_set_arms_hold(ls, i);
    lemma_occurs_in_right(z, h + v + fh + fa + gh + ga + sh, sa);
    lemma_occurs_in_left(z, h + v + fh + fa + gh + ga + sh + sa, t);
}

/// The `t!` macro holds, for each locale, the arm that calls into its
/// module under its number.
proof fn lemma_macro_holds(ls: Seq<Seq<char>>, pfx: Seq<char>, primary: Seq<char>, i: int)
    requires
        0 <= i < ls.len(),
    ensures
        occurs_in(macro_arm(i as nat, ls[i], pfx), macro_spec(ls, pfx, primary)),
{
    reveal(macro_spec);
    let x = macro_arm(i as nat, ls[i], pfx);
    let arms = macro_arms_spec(ls, pfx, false);
    let p1 = "#[macro_export]\n"@ + "macro_rules! t {\n"@ + "    ($key:ident) => {\n"@ + "        match "@ + pfx
        + "::__ftl_locale_id() {\n"@;
    let s1 = "            _ => "@ + pfx + "::"@ + sanitize_spec(primary) + "::$key(),\n"@ + "        }\n"@ + "    };\n"@;
    lemma_macro_arms_hold(ls, pfx, i);
    lemma_occurs_in_concat(x, p1, arms, s1);
    assert(p1 + arms + s1 =~= macro_first_spec(ls, pfx, primary));
    lemma_occurs_in_left(x, macro_first_spec(ls, pfx, primary), macro_second_spec(ls, pfx, primary));
}

/// A locale's module opens with `pub mod` and the locale's module name.
proof fn lemma_module_opens(locale: Seq<char>, le: EntriesV, pe: EntriesV, primary: Seq<char>,
    b: Seq<(String, BuiltInFuncDef)>)
    requires
        module_spec(locale, le, pe, primary, b) is Ok,
    ensures
        occurs_in("pub mod "@ + sanitize_spec(locale) + " {\n"@, module_spec(locale, le, pe, primary, b)->Ok_0),
{
    reveal(module_spec);
    let x = "pub mod "@ + sanitize_spec(locale) + " {\n"@;
    let fs = msgs_spec(pe.messages, le.messages, locale, primary, b)->Ok_0;
    let at = attrs_spec(pe.attributes, le.attributes, locale, primary, b)->Ok_0;
    let a1 = "    #![allow(non_snake_case, unused_imports, dead_code, unused_variables)]\n"@;
    let a2 = "    use std::fmt::Write;\n"@;
    let a3 = "    use ftl_core::{FluentNum, FluentArg};\n"@;
    let u = uses_spec(defs_model(b));
    let h = module_header_spec(locale, defs_model(b));
    assert(h == x + a1 + a2 + a3 + u);
    assert(module_spec(locale, le, pe, primary, b)->Ok_0 == h + fs + at + "}\n"@ + "\n"@);
    lemma_occurs_in_self(x);
    lemma_occurs_in_left(x, x, a1);
    lemma_occurs_in_left(x, x + a1, a2);
    lemma_occurs_in_left(x, x + a1 + a2, a3);
    lemma_occurs_in_left(x, x + a1 + a2 + a3, u);
    lemma_occurs_in_left(x, h, fs);
    lemma_occurs_in_left(x, h + fs, at);
    lemma_occurs_in_left(x, h + fs + at, "}\n"@);
    lemma_occurs_in_left(x, h + fs + at + "}\n"@, "\n"@);
}

/// Every locale of the generated module has one number, used alike by its
/// `Lang` variant, `get_locale`, `set_lang` and the `t!` macro: locale `i`
/// of the list (the `i`-th in ascending order, as loading leaves them) has
/// the module `pub mod <locale>`, the variant, the arms `i => Lang::<L>`
/// and `Lang::<L> => i`, and the macro arm `i => <prefix>::<locale>::$key()`.
pub proof fn lemma_generate_numbers_each_locale(locs: Seq<(Seq<char>, EntriesV)>, pe: EntriesV, primary: Seq<char>,
    mod_path: Seq<char>, b: Seq<(String, BuiltInFuncDef)>, i: int)
    requires
        generate_spec(locs, pe, primary, mod_path, b) is Ok,
        0 <= i < locs.len(),
    ensures
        ({
            let out = generate_spec(locs, pe, primary, mod_path, b)->Ok_0;
            let l = locs[i].0;
            &&& occurs_in("pub mod "@ + sanitize_spec(l) + " {\n"@, out)
            &&& occurs_in(variant_line(l), out)
            &&& occurs_in(get_arm(i as nat, l), out)
            &&& occurs_in(set_arm(i as nat, l), out)
            &&& occurs_in(macro_arm(i as nat, l, pfx_spec(mod_path)), out)
        }),
{
    let out = generate_spec(locs, pe, primary, mod_path, b)->Ok_0;
    let l = locs[i].0;
    let ls = locs.map_values(|q: (Seq<char>, EntriesV)| q.0);
    assert(ls[i] == l);
    let ms = modules_spec(locs, pe, primary, b)->Ok_0;
    let pre = header_spec(primary) + builtin_types_spec(defs_model(b));
    let rt = runtime_spec(ls, primary);
    let mc = macro_spec(ls, pfx_spec(mod_path), primary);
    assert(out == pre + ms + rt + mc);
    lemma_generate_holds_modules(locs, pe, primary, mod_path, b);
    lemma_modules_hold_each(locs, pe, primary, b, i);
    lemma_module_opens(l, locs[i].1, pe, primary, b);
    let md = module_spec(l, locs[i].1, pe, primary, b)->Ok_0;
    lemma_occurs_in_trans("pub mod "@ + sanitize_spec(l) + " {\n"@, md, ms);
    lemma_occurs_in_trans("pub mod "@ + sanitize_spec(l) + " {\n"@, ms, out);
    lemma_runtime_holds(ls, primary, i);
    lemma_occurs_in_right(variant_line(l), pre + ms, rt);
    lemma_occurs_in_left(variant_line(l), pre + ms + rt, mc);
    lemma_occurs_in_right(get_arm(i as nat, l), pre + ms, rt);
    lemma_occurs_in_left(get_arm(i as nat, l), pre + ms + rt, mc);
    lemma_occurs_in_right(set_arm(i as nat, l), pre + ms, rt);
    lemma_occurs_in_left(set_arm(i as nat, l), pre + ms + rt, mc);
    lemma_macro_holds(ls, pfx_spec(mod_path), primary, i);
    lemma_occurs_in_right(macro_arm(i as nat, l, pfx_spec(mod_path)), pre + ms + rt, mc);
}

} // verus!
