//! Inference of the parameters (and their types) of a message.
use vstd::prelude::*;
use crate::ast::{params_model, Element, ElemV, KeyType, KeyV, ParamType, PT, Variant, VariantV, elem_v,
    elems_v, args_v, variants_v, variant_v, pt_v, lemma_elems_v, lemma_variants_v, lemma_args_v, copy_string};
use crate::keyed::{gk_insert, gk_lookup, kv_map, keyed_get, keyed_insert_exec, keys_sorted, lemma_keyed_insert_sorted,
    lemma_kv_insert};
use crate::text::{push_str, str_eq};

verus! {

/// How a variable is used, in order of discovery.
enum ParamUsage {
    Interpolation,
    SelectorStr,
    SelectorNum,
    Builtin(String),
}

pub enum UsageV {
    Interp,
    SelStr,
    SelNum,
    Builtin(Seq<char>),
}

spec fn usage_v(u: ParamUsage) -> UsageV {
    match u {
        ParamUsage::Interpolation => UsageV::Interp,
        ParamUsage::SelectorStr => UsageV::SelStr,
        ParamUsage::SelectorNum => UsageV::SelNum,
        ParamUsage::Builtin(s) => UsageV::Builtin(s@),
    }
}

/// The parameter type a usage implies.
pub open spec fn usage_type(u: UsageV) -> PT {
    match u {
        UsageV::Interp | UsageV::SelStr => PT::Str,
        UsageV::SelNum => PT::Num,
        UsageV::Builtin(t) => PT::Builtin(t),
    }
}

/// `{:?}` of a parameter type.
pub open spec fn pt_debug(p: PT) -> Seq<char> {
    match p {
        PT::Str => "Str"@,
        PT::Num => "Num"@,
        PT::Builtin(t) => "Builtin(\""@ + t + "\")"@,
    }
}

/// The message reported when a variable is used in incompatible ways.
pub open spec fn conflict_message(name: Seq<char>, ctx: Seq<char>, a: UsageV, b: UsageV) -> Seq<char> {
    match (a, b) {
        (UsageV::Builtin(x), UsageV::Builtin(y)) =>
            "Parameter '"@ + name + "' has conflicting built-in types '"@ + x + "' and '"@ + y + "' in "@ + ctx,
        _ =>
            "Parameter '"@ + name + "' has conflicting inferred types in "@ + ctx + ": "@
                + pt_debug(usage_type(a)) + " vs "@ + pt_debug(usage_type(b)),
    }
}

/// Combining a known usage with a new one: interpolation yields to a
/// selector use; two selector kinds, or a built-in with anything but the
/// same built-in, conflict (`None`).
pub open spec fn merge_usage(a: UsageV, b: UsageV) -> Option<UsageV> {
    match (a, b) {
        (UsageV::Interp, UsageV::Interp) => Some(UsageV::Interp),
        (UsageV::Interp, UsageV::SelStr) | (UsageV::SelStr, UsageV::Interp)
            | (UsageV::SelStr, UsageV::SelStr) => Some(UsageV::SelStr),
        (UsageV::Interp, UsageV::SelNum) | (UsageV::SelNum, UsageV::Interp)
            | (UsageV::SelNum, UsageV::SelNum) => Some(UsageV::SelNum),
        (UsageV::Builtin(x), UsageV::Builtin(y)) => if x == y { Some(UsageV::Builtin(x)) } else { None },
        _ => None,
    }
}

/// The order of two uses of a variable does not matter; a variable used
/// as a string selector and as a numeric selector is refused, as is one
/// passed to two different built-ins; and a merge keeps one of the uses.
pub proof fn lemma_merge_usage(a: UsageV, b: UsageV)
    ensures
        merge_usage(a, b) == merge_usage(b, a),
        a is SelStr && b is SelNum ==> merge_usage(a, b) is None,
        a is Builtin && !(b is Builtin) ==> merge_usage(a, b) is None,
        merge_usage(a, b) matches Some(m) ==> m == a || m == b,
{
}

pub type UsageMap = Seq<(Seq<char>, UsageV)>;

/// Records one use of variable `name`.
pub open spec fn register_spec(st: UsageMap, name: Seq<char>, u: UsageV, ctx: Seq<char>) -> Result<UsageMap, Seq<char>> {
    match gk_lookup(st, name) {
        None => Ok(gk_insert(st, name, u)),
        Some(ex) => match merge_usage(ex, u) {
            Some(m) => Ok(gk_insert(st, name, m)),
            None => Err(conflict_message(name, ctx, ex, u)),
        },
    }
}

/// Plural categories other than `other`: keys that make a selector numeric.
pub open spec fn is_numeric_category(s: Seq<char>) -> bool {
    s == "zero"@ || s == "one"@ || s == "two"@ || s == "few"@ || s == "many"@
}

/// A variant key naming a numeric plural category.
pub open spec fn key_is_numeric_category(k: KeyV) -> bool {
    match k {
        KeyV::Ident(n) => is_numeric_category(n),
        KeyV::Num(_) => false,
    }
}

/// A selector is numeric when some variant key is a number or a numeric
/// plural category; otherwise it is a string.
pub open spec fn infer_selector_spec(vs: Seq<VariantV>) -> PT {
    if exists|i: int| 0 <= i < vs.len() && (#[trigger] vs[i]).key is Num {
        PT::Num
    } else if exists|i: int| 0 <= i < vs.len() && key_is_numeric_category((#[trigger] vs[i]).key) {
        PT::Num
    } else {
        PT::Str
    }
}

pub open spec fn is_number_or_datetime(f: Seq<char>) -> bool {
    f == "NUMBER"@ || f == "DATETIME"@
}

/// Walks the elements in order, registering every variable use.
pub open spec fn collect_elems(es: Seq<ElemV>, st: UsageMap, ctx: Seq<char>) -> Result<UsageMap, Seq<char>>
    decreases es,
{
    if es.len() == 0 {
        Ok(st)
    } else {
        match collect_elems(es.drop_last(), st, ctx) {
            Err(e) => Err(e),
            Ok(st1) => collect_elem(es.last(), st1, ctx),
        }
    }
}

pub open spec fn collect_variants(vs: Seq<VariantV>, st: UsageMap, ctx: Seq<char>) -> Result<UsageMap, Seq<char>>
    decreases vs,
{
    if vs.len() == 0 {
        Ok(st)
    } else {
        match collect_variants(vs.drop_last(), st, ctx) {
            Err(e) => Err(e),
            Ok(st1) => collect_elems(vs.last().elements, st1, ctx),
        }
    }
}

pub open spec fn collect_args(args: Seq<(Seq<char>, ElemV)>, st: UsageMap, ctx: Seq<char>) -> Result<UsageMap, Seq<char>>
    decreases args,
{
    if args.len() == 0 {
        Ok(st)
    } else {
        match collect_args(args.drop_last(), st, ctx) {
            Err(e) => Err(e),
            Ok(st1) => collect_elem(args.last().1, st1, ctx),
        }
    }
}

pub open spec fn collect_elem(e: ElemV, st: UsageMap, ctx: Seq<char>) -> Result<UsageMap, Seq<char>>
    decreases e,
{
    match e {
        ElemV::Text(_) | ElemV::MessageRef(_) | ElemV::AttributeRef { .. } => Ok(st),
        ElemV::TermAttrSelect { variants, .. } => collect_variants(variants, st, ctx),
        ElemV::TermRef { args, .. } => collect_args(args, st, ctx),
        ElemV::VarRef(name) => register_spec(st, name, UsageV::Interp, ctx),
        ElemV::Select { selector, variants } => {
            let u = match infer_selector_spec(variants) {
                PT::Num => UsageV::SelNum,
                _ => UsageV::SelStr,
            };
            match register_spec(st, selector, u, ctx) {
                Err(e) => Err(e),
                Ok(st1) => collect_variants(variants, st1, ctx),
            }
        },
        ElemV::BuiltInCall { func_name, var_name, ty_name, .. } =>
            if is_number_or_datetime(func_name) {
                register_spec(st, var_name, UsageV::SelNum, ctx)
            } else {
                register_spec(st, var_name, UsageV::Builtin(ty_name), ctx)
            },
    }
}

/// The parameter types of an element list in name order, or the message of
/// the first conflicting use.
pub open spec fn params_spec(es: Seq<ElemV>, ctx: Seq<char>) -> Result<Seq<(Seq<char>, PT)>, Seq<char>> {
    match collect_elems(es, Seq::empty(), ctx) {
        Ok(u) => Ok(u.map_values(|p: (Seq<char>, UsageV)| (p.0, usage_type(p.1)))),
        Err(e) => Err(e),
    }
}

spec fn uv(m: Seq<(String, ParamUsage)>) -> UsageMap {
    kv_map(m, |u: ParamUsage| usage_v(u))
}

fn copy_usage(u: &ParamUsage) -> (res: ParamUsage)
    ensures
        usage_v(res) == usage_v(*u),
{
    match u {
        ParamUsage::Interpolation => ParamUsage::Interpolation,
        ParamUsage::SelectorStr => ParamUsage::SelectorStr,
        ParamUsage::SelectorNum => ParamUsage::SelectorNum,
        ParamUsage::Builtin(s) => ParamUsage::Builtin(copy_string(s)),
    }
}

fn usage_to_type(u: &ParamUsage) -> (res: ParamType)
    ensures
        pt_v(res) == usage_type(usage_v(*u)),
{
    match u {
        ParamUsage::Interpolation | ParamUsage::SelectorStr => ParamType::Str,
        ParamUsage::SelectorNum => ParamType::Num,
        ParamUsage::Builtin(t) => ParamType::Builtin(copy_string(t)),
    }
}

fn push_pt_debug(out: &mut String, u: &ParamUsage)
    ensures
        final(out)@ == old(out)@ + pt_debug(usage_type(usage_v(*u))),
{
    match u {
        ParamUsage::Interpolation | ParamUsage::SelectorStr => push_str(out, "Str"),
        ParamUsage::SelectorNum => push_str(out, "Num"),
        ParamUsage::Builtin(t) => {
            push_str(out, "Builtin(\"");
            push_str(out, t.as_str());
            push_str(out, "\")");
            assert(final(out)@ =~= old(out)@ + pt_debug(usage_type(usage_v(*u))));
        },
    }
}

fn merge(a: &ParamUsage, b: &ParamUsage, name: &str, ctx: &str) -> (res: Result<ParamUsage, String>)
    ensures
        match res {
            Ok(m) => merge_usage(usage_v(*a), usage_v(*b)) == Some(usage_v(m)),
            Err(e) => merge_usage(usage_v(*a), usage_v(*b)) is None
                && e@ == conflict_message(name@, ctx@, usage_v(*a), usage_v(*b)),
        },
{
    match (a, b) {
        (ParamUsage::Interpolation, ParamUsage::Interpolation) => Ok(ParamUsage::Interpolation),
        (ParamUsage::Interpolation, ParamUsage::SelectorStr) | (ParamUsage::SelectorStr, ParamUsage::Interpolation)
            | (ParamUsage::SelectorStr, ParamUsage::SelectorStr) => Ok(ParamUsage::SelectorStr),
        (ParamUsage::Interpolation, ParamUsage::SelectorNum) | (ParamUsage::SelectorNum, ParamUsage::Interpolation)
            | (ParamUsage::SelectorNum, ParamUsage::SelectorNum) => Ok(ParamUsage::SelectorNum),
        (ParamUsage::Builtin(x), ParamUsage::Builtin(y)) => {
            if str_eq(x.as_str(), y.as_str()) {
                Ok(ParamUsage::Builtin(copy_string(x)))
            } else {
                let mut m = String::new();
                push_str(&mut m, "Parameter '");
                push_str(&mut m, name);
                push_str(&mut m, "' has conflicting built-in types '");
                push_str(&mut m, x.as_str());
                push_str(&mut m, "' and '");
                push_str(&mut m, y.as_str());
                push_str(&mut m, "' in ");
                push_str(&mut m, ctx);
                assert(m@ =~= conflict_message(name@, ctx@, usage_v(*a), usage_v(*b)));
                Err(m)
            }
        },
        _ => {
            let mut m = String::new();
            push_str(&mut m, "Parameter '");
            push_str(&mut m, name);
            push_str(&mut m, "' has conflicting inferred types in ");
            push_str(&mut m, ctx);
            push_str(&mut m, ": ");
            push_pt_debug(&mut m, a);
            push_str(&mut m, " vs ");
            push_pt_debug(&mut m, b);
            assert(m@ =~= conflict_message(name@, ctx@, usage_v(*a), usage_v(*b)));
            Err(m)
        },
    }
}

fn register_usage(name: &str, u: ParamUsage, usage: &mut Vec<(String, ParamUsage)>, ctx: &str)
    -> (res: Result<(), String>)
    ensures
        keys_sorted(old(usage)@) ==> keys_sorted(final(usage)@),
        match res {
            Ok(()) => register_spec(uv(old(usage)@), name@, usage_v(u), ctx@) == Ok::<UsageMap, Seq<char>>(uv(final(usage)@)),
            Err(e) => register_spec(uv(old(usage)@), name@, usage_v(u), ctx@) == Err::<UsageMap, Seq<char>>(e@),
        },
{
    let ghost f = |x: ParamUsage| usage_v(x);
    let key = copy_string(&crate::text::string_of(name));
    proof {
        lemma_kv_insert(usage@, f, key, u);
    }
    let merged = match keyed_get(usage, name) {
        None => u,
        Some(existing) => {
            let ex = copy_usage(existing);
            match merge(&ex, &u, name, ctx) {
                Ok(m) => m,
                Err(e) => return Err(e),
            }
        },
    };
    proof {
        lemma_kv_insert(usage@, f, key, merged);
        if keys_sorted(usage@) {
            lemma_keyed_insert_sorted(usage@, key, merged);
        }
    }
    keyed_insert_exec(usage, key, merged);
    Ok(())
}

pub fn infer_selector_type(variants: &Vec<Variant>) -> (res: ParamType)
    ensures
        pt_v(res) == infer_selector_spec(variants_v(variants@)),
        res is Num || res is Str,
{
    let ghost vs = variants_v(variants@);
    proof {
        lemma_variants_v(variants@);
    }
    let mut i: usize = 0;
    while i < variants.len()
        invariant
            vs == variants_v(variants@),
            vs.len() == variants@.len(),
            forall|j: int| 0 <= j < variants@.len() ==> #[trigger] vs[j] == variant_v(variants@[j]),
            i <= variants@.len(),
            forall|j: int| 0 <= j < i ==> !((#[trigger] vs[j]).key is Num),
        decreases variants@.len() - i,
    {
        if let KeyType::Num(_) = &variants[i].key {
            assert(vs[i as int].key is Num);
            return ParamType::Num;
        }
        i += 1;
    }
    i = 0;
    while i < variants.len()
        invariant
            vs == variants_v(variants@),
            vs.len() == variants@.len(),
            forall|j: int| 0 <= j < variants@.len() ==> #[trigger] vs[j] == variant_v(variants@[j]),
            i <= variants@.len(),
            forall|j: int| 0 <= j < variants@.len() ==> !((#[trigger] vs[j]).key is Num),
            forall|j: int| 0 <= j < i ==> !key_is_numeric_category((#[trigger] vs[j]).key),
        decreases variants@.len() - i,
    {
        if let KeyType::Ident(n) = &variants[i].key {
            let s = n.as_str();
            if str_eq(s, "zero") || str_eq(s, "one") || str_eq(s, "two") || str_eq(s, "few") || str_eq(s, "many") {
                assert(key_is_numeric_category(vs[i as int].key));
                return ParamType::Num;
            }
        }
        i += 1;
    }
    ParamType::Str
}

fn collect_params_into(elements: &Vec<Element>, usage: &mut Vec<(String, ParamUsage)>, ctx: &str)
    -> (res: Result<(), String>)
    ensures
        keys_sorted(old(usage)@) ==> keys_sorted(final(usage)@),
        match res {
            Ok(()) => collect_elems(elems_v(elements@), uv(old(usage)@), ctx@) == Ok::<UsageMap, Seq<char>>(uv(final(usage)@)),
            Err(e) => collect_elems(elems_v(elements@), uv(old(usage)@), ctx@) == Err::<UsageMap, Seq<char>>(e@),
        },
    decreases elements,
{
    let ghost es = elems_v(elements@);
    let ghost st0 = uv(usage@);
    proof {
        lemma_elems_v(elements@);
        assert(es.subrange(0, 0) =~= Seq::<ElemV>::empty());
    }
    let mut i: usize = 0;
    while i < elements.len()
        invariant
            keys_sorted(old(usage)@) ==> keys_sorted(usage@),
            st0 == uv(old(usage)@),
            es == elems_v(elements@),
            es.len() == elements@.len(),
            forall|j: int| 0 <= j < elements@.len() ==> #[trigger] es[j] == elem_v(elements@[j]),
            i <= elements@.len(),
            collect_elems(es.subrange(0, i as int), st0, ctx@) == Ok::<UsageMap, Seq<char>>(uv(usage@)),
        decreases elements@.len() - i,
    {
        proof {
            assert(decreases_to!(elements => elements@[i as int]));
            assert(es.subrange(0, i + 1).drop_last() =~= es.subrange(0, i as int));
            assert(es.subrange(0, i + 1).last() == elem_v(elements@[i as int]));
        }
        let ghost before = uv(usage@);
        match collect_elem_into(&elements[i], usage, ctx) {
            Ok(()) => {},
            Err(e) => {
                proof {
                    assert(collect_elems(es.subrange(0, i + 1), st0, ctx@) == Err::<UsageMap, Seq<char>>(e@));
                    lemma_collect_err_prefix(es, st0, ctx@, i as int + 1, e@);
                }
                return Err(e);
            },
        }
        i += 1;
    }
    assert(es.subrange(0, i as int) =~= es);
    Ok(())
}

proof fn lemma_collect_err_prefix(es: Seq<ElemV>, st: UsageMap, ctx: Seq<char>, n: int, e: Seq<char>)
    requires
        0 <= n <= es.len(),
        collect_elems(es.subrange(0, n), st, ctx) == Err::<UsageMap, Seq<char>>(e),
    ensures
        collect_elems(es, st, ctx) == Err::<UsageMap, Seq<char>>(e),
    decreases es.len() - n,
{
    if n == es.len() {
        assert(es.subrange(0, n) =~= es);
    } else {
        assert(es.subrange(0, n + 1).drop_last() =~= es.subrange(0, n));
        lemma_collect_err_prefix(es, st, ctx, n + 1, e);
    }
}

proof fn lemma_variants_err_prefix(vs: Seq<VariantV>, st: UsageMap, ctx: Seq<char>, n: int, e: Seq<char>)
    requires
        0 <= n <= vs.len(),
        collect_variants(vs.subrange(0, n), st, ctx) == Err::<UsageMap, Seq<char>>(e),
    ensures
        collect_variants(vs, st, ctx) == Err::<UsageMap, Seq<char>>(e),
    decreases vs.len() - n,
{
    if n == vs.len() {
        assert(vs.subrange(0, n) =~= vs);
    } else {
        assert(vs.subrange(0, n + 1).drop_last() =~= vs.subrange(0, n));
        lemma_variants_err_prefix(vs, st, ctx, n + 1, e);
    }
}

proof fn lemma_args_err_prefix(xs: Seq<(Seq<char>, ElemV)>, st: UsageMap, ctx: Seq<char>, n: int, e: Seq<char>)
    requires
        0 <= n <= xs.len(),
        collect_args(xs.subrange(0, n), st, ctx) == Err::<UsageMap, Seq<char>>(e),
    ensures
        collect_args(xs, st, ctx) == Err::<UsageMap, Seq<char>>(e),
    decreases xs.len() - n,
{
    if n == xs.len() {
        assert(xs.subrange(0, n) =~= xs);
    } else {
        assert(xs.subrange(0, n + 1).drop_last() =~= xs.subrange(0, n));
        lemma_args_err_prefix(xs, st, ctx, n + 1, e);
    }
}

fn collect_variants_into(variants: &Vec<Variant>, usage: &mut Vec<(String, ParamUsage)>, ctx: &str)
    -> (res: Result<(), String>)
    ensures
        keys_sorted(old(usage)@) ==> keys_sorted(final(usage)@),
        match res {
            Ok(()) => collect_variants(variants_v(variants@), uv(old(usage)@), ctx@) == Ok::<UsageMap, Seq<char>>(uv(final(usage)@)),
            Err(e) => collect_variants(variants_v(variants@), uv(old(usage)@), ctx@) == Err::<UsageMap, Seq<char>>(e@),
        },
    decreases variants,
{
    let ghost vs = variants_v(variants@);
    let ghost st0 = uv(usage@);
    proof {
        lemma_variants_v(variants@);
        assert(vs.subrange(0, 0) =~= Seq::<VariantV>::empty());
    }
    let mut i: usize = 0;
    while i < variants.len()
        invariant
            keys_sorted(old(usage)@) ==> keys_sorted(usage@),
            st0 == uv(old(usage)@),
            vs == variants_v(variants@),
            vs.len() == variants@.len(),
            forall|j: int| 0 <= j < variants@.len() ==> #[trigger] vs[j] == variant_v(variants@[j]),
            i <= variants@.len(),
            collect_variants(vs.subrange(0, i as int), st0, ctx@) == Ok::<UsageMap, Seq<char>>(uv(usage@)),
        decreases variants@.len() - i,
    {
        proof {
            assert(decreases_to!(variants => variants@[i as int]));
            assert(decreases_to!(variants@[i as int] => variants@[i as int].elements));
            assert(vs.subrange(0, i + 1).drop_last() =~= vs.subrange(0, i as int));
            assert(vs.subrange(0, i + 1).last() == variant_v(variants@[i as int]));
        }
        let ghost before = uv(usage@);
        match collect_params_into(&variants[i].elements, usage, ctx) {
            Ok(()) => {},
            Err(e) => {
                proof {
                    assert(collect_variants(vs.subrange(0, i + 1), st0, ctx@) == Err::<UsageMap, Seq<char>>(e@));
                    lemma_variants_err_prefix(vs, st0, ctx@, i as int + 1, e@);
                }
                return Err(e);
            },
        }
        i += 1;
    }
    assert(vs.subrange(0, i as int) =~= vs);
    Ok(())
}

fn collect_args_into(args: &Vec<(String, Element)>, usage: &mut Vec<(String, ParamUsage)>, ctx: &str)
    -> (res: Result<(), String>)
    ensures
        keys_sorted(old(usage)@) ==> keys_sorted(final(usage)@),
        match res {
            Ok(()) => collect_args(args_v(args@), uv(old(usage)@), ctx@) == Ok::<UsageMap, Seq<char>>(uv(final(usage)@)),
            Err(e) => collect_args(args_v(args@), uv(old(usage)@), ctx@) == Err::<UsageMap, Seq<char>>(e@),
        },
    decreases args,
{
    let ghost xs = args_v(args@);
    let ghost st0 = uv(usage@);
    proof {
        lemma_args_v(args@);
        assert(xs.subrange(0, 0) =~= Seq::<(Seq<char>, ElemV)>::empty());
    }
    let mut i: usize = 0;
    while i < args.len()
        invariant
            keys_sorted(old(usage)@) ==> keys_sorted(usage@),
            st0 == uv(old(usage)@),
            xs == args_v(args@),
            xs.len() == args@.len(),
            forall|j: int| 0 <= j < args@.len() ==> #[trigger] xs[j] == (args@[j].0@, elem_v(args@[j].1)),
            i <= args@.len(),
            collect_args(xs.subrange(0, i as int), st0, ctx@) == Ok::<UsageMap, Seq<char>>(uv(usage@)),
        decreases args@.len() - i,
    {
        proof {
            assert(decreases_to!(args => args@[i as int]));
            assert(decreases_to!(args@[i as int] => args@[i as int].1));
            assert(xs.subrange(0, i + 1).drop_last() =~= xs.subrange(0, i as int));
            assert(xs.subrange(0, i + 1).last() == xs[i as int]);
        }
        let ghost before = uv(usage@);
        match collect_elem_into(&args[i].1, usage, ctx) {
            Ok(()) => {},
            Err(e) => {
                proof {
                    assert(collect_args(xs.subrange(0, i + 1), st0, ctx@) == Err::<UsageMap, Seq<char>>(e@));
                    lemma_args_err_prefix(xs, st0, ctx@, i as int + 1, e@);
                }
                return Err(e);
            },
        }
        i += 1;
    }
    assert(xs.subrange(0, i as int) =~= xs);
    Ok(())
}

fn collect_elem_into(e: &Element, usage: &mut Vec<(String, ParamUsage)>, ctx: &str)
    -> (res: Result<(), String>)
    ensures
        keys_sorted(old(usage)@) ==> keys_sorted(final(usage)@),
        match res {
            Ok(()) => collect_elem(elem_v(*e), uv(old(usage)@), ctx@) == Ok::<UsageMap, Seq<char>>(uv(final(usage)@)),
            Err(err) => collect_elem(elem_v(*e), uv(old(usage)@), ctx@) == Err::<UsageMap, Seq<char>>(err@),
        },
    decreases e,
{
    match e {
        Element::Text(_) | Element::MessageRef(_) | Element::AttributeRef { .. } => Ok(()),
        Element::TermAttrSelect { variants, .. } => collect_variants_into(variants, usage, ctx),
        Element::TermRef { args, .. } => collect_args_into(args, usage, ctx),
        Element::VarRef(name) => register_usage(name.as_str(), ParamUsage::Interpolation, usage, ctx),
        Element::Select { selector, variants } => {
            let u = match infer_selector_type(variants) {
                ParamType::Num => ParamUsage::SelectorNum,
                _ => ParamUsage::SelectorStr,
            };
            match register_usage(selector.as_str(), u, usage, ctx) {
                Ok(()) => {},
                Err(err) => return Err(err),
            }
            collect_variants_into(variants, usage, ctx)
        },
        Element::BuiltInCall { func_name, var_name, ty_name, .. } => {
            if str_eq(func_name.as_str(), "NUMBER") || str_eq(func_name.as_str(), "DATETIME") {
                register_usage(var_name.as_str(), ParamUsage::SelectorNum, usage, ctx)
            } else {
                register_usage(var_name.as_str(), ParamUsage::Builtin(copy_string(ty_name)), usage, ctx)
            }
        },
    }
}

/// The parameters an element list needs, in name order, with their types:
/// a variable only interpolated is a string; one used as a selector takes
/// the selector's type (numeric when some key is a number or a numeric
/// plural category); one passed to `NUMBER`/`DATETIME` is numeric; one
/// passed to another built-in has that built-in's type. The uses must not
/// conflict; `try_collect_params` checks them.
pub fn collect_params_with_context(elements: &Vec<Element>, context: &str) -> (res: Vec<(String, ParamType)>)
    requires
        params_spec(elems_v(elements@), context@) is Ok,
    ensures
        params_spec(elems_v(elements@), context@) == Ok::<Seq<(Seq<char>, PT)>, Seq<char>>(params_model(res@)),
        keys_sorted(res@),
{
    match try_collect_params(elements, context) {
        Ok(m) => m,
        Err(_) => {
            proof {
                assert(false);
            }
            Vec::new()
        },
    }
}

/// The parameters of an element list as `collect_params_with_context` gives
/// them, or, where two uses of a variable conflict, the message that names
/// the variable and the context.
pub fn try_collect_params(elements: &Vec<Element>, context: &str)
    -> (res: Result<Vec<(String, ParamType)>, String>)
    ensures
        match res {
            Ok(m) => params_spec(elems_v(elements@), context@) == Ok::<Seq<(Seq<char>, PT)>, Seq<char>>(params_model(m@)),
            Err(e) => params_spec(elems_v(elements@), context@) == Err::<Seq<(Seq<char>, PT)>, Seq<char>>(e@),
        },
        res matches Ok(m) ==> keys_sorted(m@),
{
    let mut usage: Vec<(String, ParamUsage)> = Vec::new();
    assert(uv(usage@) =~= Seq::<(Seq<char>, UsageV)>::empty());
    match collect_params_into(elements, &mut usage, context) {
        Ok(()) => {},
        Err(e) => return Err(e),
    }
    let ghost u = uv(usage@);
    let mut out: Vec<(String, ParamType)> = Vec::new();
    let mut i: usize = 0;
    while i < usage.len()
        invariant
            u == uv(usage@),
            i <= usage@.len(),
            out@.len() == i,
            forall|j: int| 0 <= j < i ==> (#[trigger] out@[j]).0@ == usage@[j].0@
                && pt_v(out@[j].1) == usage_type(usage_v(usage@[j].1)),
            keys_sorted(usage@),
        decreases usage@.len() - i,
    {
        out.push((copy_string(&usage[i].0), usage_to_type(&usage[i].1)));
        i += 1;
    }
    assert(params_model(out@) =~= u.map_values(|p: (Seq<char>, UsageV)| (p.0, usage_type(p.1))));
    assert(keys_sorted(out@)) by {
        assert forall|a: int, b: int| 0 <= a < b < out@.len() implies
            crate::text::seq_less(#[trigger] out@[a].0@, #[trigger] out@[b].0@) by {
            assert(out@[a].0@ == usage@[a].0@);
            assert(out@[b].0@ == usage@[b].0@);
        }
    }
    Ok(out)
}

/// A selector is numeric exactly when one of its variant keys is a number
/// or names one of the CLDR plural categories `zero`, `one`, `two`, `few`
/// or `many`; with only other names (and `other`) it selects on strings.
pub proof fn lemma_selector_numeric_iff(vs: Seq<VariantV>)
    ensures
        infer_selector_spec(vs) == PT::Num <==> exists|i: int| 0 <= i < vs.len() && {
            let k = (#[trigger] vs[i]).key;
            ||| k is Num
            ||| k == KeyV::Ident("zero"@)
            ||| k == KeyV::Ident("one"@)
            ||| k == KeyV::Ident("two"@)
            ||| k == KeyV::Ident("few"@)
            ||| k == KeyV::Ident("many"@)
        },
        infer_selector_spec(vs) == PT::Num || infer_selector_spec(vs) == PT::Str,
{
    if exists|i: int| 0 <= i < vs.len() && (#[trigger] vs[i]).key is Num {
        let i = choose|i: int| 0 <= i < vs.len() && (#[trigger] vs[i]).key is Num;
        assert(vs[i].key is Num);
    } else if exists|i: int| 0 <= i < vs.len() && key_is_numeric_category((#[trigger] vs[i]).key) {
        let i = choose|i: int| 0 <= i < vs.len() && key_is_numeric_category((#[trigger] vs[i]).key);
        assert(key_is_numeric_category(vs[i].key));
    } else {
        assert forall|i: int| 0 <= i < vs.len() implies !({
            let k = (#[trigger] vs[i]).key;
            ||| k is Num
            ||| k == KeyV::Ident("zero"@)
            ||| k == KeyV::Ident("one"@)
            ||| k == KeyV::Ident("two"@)
            ||| k == KeyV::Ident("few"@)
            ||| k == KeyV::Ident("many"@)
        }) by {
            assert(!(vs[i].key is Num));
            assert(!key_is_numeric_category(vs[i].key));
        }
    }
}

}
