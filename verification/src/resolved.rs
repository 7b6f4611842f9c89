//! What resolution leaves behind: no message, term or attribute
//! reference, as long as the arguments given to terms hold none.
use vstd::prelude::*;
use crate::ast::{AttrV, ElemV, EntriesV, NamedV, PT, VariantV};
use crate::convert::{first_default, first_key_match, flat_name, fold_spec};
use crate::fmt::texts_of;
use crate::keyed::{gk_index, gk_insert, gk_insert_pos, gk_lookup, gk_sorted, lemma_gk_index_first, lemma_gk_insert_pos_bounds};
use crate::params::params_spec;
use crate::resolve::{RSt, VisitState, bind_named, bind_positional, empty_rst, keys_of, pop_env, push_env, res_all_attributes,
    res_all_messages, res_all_terms, res_attribute, res_elem, res_elems, res_list, res_message, res_term,
    res_term_args, res_term_attr_select, res_term_tail, res_variants, resolve_locale_spec, resolution_fuel,
    var_binding};

verus! {

// ---------------------------------------------------------------------
// Reference-free elements
// ---------------------------------------------------------------------

/// No element of the list is, or holds in a variant, a message, term or
/// attribute reference (a select on a term attribute included).
pub open spec fn refs_free(es: Seq<ElemV>) -> bool
    decreases es,
{
    if es.len() == 0 {
        true
    } else {
        refs_free(es.drop_last()) && elem_refs_free(es.last())
    }
}

pub open spec fn elem_refs_free(e: ElemV) -> bool
    decreases e,
{
    match e {
        ElemV::MessageRef(_) | ElemV::TermRef { .. } | ElemV::AttributeRef { .. } | ElemV::TermAttrSelect { .. } => false,
        ElemV::Select { variants, .. } => variants_refs_free(variants),
        _ => true,
    }
}

pub open spec fn variants_refs_free(vs: Seq<VariantV>) -> bool
    decreases vs,
{
    if vs.len() == 0 {
        true
    } else {
        variants_refs_free(vs.drop_last()) && refs_free(vs.last().elements)
    }
}

/// The values of named arguments.
pub open spec fn arg_values(args: Seq<(Seq<char>, ElemV)>) -> Seq<ElemV> {
    args.map_values(|p: (Seq<char>, ElemV)| p.1)
}

/// Every term reference in the list (in variants too) passes arguments
/// that hold no reference.
pub open spec fn args_free(es: Seq<ElemV>) -> bool
    decreases es,
{
    if es.len() == 0 {
        true
    } else {
        args_free(es.drop_last()) && elem_args_free(es.last())
    }
}

pub open spec fn elem_args_free(e: ElemV) -> bool
    decreases e,
{
    match e {
        ElemV::TermRef { args, positional, .. } => refs_free(positional) && refs_free(arg_values(args)),
        ElemV::Select { variants, .. } => variants_args_free(variants),
        ElemV::TermAttrSelect { variants, .. } => variants_args_free(variants),
        _ => true,
    }
}

pub open spec fn variants_args_free(vs: Seq<VariantV>) -> bool
    decreases vs,
{
    if vs.len() == 0 {
        true
    } else {
        variants_args_free(vs.drop_last()) && args_free(vs.last().elements)
    }
}

/// Every entry of a locale passes reference-free arguments to terms.
pub open spec fn entries_args_free(en: EntriesV) -> bool {
    &&& forall|i: int| 0 <= i < en.messages.len() ==> args_free((#[trigger] en.messages[i]).1.elements)
    &&& forall|i: int| 0 <= i < en.terms.len() ==> args_free((#[trigger] en.terms[i]).1.elements)
    &&& forall|i: int| 0 <= i < en.attributes.len() ==> args_free((#[trigger] en.attributes[i]).1.elements)
}

/// Every entry of a locale is free of references.
pub open spec fn entries_refs_free(en: EntriesV) -> bool {
    &&& forall|i: int| 0 <= i < en.messages.len() ==> refs_free((#[trigger] en.messages[i]).1.elements)
    &&& forall|i: int| 0 <= i < en.terms.len() ==> refs_free((#[trigger] en.terms[i]).1.elements)
    &&& forall|i: int| 0 <= i < en.attributes.len() ==> refs_free((#[trigger] en.attributes[i]).1.elements)
}

/// The messages, terms and attributes of a locale, each in ascending key
/// order.
pub open spec fn entries_sorted(en: EntriesV) -> bool {
    &&& gk_sorted(en.messages)
    &&& gk_sorted(en.terms)
    &&& gk_sorted(en.attributes)
}

/// The resolver holds only reference-free entries and bindings, its
/// entries in ascending key order.
pub open spec fn store_free(st: RSt) -> bool {
    &&& gk_sorted(st.messages)
    &&& gk_sorted(st.terms)
    &&& gk_sorted(st.attributes)
    &&& forall|i: int| 0 <= i < st.messages.len() ==> refs_free((#[trigger] st.messages[i]).1.elements)
    &&& forall|i: int| 0 <= i < st.terms.len() ==> refs_free((#[trigger] st.terms[i]).1.elements)
    &&& forall|i: int| 0 <= i < st.attributes.len() ==> refs_free((#[trigger] st.attributes[i]).1.elements)
    &&& forall|j: int| 0 <= j < st.envs.len() ==> env_free(#[trigger] st.envs[j])
}

pub open spec fn env_free(env: Seq<(Seq<char>, ElemV)>) -> bool {
    forall|k: int| 0 <= k < env.len() ==> elem_refs_free((#[trigger] env[k]).1)
}

// ---------------------------------------------------------------------
// Lists element by element
// ---------------------------------------------------------------------

pub proof fn lemma_refs_free_index(es: Seq<ElemV>)
    ensures
        refs_free(es) <==> forall|i: int| 0 <= i < es.len() ==> elem_refs_free(#[trigger] es[i]),
    decreases es.len(),
{
    if es.len() > 0 {
        lemma_refs_free_index(es.drop_last());
        assert forall|i: int| 0 <= i < es.len() - 1 implies es.drop_last()[i] == #[trigger] es[i] by {}
    }
}

pub proof fn lemma_variants_refs_free_index(vs: Seq<VariantV>)
    ensures
        variants_refs_free(vs) <==> forall|i: int| 0 <= i < vs.len() ==> refs_free(#[trigger] vs[i].elements),
    decreases vs.len(),
{
    if vs.len() > 0 {
        lemma_variants_refs_free_index(vs.drop_last());
        assert forall|i: int| 0 <= i < vs.len() - 1 implies vs.drop_last()[i] == #[trigger] vs[i] by {}
    }
}

pub proof fn lemma_args_free_index(es: Seq<ElemV>)
    ensures
        args_free(es) <==> forall|i: int| 0 <= i < es.len() ==> elem_args_free(#[trigger] es[i]),
    decreases es.len(),
{
    if es.len() > 0 {
        lemma_args_free_index(es.drop_last());
        assert forall|i: int| 0 <= i < es.len() - 1 implies es.drop_last()[i] == #[trigger] es[i] by {}
    }
}

pub proof fn lemma_variants_args_free_index(vs: Seq<VariantV>)
    ensures
        variants_args_free(vs) <==> forall|i: int| 0 <= i < vs.len() ==> args_free(#[trigger] vs[i].elements),
    decreases vs.len(),
{
    if vs.len() > 0 {
        lemma_variants_args_free_index(vs.drop_last());
        assert forall|i: int| 0 <= i < vs.len() - 1 implies vs.drop_last()[i] == #[trigger] vs[i] by {}
    }
}

/// A list with no reference passes no reference to a term.
pub proof fn lemma_refs_free_args_free(es: Seq<ElemV>)
    requires
        refs_free(es),
    ensures
        args_free(es),
    decreases es,
{
    if es.len() > 0 {
        lemma_refs_free_args_free(es.drop_last());
        lemma_elem_refs_free_args_free(es.last());
    }
}

pub proof fn lemma_elem_refs_free_args_free(e: ElemV)
    requires
        elem_refs_free(e),
    ensures
        elem_args_free(e),
    decreases e,
{
    if let ElemV::Select { variants, .. } = e {
        lemma_variants_refs_free_args_free(variants);
    }
}

pub proof fn lemma_variants_refs_free_args_free(vs: Seq<VariantV>)
    requires
        variants_refs_free(vs),
    ensures
        variants_args_free(vs),
    decreases vs,
{
    if vs.len() > 0 {
        lemma_variants_refs_free_args_free(vs.drop_last());
        lemma_refs_free_args_free(vs.last().elements);
    }
}

pub proof fn lemma_refs_free_concat(a: Seq<ElemV>, b: Seq<ElemV>)
    requires
        refs_free(a),
        refs_free(b),
    ensures
        refs_free(a + b),
{
    lemma_refs_free_index(a);
    lemma_refs_free_index(b);
    lemma_refs_free_index(a + b);
    assert forall|i: int| 0 <= i < (a + b).len() implies elem_refs_free(#[trigger] (a + b)[i]) by {
        if i < a.len() {
            assert((a + b)[i] == a[i]);
        } else {
            assert((a + b)[i] == b[i - a.len()]);
        }
    }
}

/// Folding keeps a list free of references.
pub proof fn lemma_fold_refs_free(es: Seq<ElemV>)
    requires
        refs_free(es),
    ensures
        refs_free(fold_spec(es)),
    decreases es.len(),
{
    if es.len() > 0 {
        lemma_fold_refs_free(es.drop_last());
        let f = fold_spec(es.drop_last());
        lemma_refs_free_index(f);
        match es.last() {
            ElemV::Text(s) => {
                if s.len() == 0 {
                } else if f.len() > 0 && f.last() is Text {
                    let r = f.drop_last().push(ElemV::Text(f.last()->Text_0 + s));
                    lemma_refs_free_index(r);
                    assert forall|i: int| 0 <= i < r.len() implies elem_refs_free(#[trigger] r[i]) by {
                        if i < r.len() - 1 {
                            assert(r[i] == f[i]);
                        }
                    }
                } else {
                    assert(f.push(ElemV::Text(s)).drop_last() =~= f);
                }
            },
            e => {
                assert(f.push(e).drop_last() =~= f);
            },
        }
    }
}

// ---------------------------------------------------------------------
// Keyed models
// ---------------------------------------------------------------------

/// A property of every value of a model holds of what a lookup finds.
pub proof fn lemma_gk_lookup_holds<W>(m: Seq<(Seq<char>, W)>, k: Seq<char>, p: spec_fn(W) -> bool)
    requires
        forall|i: int| 0 <= i < m.len() ==> p(#[trigger] m[i].1),
    ensures
        gk_lookup(m, k) matches Some(v) ==> p(v),
{
    lemma_gk_index_first(m, k);
}

/// A property of every value of a model, and of a new value, holds of
/// every value after the insertion.
pub proof fn lemma_gk_insert_holds<W>(m: Seq<(Seq<char>, W)>, k: Seq<char>, w: W, p: spec_fn(W) -> bool)
    requires
        forall|i: int| 0 <= i < m.len() ==> p(#[trigger] m[i].1),
        p(w),
    ensures
        forall|i: int| 0 <= i < gk_insert(m, k, w).len() ==> p(#[trigger] gk_insert(m, k, w)[i].1),
{
    lemma_gk_index_first(m, k);
    lemma_gk_insert_pos_bounds(m, k);
    let r = gk_insert(m, k, w);
    match gk_index(m, k) {
        Some(j) => {
            assert forall|i: int| 0 <= i < r.len() implies p(#[trigger] r[i].1) by {
                if i != j {
                    assert(r[i] == m[i]);
                }
            }
        },
        None => {
            let q = gk_insert_pos(m, k);
            assert forall|i: int| 0 <= i < r.len() implies p(#[trigger] r[i].1) by {
                if i < q {
                    assert(r[i] == m[i]);
                } else if i > q {
                    assert(r[i] == m[i - 1]);
                }
            }
        },
    }
}


// ---------------------------------------------------------------------
// Bindings and resolver states
// ---------------------------------------------------------------------

pub proof fn lemma_refs_free_single(e: ElemV)
    requires
        elem_refs_free(e),
    ensures
        refs_free(seq![e]),
{
    reveal_with_fuel(refs_free, 2);
    assert(seq![e].drop_last() =~= Seq::<ElemV>::empty());
    assert(seq![e].last() == e);
}

/// Positional arguments free of references bind only such values.
pub proof fn lemma_bind_positional_free(names: Seq<(Seq<char>, PT)>, pos: Seq<ElemV>)
    requires
        refs_free(pos),
    ensures
        env_free(bind_positional(names, pos)),
    decreases pos.len(),
{
    if pos.len() > 0 {
        lemma_bind_positional_free(names, pos.drop_last());
        let env = bind_positional(names, pos.drop_last());
        let i = pos.len() - 1;
        if i < names.len() {
            lemma_gk_insert_holds(env, names[i].0, pos.last(), |x: ElemV| elem_refs_free(x));
        }
    }
}

/// Named arguments free of references keep the bindings free of them.
pub proof fn lemma_bind_named_free(env: Seq<(Seq<char>, ElemV)>, args: Seq<(Seq<char>, ElemV)>)
    requires
        env_free(env),
        refs_free(arg_values(args)),
    ensures
        env_free(bind_named(env, args)),
    decreases args.len(),
{
    if args.len() > 0 {
        assert(arg_values(args).drop_last() =~= arg_values(args.drop_last()));
        lemma_bind_named_free(env, args.drop_last());
        assert(arg_values(args).last() == args.last().1);
        lemma_gk_insert_holds(bind_named(env, args.drop_last()), args.last().0, args.last().1,
            |x: ElemV| elem_refs_free(x));
    }
}

pub proof fn lemma_push_env_free(st: RSt, env: Seq<(Seq<char>, ElemV)>)
    requires
        store_free(st),
        env_free(env),
    ensures
        store_free(push_env(st, env)),
{
    let s = push_env(st, env);
    assert forall|j: int| 0 <= j < s.envs.len() implies env_free(#[trigger] s.envs[j]) by {
        if j < st.envs.len() {
            assert(s.envs[j] == st.envs[j]);
        }
    }
}

pub proof fn lemma_pop_env_free(st: RSt)
    requires
        store_free(st),
        st.envs.len() > 0,
    ensures
        store_free(pop_env(st)),
{
    let s = pop_env(st);
    assert forall|j: int| 0 <= j < s.envs.len() implies env_free(#[trigger] s.envs[j]) by {
        assert(s.envs[j] == st.envs[j]);
    }
}

pub proof fn lemma_first_key_match_bounds(vs: Seq<VariantV>, sel: Seq<char>)
    ensures
        first_key_match(vs, sel) matches Some(i) ==> 0 <= i < vs.len(),
    decreases vs.len(),
{
    if vs.len() > 0 {
        lemma_first_key_match_bounds(vs.drop_first(), sel);
    }
}

pub proof fn lemma_first_default_bounds(vs: Seq<VariantV>)
    ensures
        first_default(vs) matches Some(i) ==> 0 <= i < vs.len(),
    decreases vs.len(),
{
    if vs.len() > 0 {
        lemma_first_default_bounds(vs.drop_first());
    }
}

// ---------------------------------------------------------------------
// Resolution keeps the store free of references
// ---------------------------------------------------------------------

pub proof fn lemma_res_elems_free(en: EntriesV, st: RSt, es: Seq<ElemV>, fuel: nat)
    requires
        entries_args_free(en),
        store_free(st),
        args_free(es),
    ensures
        res_elems(en, st, es, fuel) matches Ok((s, out)) ==> store_free(s) && refs_free(out) && s.envs == st.envs,
    decreases fuel, es.len() + 2,
{
    lemma_res_list_free(en, st, es, fuel);
    if let Ok((s, out)) = res_list(en, st, es, fuel) {
        lemma_fold_refs_free(out);
    }
}

pub proof fn lemma_res_list_free(en: EntriesV, st: RSt, es: Seq<ElemV>, fuel: nat)
    requires
        entries_args_free(en),
        store_free(st),
        args_free(es),
    ensures
        res_list(en, st, es, fuel) matches Ok((s, out)) ==> store_free(s) && refs_free(out) && s.envs == st.envs,
    decreases fuel, es.len() + 1,
{
    if es.len() > 0 {
        lemma_res_list_free(en, st, es.drop_last(), fuel);
        if let Ok((st1, a)) = res_list(en, st, es.drop_last(), fuel) {
            lemma_res_elem_free(en, st1, es.last(), fuel);
            if let Ok((st2, b)) = res_elem(en, st1, es.last(), fuel) {
                lemma_refs_free_concat(a, b);
            }
        }
    }
}

pub proof fn lemma_res_elem_free(en: EntriesV, st: RSt, e: ElemV, fuel: nat)
    requires
        entries_args_free(en),
        store_free(st),
        elem_args_free(e),
    ensures
        res_elem(en, st, e, fuel) matches Ok((s, out)) ==> store_free(s) && refs_free(out) && s.envs == st.envs,
    decreases fuel, 0nat,
{
    if fuel > 0 {
        let f = (fuel - 1) as nat;
        match e {
            ElemV::VarRef(name) => {
                if st.envs.len() > 0 {
                    assert(env_free(st.envs[st.envs.len() - 1]));
                    lemma_gk_lookup_holds(st.envs.last(), name, |x: ElemV| elem_refs_free(x));
                }
                lemma_refs_free_single(var_binding(st.envs, name));
            },
            ElemV::Select { selector, variants } => {
                lemma_res_variants_free(en, st, variants, f);
                if let Ok((st1, vs)) = res_variants(en, st, variants, f) {
                    lemma_refs_free_single(ElemV::Select { selector, variants: vs });
                }
            },
            ElemV::MessageRef(name) => {
                lemma_res_message_free(en, st, name, f);
                if let Ok(st1) = res_message(en, st, name, f) {
                    lemma_gk_lookup_holds(st1.messages, name, |n: NamedV| refs_free(n.elements));
                }
            },
            ElemV::TermRef { name, attribute, args, positional } => {
                lemma_res_term_args_free(en, st, name, attribute, args, positional, f);
            },
            ElemV::AttributeRef { owner, name } => {
                lemma_res_attribute_free(en, st, flat_name(owner, name), f);
                if let Ok(st1) = res_attribute(en, st, flat_name(owner, name), f) {
                    lemma_gk_lookup_holds(st1.attributes, flat_name(owner, name), |a: AttrV| refs_free(a.elements));
                }
            },
            ElemV::TermAttrSelect { term, attr, variants } => {
                lemma_res_term_attr_select_free(en, st, term, attr, variants, f);
            },
            _ => {
                lemma_refs_free_single(e);
            },
        }
    }
}

pub proof fn lemma_res_variants_free(en: EntriesV, st: RSt, vs: Seq<VariantV>, fuel: nat)
    requires
        entries_args_free(en),
        store_free(st),
        variants_args_free(vs),
    ensures
        res_variants(en, st, vs, fuel) matches Ok((s, out)) ==> store_free(s) && variants_refs_free(out) && s.envs == st.envs,
    decreases fuel, vs.len(),
{
    if fuel > 0 && vs.len() > 0 {
        lemma_res_variants_free(en, st, vs.drop_last(), fuel);
        if let Ok((st1, a)) = res_variants(en, st, vs.drop_last(), fuel) {
            lemma_res_elems_free(en, st1, vs.last().elements, (fuel - 1) as nat);
            if let Ok((st2, r)) = res_elems(en, st1, vs.last().elements, (fuel - 1) as nat) {
                let nv = VariantV { key: vs.last().key, elements: r, default: vs.last().default };
                assert(a.push(nv).drop_last() =~= a);
            }
        }
    }
}

pub proof fn lemma_res_message_free(en: EntriesV, st: RSt, name: Seq<char>, fuel: nat)
    requires
        entries_args_free(en),
        store_free(st),
    ensures
        res_message(en, st, name, fuel) matches Ok(s) ==> store_free(s) && s.envs == st.envs,
    decreases fuel, 2nat,
{
    if fuel > 0 && gk_lookup(st.mstates, name) is None {
        lemma_gk_lookup_holds(en.messages, name, |n: NamedV| args_free(n.elements));
        if let Some(entry) = gk_lookup(en.messages, name) {
            let st1 = RSt {
                mstates: gk_insert(st.mstates, name, VisitState::Visiting),
                stack: st.stack.push((crate::ast::RefKind::Message, name)),
                ..st
            };
            lemma_res_elems_free(en, st1, entry.elements, (fuel - 1) as nat);
            if let Ok((st2, r)) = res_elems(en, st1, entry.elements, (fuel - 1) as nat) {
                lemma_gk_insert_holds(st2.messages, name, NamedV { name, elements: r }, |n: NamedV| refs_free(n.elements));
                crate::keyed::lemma_gk_insert_sorted(st2.messages, name, NamedV { name, elements: r });
            }
        }
    }
}

pub proof fn lemma_res_term_free(en: EntriesV, st: RSt, name: Seq<char>, fuel: nat)
    requires
        entries_args_free(en),
        store_free(st),
    ensures
        res_term(en, st, name, fuel) matches Ok(s) ==> store_free(s) && s.envs == st.envs,
    decreases fuel, 2nat,
{
    if fuel > 0 && gk_lookup(st.tstates, name) is None {
        lemma_gk_lookup_holds(en.terms, name, |n: NamedV| args_free(n.elements));
        if let Some(entry) = gk_lookup(en.terms, name) {
            let st1 = RSt {
                tstates: gk_insert(st.tstates, name, VisitState::Visiting),
                stack: st.stack.push((crate::ast::RefKind::Term, name)),
                ..st
            };
            lemma_res_elems_free(en, st1, entry.elements, (fuel - 1) as nat);
            if let Ok((st2, r)) = res_elems(en, st1, entry.elements, (fuel - 1) as nat) {
                lemma_gk_insert_holds(st2.terms, name, NamedV { name, elements: r }, |n: NamedV| refs_free(n.elements));
                crate::keyed::lemma_gk_insert_sorted(st2.terms, name, NamedV { name, elements: r });
            }
        }
    }
}

pub proof fn lemma_res_attribute_free(en: EntriesV, st: RSt, flat: Seq<char>, fuel: nat)
    requires
        entries_args_free(en),
        store_free(st),
    ensures
        res_attribute(en, st, flat, fuel) matches Ok(s) ==> store_free(s) && s.envs == st.envs,
    decreases fuel, 2nat,
{
    if fuel > 0 && gk_lookup(st.astates, flat) is None {
        lemma_gk_lookup_holds(en.attributes, flat, |a: AttrV| args_free(a.elements));
        if let Some(entry) = gk_lookup(en.attributes, flat) {
            let st1 = RSt { astates: gk_insert(st.astates, flat, VisitState::Visiting), ..st };
            lemma_res_elems_free(en, st1, entry.elements, (fuel - 1) as nat);
            if let Ok((st2, r)) = res_elems(en, st1, entry.elements, (fuel - 1) as nat) {
                lemma_gk_insert_holds(st2.attributes, flat, AttrV { owner: entry.owner, name: entry.name, elements: r },
                    |a: AttrV| refs_free(a.elements));
                crate::keyed::lemma_gk_insert_sorted(st2.attributes, flat,
                    AttrV { owner: entry.owner, name: entry.name, elements: r });
            }
        }
    }
}

pub proof fn lemma_res_term_attr_select_free(en: EntriesV, st: RSt, term: Seq<char>, attr: Seq<char>,
    vs: Seq<VariantV>, fuel: nat)
    requires
        entries_args_free(en),
        store_free(st),
        variants_args_free(vs),
    ensures
        res_term_attr_select(en, st, term, attr, vs, fuel) matches Ok((s, out)) ==> store_free(s) && refs_free(out) && s.envs == st.envs,
    decreases fuel, 2nat,
{
    if fuel > 0 {
        let f = (fuel - 1) as nat;
        lemma_res_attribute_free(en, st, flat_name(term, attr), f);
        if let Ok(st1) = res_attribute(en, st, flat_name(term, attr), f) {
            if let Some(a) = gk_lookup(st1.attributes, flat_name(term, attr)) {
                lemma_variants_args_free_index(vs);
                lemma_first_key_match_bounds(vs, texts_of(a.elements));
                lemma_first_default_bounds(vs);
                match first_key_match(vs, texts_of(a.elements)) {
                    Some(i) => {
                        lemma_res_elems_free(en, st1, vs[i].elements, f);
                    },
                    None => match first_default(vs) {
                        Some(i) => {
                            lemma_res_elems_free(en, st1, vs[i].elements, f);
                        },
                        None => {},
                    },
                }
            }
        }
    }
}

pub proof fn lemma_res_term_args_free(en: EntriesV, st: RSt, name: Seq<char>, attribute: Option<Seq<char>>,
    args: Seq<(Seq<char>, ElemV)>, positional: Seq<ElemV>, fuel: nat)
    requires
        entries_args_free(en),
        store_free(st),
        refs_free(positional),
        refs_free(arg_values(args)),
    ensures
        res_term_args(en, st, name, attribute, args, positional, fuel) matches Ok((s, out)) ==> store_free(s)
            && refs_free(out) && s.envs == st.envs,
    decreases fuel, 2nat,
{
    if fuel > 0 {
        let f = (fuel - 1) as nat;
        lemma_res_term_free(en, st, name, f);
        if let Ok(st1) = res_term(en, st, name, f) {
            lemma_gk_lookup_holds(st1.terms, name, |n: NamedV| refs_free(n.elements));
            let te = match gk_lookup(st1.terms, name) { Some(t) => t.elements, None => Seq::empty() };
            let tn = match gk_lookup(st1.terms, name) { Some(t) => t.name, None => Seq::empty() };
            lemma_refs_free_args_free(te);
            if let Ok(tp) = params_spec(te, "term '-"@ + tn + "'"@) {
                lemma_bind_positional_free(tp, positional);
                lemma_bind_named_free(bind_positional(tp, positional), args);
                let env = bind_named(bind_positional(tp, positional), args);
                lemma_push_env_free(st1, env);
                lemma_res_elems_free(en, push_env(st1, env), te, f);
                if let Ok((st3, resolved)) = res_elems(en, push_env(st1, env), te, f) {
                    assert(st3.envs.drop_last() =~= st1.envs);
                    lemma_pop_env_free(st3);
                    lemma_res_term_tail_free(en, pop_env(st3), name, attribute, resolved, fuel);
                }
            }
        }
    }
}

pub proof fn lemma_res_term_tail_free(en: EntriesV, st: RSt, name: Seq<char>, attribute: Option<Seq<char>>,
    resolved: Seq<ElemV>, fuel: nat)
    requires
        entries_args_free(en),
        store_free(st),
        refs_free(resolved),
    ensures
        res_term_tail(en, st, name, attribute, resolved, fuel) matches Ok((s, out)) ==> store_free(s)
            && refs_free(out) && s.envs == st.envs,
    decreases fuel, 1nat,
{
    if fuel > 0 {
        let f = (fuel - 1) as nat;
        if let Some(an) = attribute {
            lemma_res_attribute_free(en, st, flat_name(name, an), f);
            if let Ok(st5) = res_attribute(en, st, flat_name(name, an), f) {
                lemma_gk_lookup_holds(st5.attributes, flat_name(name, an), |a: AttrV| refs_free(a.elements));
                if let Some(a) = gk_lookup(st5.attributes, flat_name(name, an)) {
                    lemma_refs_free_args_free(a.elements);
                    lemma_push_env_free(st5, Seq::empty());
                    lemma_res_elems_free(en, push_env(st5, Seq::empty()), a.elements, f);
                    if let Ok((st7, ar)) = res_elems(en, push_env(st5, Seq::empty()), a.elements, f) {
                        assert(st7.envs.drop_last() =~= st5.envs);
                        lemma_pop_env_free(st7);
                    }
                }
            }
        }
    }
}

// ---------------------------------------------------------------------
// A whole locale
// ---------------------------------------------------------------------

pub proof fn lemma_res_all_messages_free(en: EntriesV, st: RSt, keys: Seq<Seq<char>>, fuel: nat)
    requires
        entries_args_free(en),
        store_free(st),
    ensures
        res_all_messages(en, st, keys, fuel) matches Ok(s) ==> store_free(s),
    decreases keys.len(),
{
    if keys.len() > 0 {
        lemma_res_all_messages_free(en, st, keys.drop_last(), fuel);
        if let Ok(s1) = res_all_messages(en, st, keys.drop_last(), fuel) {
            lemma_res_message_free(en, s1, keys.last(), fuel);
        }
    }
}

pub proof fn lemma_res_all_terms_free(en: EntriesV, st: RSt, keys: Seq<Seq<char>>, fuel: nat)
    requires
        entries_args_free(en),
        store_free(st),
    ensures
        res_all_terms(en, st, keys, fuel) matches Ok(s) ==> store_free(s),
    decreases keys.len(),
{
    if keys.len() > 0 {
        lemma_res_all_terms_free(en, st, keys.drop_last(), fuel);
        if let Ok(s1) = res_all_terms(en, st, keys.drop_last(), fuel) {
            lemma_res_term_free(en, s1, keys.last(), fuel);
        }
    }
}

pub proof fn lemma_res_all_attributes_free(en: EntriesV, st: RSt, keys: Seq<Seq<char>>, fuel: nat)
    requires
        entries_args_free(en),
        store_free(st),
    ensures
        res_all_attributes(en, st, keys, fuel) matches Ok(s) ==> store_free(s),
    decreases keys.len(),
{
    if keys.len() > 0 {
        lemma_res_all_attributes_free(en, st, keys.drop_last(), fuel);
        if let Ok(s1) = res_all_attributes(en, st, keys.drop_last(), fuel) {
            lemma_res_attribute_free(en, s1, keys.last(), fuel);
        }
    }
}

/// References are expanded when the code is generated: once a locale is
/// resolved, none of its messages, terms and attributes holds a message,
/// term or attribute reference (nor a select on a term attribute), and each
/// of them comes in ascending key order, provided the arguments its term
/// references pass hold no reference themselves.
pub proof fn lemma_resolution_leaves_no_references(en: EntriesV)
    requires
        entries_args_free(en),
    ensures
        resolve_locale_spec(en) matches Ok(r) ==> entries_refs_free(r) && entries_sorted(r),
{
    let f = resolution_fuel();
    assert(store_free(empty_rst()));
    lemma_res_all_messages_free(en, empty_rst(), keys_of(en.messages), f);
    if let Ok(s1) = res_all_messages(en, empty_rst(), keys_of(en.messages), f) {
        lemma_res_all_terms_free(en, s1, keys_of(en.terms), f);
        if let Ok(s2) = res_all_terms(en, s1, keys_of(en.terms), f) {
            lemma_res_all_attributes_free(en, s2, keys_of(en.attributes), f);
        }
    }
}

} // verus!
