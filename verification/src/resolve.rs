//! Build-time resolution of references: message, term and attribute
//! references are replaced by the (resolved) elements they name, term
//! arguments are bound to the term's variables, and selects on term
//! attributes are decided. Each entry is resolved once; a reference back to
//! an entry being resolved is a cycle.
use vstd::prelude::*;
use crate::ast::{Attribute, AttrV, Element, ElemV, EntriesV, LocaleEntries, Message, NamedV, PT, RefKind,
    Term, Variant, VariantV, args_v, attribute_v, copy_elem, copy_elems, copy_string, elem_v, elems_v,
    entries_v, message_v, params_model, term_v, variant_v, variants_v};
use crate::convert::{first_default, first_key_match, flat_name, flatten_attr_name, fold_spec, fold_text,
    ref_prefix, ref_prefix_spec};
use crate::fmt::texts_of;
use crate::keyed::{gk_insert, gk_lookup, keyed_get, keyed_insert_exec, kv_map, lemma_kv_insert};
use crate::params::{params_spec, try_collect_params};
use crate::text::{push_str, string_of};

verus! {

#[derive(Clone, Copy, Debug, PartialEq, Eq, Structural)]
pub enum VisitState {
    Visiting,
    Done,
}

/// The model of the resolver's state.
pub struct RSt {
    pub messages: Seq<(Seq<char>, NamedV)>,
    pub terms: Seq<(Seq<char>, NamedV)>,
    pub attributes: Seq<(Seq<char>, AttrV)>,
    pub mstates: Seq<(Seq<char>, VisitState)>,
    pub tstates: Seq<(Seq<char>, VisitState)>,
    pub astates: Seq<(Seq<char>, VisitState)>,
    /// The messages and terms being resolved, outermost first.
    pub stack: Seq<(RefKind, Seq<char>)>,
    /// Bindings of term arguments, innermost last.
    pub envs: Seq<Seq<(Seq<char>, ElemV)>>,
}

pub open spec fn empty_rst() -> RSt {
    RSt {
        messages: Seq::empty(),
        terms: Seq::empty(),
        attributes: Seq::empty(),
        mstates: Seq::empty(),
        tstates: Seq::empty(),
        astates: Seq::empty(),
        stack: Seq::empty(),
        envs: Seq::empty(),
    }
}

pub open spec fn depth_msg() -> Seq<char> {
    "reference resolution nested too deeply"@
}

pub open spec fn unwrap_none_msg() -> Seq<char> {
    "called `Option::unwrap()` on a `None` value"@
}

pub open spec fn kind_word(k: RefKind) -> Seq<char> {
    match k {
        RefKind::Message => "message"@,
        RefKind::Term => "term"@,
        RefKind::Attribute => "attribute"@,
    }
}

/// `\n    - <prefix><name>` for each entry of the stack.
pub open spec fn stack_lines(stack: Seq<(RefKind, Seq<char>)>) -> Seq<char>
    decreases stack.len(),
{
    if stack.len() == 0 {
        Seq::empty()
    } else {
        stack_lines(stack.drop_last()) + "\n    - "@ + ref_prefix_spec(stack.last().0) + stack.last().1
    }
}

/// The report of a cycle: what was reached again, and the chain of
/// messages and terms being resolved.
pub open spec fn cycle_msg(kind: RefKind, name: Seq<char>, stack: Seq<(RefKind, Seq<char>)>) -> Seq<char> {
    "cyclic "@ + kind_word(kind) + " reference: "@ + ref_prefix_spec(kind) + name + "\n  resolution stack:"@
        + stack_lines(stack)
}

/// The part of a flattened attribute name before the first `__`.
pub open spec fn owner_of(s: Seq<char>) -> Seq<char>
    decreases s.len(),
{
    if s.len() < 2 {
        s
    } else if s[0] == '_' && s[1] == '_' {
        Seq::empty()
    } else {
        seq![s[0]] + owner_of(s.drop_first())
    }
}

pub open spec fn var_binding(envs: Seq<Seq<(Seq<char>, ElemV)>>, name: Seq<char>) -> ElemV {
    if envs.len() > 0 {
        match gk_lookup(envs.last(), name) {
            Some(b) => b,
            None => ElemV::VarRef(name),
        }
    } else {
        ElemV::VarRef(name)
    }
}

/// Positional arguments bound, in order, to the term's parameters (sorted
/// by name); extra positional arguments are dropped.
pub open spec fn bind_positional(names: Seq<(Seq<char>, PT)>, pos: Seq<ElemV>) -> Seq<(Seq<char>, ElemV)>
    decreases pos.len(),
{
    if pos.len() == 0 {
        Seq::empty()
    } else {
        let env = bind_positional(names, pos.drop_last());
        let i = pos.len() - 1;
        if i < names.len() { gk_insert(env, names[i].0, pos.last()) } else { env }
    }
}

/// Named arguments added to the bindings, replacing positional ones.
pub open spec fn bind_named(env: Seq<(Seq<char>, ElemV)>, args: Seq<(Seq<char>, ElemV)>) -> Seq<(Seq<char>, ElemV)>
    decreases args.len(),
{
    if args.len() == 0 {
        env
    } else {
        gk_insert(bind_named(env, args.drop_last()), args.last().0, args.last().1)
    }
}

pub open spec fn push_env(st: RSt, env: Seq<(Seq<char>, ElemV)>) -> RSt {
    RSt { envs: st.envs.push(env), ..st }
}

pub open spec fn pop_env(st: RSt) -> RSt {
    RSt { envs: st.envs.drop_last(), ..st }
}

/// Resolves message `name` unless done already.
pub open spec fn res_message(en: EntriesV, st: RSt, name: Seq<char>, fuel: nat) -> Result<RSt, Seq<char>>
    decreases fuel, 2nat,
{
    if fuel == 0 {
        Err(depth_msg())
    } else {
        match gk_lookup(st.mstates, name) {
            Some(VisitState::Visiting) => Err(cycle_msg(RefKind::Message, name, st.stack)),
            Some(VisitState::Done) => Ok(st),
            None => match gk_lookup(en.messages, name) {
                None => Err("undefined message reference: '"@ + name + "'"@),
                Some(entry) => {
                    let st1 = RSt {
                        mstates: gk_insert(st.mstates, name, VisitState::Visiting),
                        stack: st.stack.push((RefKind::Message, name)),
                        ..st
                    };
                    match res_elems(en, st1, entry.elements, (fuel - 1) as nat) {
                        Err(m) => Err(m),
                        Ok((st2, r)) => Ok(RSt {
                            stack: st2.stack.drop_last(),
                            mstates: gk_insert(st2.mstates, name, VisitState::Done),
                            messages: gk_insert(st2.messages, name, NamedV { name, elements: r }),
                            ..st2
                        }),
                    }
                },
            },
        }
    }
}

/// Resolves term `name` unless done already.
pub open spec fn res_term(en: EntriesV, st: RSt, name: Seq<char>, fuel: nat) -> Result<RSt, Seq<char>>
    decreases fuel, 2nat,
{
    if fuel == 0 {
        Err(depth_msg())
    } else {
        match gk_lookup(st.tstates, name) {
            Some(VisitState::Visiting) => Err(cycle_msg(RefKind::Term, name, st.stack)),
            Some(VisitState::Done) => Ok(st),
            None => match gk_lookup(en.terms, name) {
                None => Err("undefined term reference: '-"@ + name + "'"@),
                Some(entry) => {
                    let st1 = RSt {
                        tstates: gk_insert(st.tstates, name, VisitState::Visiting),
                        stack: st.stack.push((RefKind::Term, name)),
                        ..st
                    };
                    match res_elems(en, st1, entry.elements, (fuel - 1) as nat) {
                        Err(m) => Err(m),
                        Ok((st2, r)) => Ok(RSt {
                            stack: st2.stack.drop_last(),
                            tstates: gk_insert(st2.tstates, name, VisitState::Done),
                            terms: gk_insert(st2.terms, name, NamedV { name, elements: r }),
                            ..st2
                        }),
                    }
                },
            },
        }
    }
}

/// Resolves the attribute with flattened name `flat` unless done already.
pub open spec fn res_attribute(en: EntriesV, st: RSt, flat: Seq<char>, fuel: nat) -> Result<RSt, Seq<char>>
    decreases fuel, 2nat,
{
    if fuel == 0 {
        Err(depth_msg())
    } else {
        match gk_lookup(st.astates, flat) {
            Some(VisitState::Visiting) => Err(cycle_msg(RefKind::Attribute, owner_of(flat), st.stack)),
            Some(VisitState::Done) => Ok(st),
            None => match gk_lookup(en.attributes, flat) {
                None => Err("undefined attribute reference: '"@ + flat + "'"@),
                Some(entry) => {
                    let st1 = RSt { astates: gk_insert(st.astates, flat, VisitState::Visiting), ..st };
                    match res_elems(en, st1, entry.elements, (fuel - 1) as nat) {
                        Err(m) => Err(m),
                        Ok((st2, r)) => Ok(RSt {
                            astates: gk_insert(st2.astates, flat, VisitState::Done),
                            attributes: gk_insert(st2.attributes, flat,
                                AttrV { owner: entry.owner, name: entry.name, elements: r }),
                            ..st2
                        }),
                    }
                },
            },
        }
    }
}

/// The elements of a list, each resolved in turn, then folded.
pub open spec fn res_elems(en: EntriesV, st: RSt, es: Seq<ElemV>, fuel: nat) -> Result<(RSt, Seq<ElemV>), Seq<char>>
    decreases fuel, es.len() + 2,
{
    match res_list(en, st, es, fuel) {
        Err(m) => Err(m),
        Ok((s, out)) => Ok((s, fold_spec(out))),
    }
}

pub open spec fn res_list(en: EntriesV, st: RSt, es: Seq<ElemV>, fuel: nat) -> Result<(RSt, Seq<ElemV>), Seq<char>>
    decreases fuel, es.len() + 1,
{
    if es.len() == 0 {
        Ok((st, Seq::empty()))
    } else {
        match res_list(en, st, es.drop_last(), fuel) {
            Err(m) => Err(m),
            Ok((st1, a)) => match res_elem(en, st1, es.last(), fuel) {
                Err(m) => Err(m),
                Ok((st2, b)) => Ok((st2, a + b)),
            },
        }
    }
}

/// What one element resolves to.
pub open spec fn res_elem(en: EntriesV, st: RSt, e: ElemV, fuel: nat) -> Result<(RSt, Seq<ElemV>), Seq<char>>
    decreases fuel, 0nat,
{
    if fuel == 0 {
        Err(depth_msg())
    } else {
        let f = (fuel - 1) as nat;
        match e {
            ElemV::VarRef(name) => Ok((st, seq![var_binding(st.envs, name)])),
            ElemV::Select { selector, variants } => match res_variants(en, st, variants, f) {
                Err(m) => Err(m),
                Ok((st1, vs)) => Ok((st1, seq![ElemV::Select { selector, variants: vs }])),
            },
            ElemV::MessageRef(name) => match res_message(en, st, name, f) {
                Err(m) => Err(m),
                Ok(st1) => match gk_lookup(st1.messages, name) {
                    Some(m) => Ok((st1, m.elements)),
                    None => Err(unwrap_none_msg()),
                },
            },
            ElemV::TermRef { name, attribute, args, positional } =>
                res_term_args(en, st, name, attribute, args, positional, f),
            ElemV::AttributeRef { owner, name } => match res_attribute(en, st, flat_name(owner, name), f) {
                Err(m) => Err(m),
                Ok(st1) => match gk_lookup(st1.attributes, flat_name(owner, name)) {
                    Some(a) => Ok((st1, a.elements)),
                    None => Err(unwrap_none_msg()),
                },
            },
            ElemV::TermAttrSelect { term, attr, variants } => res_term_attr_select(en, st, term, attr, variants, f),
            _ => Ok((st, seq![e])),
        }
    }
}

/// Each variant's elements resolved in turn.
pub open spec fn res_variants(en: EntriesV, st: RSt, vs: Seq<VariantV>, fuel: nat)
    -> Result<(RSt, Seq<VariantV>), Seq<char>>
    decreases fuel, vs.len(),
{
    if fuel == 0 {
        Err(depth_msg())
    } else if vs.len() == 0 {
        Ok((st, Seq::empty()))
    } else {
        match res_variants(en, st, vs.drop_last(), fuel) {
            Err(m) => Err(m),
            Ok((st1, a)) => match res_elems(en, st1, vs.last().elements, (fuel - 1) as nat) {
                Err(m) => Err(m),
                Ok((st2, r)) => Ok((st2, a.push(VariantV { key: vs.last().key, elements: r, default: vs.last().default }))),
            },
        }
    }
}

/// A select on a term attribute: the attribute's text picks the variant
/// whose key equals it, else the default variant, else nothing.
pub open spec fn res_term_attr_select(en: EntriesV, st: RSt, term: Seq<char>, attr: Seq<char>, vs: Seq<VariantV>,
    fuel: nat) -> Result<(RSt, Seq<ElemV>), Seq<char>>
    decreases fuel, 2nat,
{
    if fuel == 0 {
        Err(depth_msg())
    } else {
        match res_attribute(en, st, flat_name(term, attr), (fuel - 1) as nat) {
            Err(m) => Err(m),
            Ok(st1) => match gk_lookup(st1.attributes, flat_name(term, attr)) {
                None => Err(unwrap_none_msg()),
                Some(a) => match first_key_match(vs, texts_of(a.elements)) {
                    Some(i) => res_elems(en, st1, vs[i].elements, (fuel - 1) as nat),
                    None => match first_default(vs) {
                        Some(i) => res_elems(en, st1, vs[i].elements, (fuel - 1) as nat),
                        None => Ok((st1, Seq::empty())),
                    },
                },
            },
        }
    }
}

/// A term reference expanded: the term's elements with its variables bound
/// to the arguments, or, when an attribute is named, that attribute's
/// elements.
pub open spec fn res_term_args(en: EntriesV, st: RSt, name: Seq<char>, attribute: Option<Seq<char>>,
    args: Seq<(Seq<char>, ElemV)>, positional: Seq<ElemV>, fuel: nat) -> Result<(RSt, Seq<ElemV>), Seq<char>>
    decreases fuel, 2nat,
{
    if fuel == 0 {
        Err(depth_msg())
    } else {
        let f = (fuel - 1) as nat;
        match res_term(en, st, name, f) {
            Err(m) => Err(m),
            Ok(st1) => {
                let te = match gk_lookup(st1.terms, name) { Some(t) => t.elements, None => Seq::empty() };
                let tn = match gk_lookup(st1.terms, name) { Some(t) => t.name, None => Seq::empty() };
                match params_spec(te, "term '-"@ + tn + "'"@) {
                    Err(m) => Err(m),
                    Ok(tp) => {
                        let env = bind_named(bind_positional(tp, positional), args);
                        match res_elems(en, push_env(st1, env), te, f) {
                            Err(m) => Err(m),
                            Ok((st3, resolved)) => res_term_tail(en, pop_env(st3), name, attribute, resolved, fuel),
                        }
                    },
                }
            },
        }
    }
}

/// The end of a term reference: when an attribute is named (and exists),
/// its elements, resolved with no bindings, replace the term's.
pub open spec fn res_term_tail(en: EntriesV, st: RSt, name: Seq<char>, attribute: Option<Seq<char>>,
    resolved: Seq<ElemV>, fuel: nat) -> Result<(RSt, Seq<ElemV>), Seq<char>>
    decreases fuel, 1nat,
{
    if fuel == 0 {
        Err(depth_msg())
    } else {
        let f = (fuel - 1) as nat;
        match attribute {
            None => Ok((st, resolved)),
            Some(an) => match res_attribute(en, st, flat_name(name, an), f) {
                Err(m) => Err(m),
                Ok(st5) => match gk_lookup(st5.attributes, flat_name(name, an)) {
                    None => Ok((st5, resolved)),
                    Some(a) => match res_elems(en, push_env(st5, Seq::empty()), a.elements, f) {
                        Err(m) => Err(m),
                        Ok((st7, ar)) => Ok((pop_env(st7), ar)),
                    },
                },
            },
        }
    }
}

pub open spec fn keys_of<W>(m: Seq<(Seq<char>, W)>) -> Seq<Seq<char>> {
    m.map_values(|p: (Seq<char>, W)| p.0)
}

/// Every message of `keys` resolved in turn.
pub open spec fn res_all_messages(en: EntriesV, st: RSt, keys: Seq<Seq<char>>, fuel: nat) -> Result<RSt, Seq<char>>
    decreases keys.len(),
{
    if keys.len() == 0 {
        Ok(st)
    } else {
        match res_all_messages(en, st, keys.drop_last(), fuel) {
            Err(m) => Err(m),
            Ok(s1) => res_message(en, s1, keys.last(), fuel),
        }
    }
}

/// Every term of `keys` resolved in turn.
pub open spec fn res_all_terms(en: EntriesV, st: RSt, keys: Seq<Seq<char>>, fuel: nat) -> Result<RSt, Seq<char>>
    decreases keys.len(),
{
    if keys.len() == 0 {
        Ok(st)
    } else {
        match res_all_terms(en, st, keys.drop_last(), fuel) {
            Err(m) => Err(m),
            Ok(s1) => res_term(en, s1, keys.last(), fuel),
        }
    }
}

/// Every attribute of `keys` resolved in turn.
pub open spec fn res_all_attributes(en: EntriesV, st: RSt, keys: Seq<Seq<char>>, fuel: nat) -> Result<RSt, Seq<char>>
    decreases keys.len(),
{
    if keys.len() == 0 {
        Ok(st)
    } else {
        match res_all_attributes(en, st, keys.drop_last(), fuel) {
            Err(m) => Err(m),
            Ok(s1) => res_attribute(en, s1, keys.last(), fuel),
        }
    }
}

/// The bound on the nesting of resolution.
pub open spec fn resolution_fuel() -> nat {
    u64::MAX as nat
}

/// A locale's entries with every reference resolved: all messages first
/// (in name order), then all terms, then all attributes, with one resolver
/// state throughout.
pub open spec fn resolve_locale_spec(en: EntriesV) -> Result<EntriesV, Seq<char>> {
    let f = resolution_fuel();
    match res_all_messages(en, empty_rst(), keys_of(en.messages), f) {
        Err(m) => Err(m),
        Ok(s1) => match res_all_terms(en, s1, keys_of(en.terms), f) {
            Err(m) => Err(m),
            Ok(s2) => match res_all_attributes(en, s2, keys_of(en.attributes), f) {
                Err(m) => Err(m),
                Ok(s3) => Ok(EntriesV { messages: s1.messages, terms: s2.terms, attributes: s3.attributes }),
            },
        },
    }
}

// ---------------------------------------------------------------------
// The resolver
// ---------------------------------------------------------------------

/// Resolution state of one locale.
pub struct Resolver {
    messages: Vec<(String, Message)>,
    terms: Vec<(String, Term)>,
    attributes: Vec<(String, Attribute)>,
    message_states: Vec<(String, VisitState)>,
    term_states: Vec<(String, VisitState)>,
    attribute_states: Vec<(String, VisitState)>,
    stack: Vec<(RefKind, String)>,
    env_stack: Vec<Vec<(String, Element)>>,
}

pub open spec fn states_v(s: Seq<(String, VisitState)>) -> Seq<(Seq<char>, VisitState)> {
    kv_map(s, |v: VisitState| v)
}

pub open spec fn stack_v(s: Seq<(RefKind, String)>) -> Seq<(RefKind, Seq<char>)> {
    s.map_values(|p: (RefKind, String)| (p.0, p.1@))
}

pub open spec fn envs_v(s: Seq<Vec<(String, Element)>>) -> Seq<Seq<(Seq<char>, ElemV)>> {
    s.map_values(|e: Vec<(String, Element)>| args_v(e@))
}

impl Resolver {
    pub closed spec fn model(&self) -> RSt {
        RSt {
            messages: kv_map(self.messages@, |m: Message| message_v(m)),
            terms: kv_map(self.terms@, |t: Term| term_v(t)),
            attributes: kv_map(self.attributes@, |a: Attribute| attribute_v(a)),
            mstates: states_v(self.message_states@),
            tstates: states_v(self.term_states@),
            astates: states_v(self.attribute_states@),
            stack: stack_v(self.stack@),
            envs: envs_v(self.env_stack@),
        }
    }
}

} // verus!

verus! {

pub open spec fn unit_res(r: Result<(), String>, st: RSt) -> Result<RSt, Seq<char>> {
    match r {
        Ok(()) => Ok(st),
        Err(m) => Err(m@),
    }
}

pub open spec fn out_res(r: Result<Vec<Element>, String>, st: RSt) -> Result<(RSt, Seq<ElemV>), Seq<char>> {
    match r {
        Ok(v) => Ok((st, elems_v(v@))),
        Err(m) => Err(m@),
    }
}

pub open spec fn vars_res(r: Result<Vec<Variant>, String>, st: RSt) -> Result<(RSt, Seq<VariantV>), Seq<char>> {
    match r {
        Ok(v) => Ok((st, variants_v(v@))),
        Err(m) => Err(m@),
    }
}

proof fn lemma_stack_push(s: Seq<(RefKind, String)>, x: (RefKind, String))
    ensures
        stack_v(s.push(x)) == stack_v(s).push((x.0, x.1@)),
{
    assert(stack_v(s.push(x)) =~= stack_v(s).push((x.0, x.1@)));
}

proof fn lemma_stack_pop(s: Seq<(RefKind, String)>)
    requires
        s.len() > 0,
    ensures
        stack_v(s.drop_last()) == stack_v(s).drop_last(),
{
    assert(stack_v(s.drop_last()) =~= stack_v(s).drop_last());
}

proof fn lemma_envs_push(s: Seq<Vec<(String, Element)>>, x: Vec<(String, Element)>)
    ensures
        envs_v(s.push(x)) == envs_v(s).push(args_v(x@)),
{
    assert(envs_v(s.push(x)) =~= envs_v(s).push(args_v(x@)));
}

proof fn lemma_envs_pop(s: Seq<Vec<(String, Element)>>)
    requires
        s.len() > 0,
    ensures
        envs_v(s.drop_last()) == envs_v(s).drop_last(),
{
    assert(envs_v(s.drop_last()) =~= envs_v(s).drop_last());
}

fn depth_error() -> (res: String)
    ensures
        res@ == depth_msg(),
{
    string_of("reference resolution nested too deeply")
}

fn unwrap_error() -> (res: String)
    ensures
        res@ == unwrap_none_msg(),
{
    string_of("called `Option::unwrap()` on a `None` value")
}

fn state_of(states: &Vec<(String, VisitState)>, name: &str) -> (res: Option<VisitState>)
    ensures
        res == gk_lookup(states_v(states@), name@),
{
    proof {
        crate::keyed::lemma_kv_lookup(states@, |v: VisitState| v, name@);
    }
    match keyed_get(states, name) {
        Some(v) => Some(*v),
        None => None,
    }
}

fn set_state(states: &mut Vec<(String, VisitState)>, name: &str, v: VisitState)
    ensures
        states_v(final(states)@) == gk_insert(states_v(old(states)@), name@, v),
{
    let k = string_of(name);
    proof {
        lemma_kv_insert(states@, |v: VisitState| v, k, v);
    }
    keyed_insert_exec(states, k, v);
}

/// The part of a flattened attribute name before the first `__`.
fn owner_part(s: &str) -> (res: String)
    ensures
        res@ == owner_of(s@),
{
    let cs = crate::text::chars_of(s);
    let mut out = String::new();
    let mut i: usize = 0;
    let ghost ss = s@;
    assert(ss.skip(0) =~= ss);
    while i < cs.len()
        invariant
            cs@ == ss,
            ss == s@,
            i <= cs.len(),
            out@ + owner_of(ss.skip(i as int)) == owner_of(ss),
        decreases cs.len() - i,
    {
        let ghost rest = ss.skip(i as int);
        if i + 1 < cs.len() && cs[i] == '_' && cs[i + 1] == '_' {
            assert(rest.len() >= 2);
            assert(rest[0] == '_' && rest[1] == '_');
            assert(owner_of(rest) =~= Seq::<char>::empty());
            assert(out@ =~= owner_of(ss));
            return out;
        }
        if i + 1 >= cs.len() {
            assert(rest.len() < 2);
            assert(out@ + ss.skip(i as int) =~= out@ + ss.skip(i as int));
            let ghost o = out@;
            crate::text::push_char(&mut out, cs[i]);
            assert(ss.skip(i + 1).len() == 0);
            assert(out@ + owner_of(ss.skip(i + 1)) =~= o + rest);
            i += 1;
        } else {
            assert(rest.drop_first() =~= ss.skip(i + 1));
            let ghost o = out@;
            crate::text::push_char(&mut out, cs[i]);
            assert(out@ + owner_of(ss.skip(i + 1)) =~= o + owner_of(rest));
            i += 1;
        }
    }
    assert(ss.skip(i as int).len() == 0);
    assert(out@ + owner_of(ss.skip(i as int)) =~= out@);
    out
}


/// The bindings of a term's variables: positional arguments to the
/// parameters in order, then named arguments.
fn build_env(tp: &Vec<(String, crate::ast::ParamType)>, positional: &Vec<Element>, args: &Vec<(String, Element)>)
    -> (env: Vec<(String, Element)>)
    ensures
        args_v(env@) == bind_named(bind_positional(params_model(tp@), elems_v(positional@)), args_v(args@)),
{
    let ghost pm = params_model(tp@);
    let ghost pv = elems_v(positional@);
    let ghost av = args_v(args@);
    proof {
        crate::ast::lemma_elems_v(positional@);
        crate::ast::lemma_args_v(args@);
        assert(pv.subrange(0, 0) =~= Seq::<ElemV>::empty());
        assert(av.subrange(0, 0) =~= Seq::<(Seq<char>, ElemV)>::empty());
    }
    let mut env: Vec<(String, Element)> = Vec::new();
    assert(args_v(env@) =~= Seq::<(Seq<char>, ElemV)>::empty());
    let mut i: usize = 0;
    while i < positional.len()
        invariant
            pm == params_model(tp@),
            pv == elems_v(positional@),
            pv.len() == positional@.len(),
            forall|j: int| 0 <= j < positional@.len() ==> #[trigger] pv[j] == elem_v(positional@[j]),
            i <= positional@.len(),
            args_v(env@) == bind_positional(pm, pv.subrange(0, i as int)),
        decreases positional@.len() - i,
    {
        assert(pv.subrange(0, i + 1).drop_last() =~= pv.subrange(0, i as int));
        if i < tp.len() {
            let k = copy_string(&tp[i].0);
            let v = copy_elem(&positional[i]);
            proof {
                crate::convert::lemma_args_kv(env@);
                lemma_kv_insert(env@, |e: Element| elem_v(e), k, v);
                crate::convert::lemma_args_kv(crate::keyed::keyed_insert(env@, k, v));
                assert(pm[i as int].0 == tp@[i as int].0@);
            }
            keyed_insert_exec(&mut env, k, v);
        }
        i += 1;
    }
    assert(pv.subrange(0, i as int) =~= pv);
    let ghost env1 = args_v(env@);
    let mut j: usize = 0;
    while j < args.len()
        invariant
            av == args_v(args@),
            av.len() == args@.len(),
            forall|x: int| 0 <= x < args@.len() ==> #[trigger] av[x] == (args@[x].0@, elem_v(args@[x].1)),
            j <= args@.len(),
            args_v(env@) == bind_named(env1, av.subrange(0, j as int)),
        decreases args@.len() - j,
    {
        assert(av.subrange(0, j + 1).drop_last() =~= av.subrange(0, j as int));
        let k = copy_string(&args[j].0);
        let v = copy_elem(&args[j].1);
        proof {
            crate::convert::lemma_args_kv(env@);
            lemma_kv_insert(env@, |e: Element| elem_v(e), k, v);
            crate::convert::lemma_args_kv(crate::keyed::keyed_insert(env@, k, v));
        }
        keyed_insert_exec(&mut env, k, v);
        j += 1;
    }
    assert(av.subrange(0, j as int) =~= av);
    env
}

fn single(e: Element) -> (res: Vec<Element>)
    ensures
        elems_v(res@) == seq![elem_v(e)],
{
    let v = vec![e];
    proof {
        crate::ast::lemma_elems_v(v@);
        assert(elems_v(v@) =~= seq![elem_v(e)]);
    }
    v
}

proof fn lemma_list_err(en: EntriesV, st: RSt, es: Seq<ElemV>, fuel: nat, n: int, m: Seq<char>)
    requires
        0 <= n <= es.len(),
        res_list(en, st, es.subrange(0, n), fuel) is Err,
        res_list(en, st, es.subrange(0, n), fuel)->Err_0 == m,
    ensures
        res_elems(en, st, es, fuel) == Err::<(RSt, Seq<ElemV>), Seq<char>>(m),
    decreases es.len() - n,
{
    if n == es.len() {
        assert(es.subrange(0, n) =~= es);
    } else {
        assert(es.subrange(0, n + 1).drop_last() =~= es.subrange(0, n));
        lemma_list_err(en, st, es, fuel, n + 1, m);
    }
}

proof fn lemma_variants_res_err(en: EntriesV, st: RSt, vs: Seq<VariantV>, fuel: nat, n: int, m: Seq<char>)
    requires
        fuel > 0,
        0 <= n <= vs.len(),
        res_variants(en, st, vs.subrange(0, n), fuel) is Err,
        res_variants(en, st, vs.subrange(0, n), fuel)->Err_0 == m,
    ensures
        res_variants(en, st, vs, fuel) == Err::<(RSt, Seq<VariantV>), Seq<char>>(m),
    decreases vs.len() - n,
{
    if n == vs.len() {
        assert(vs.subrange(0, n) =~= vs);
    } else {
        assert(vs.subrange(0, n + 1).drop_last() =~= vs.subrange(0, n));
        lemma_variants_res_err(en, st, vs, fuel, n + 1, m);
    }
}

impl Resolver {
    /// A resolver with nothing resolved.
    pub fn new() -> (res: Resolver)
        ensures
            res.model() == empty_rst(),
    {
        let r = Resolver {
            messages: Vec::new(),
            terms: Vec::new(),
            attributes: Vec::new(),
            message_states: Vec::new(),
            term_states: Vec::new(),
            attribute_states: Vec::new(),
            stack: Vec::new(),
            env_stack: Vec::new(),
        };
        assert(r.model().messages =~= Seq::<(Seq<char>, NamedV)>::empty());
        assert(r.model().terms =~= Seq::<(Seq<char>, NamedV)>::empty());
        assert(r.model().attributes =~= Seq::<(Seq<char>, AttrV)>::empty());
        assert(r.model().mstates =~= Seq::<(Seq<char>, VisitState)>::empty());
        assert(r.model().tstates =~= Seq::<(Seq<char>, VisitState)>::empty());
        assert(r.model().astates =~= Seq::<(Seq<char>, VisitState)>::empty());
        assert(r.model().stack =~= Seq::<(RefKind, Seq<char>)>::empty());
        assert(r.model().envs =~= Seq::<Seq<(Seq<char>, ElemV)>>::empty());
        r
    }

    fn cycle_error(&self, kind: RefKind, name: &str) -> (res: String)
        ensures
            res@ == cycle_msg(kind, name@, self.model().stack),
    {
        let mut m = string_of("cyclic ");
        match kind {
            RefKind::Message => push_str(&mut m, "message"),
            RefKind::Term => push_str(&mut m, "term"),
            RefKind::Attribute => push_str(&mut m, "attribute"),
        }
        push_str(&mut m, " reference: ");
        push_str(&mut m, ref_prefix(kind));
        push_str(&mut m, name);
        push_str(&mut m, "\n  resolution stack:");
        let ghost head = m@;
        let ghost sv = self.model().stack;
        let mut i: usize = 0;
        assert(sv.subrange(0, 0) =~= Seq::<(RefKind, Seq<char>)>::empty());
        while i < self.stack.len()
            invariant
                sv == stack_v(self.stack@),
                sv.len() == self.stack@.len(),
                i <= self.stack@.len(),
                m@ == head + stack_lines(sv.subrange(0, i as int)),
            decreases self.stack@.len() - i,
        {
            let ghost before = m@;
            push_str(&mut m, "\n    - ");
            push_str(&mut m, ref_prefix(self.stack[i].0));
            push_str(&mut m, self.stack[i].1.as_str());
            assert(sv.subrange(0, i + 1).drop_last() =~= sv.subrange(0, i as int));
            assert(sv[i as int] == (self.stack@[i as int].0, self.stack@[i as int].1@));
            assert(m@ =~= head + stack_lines(sv.subrange(0, i + 1)));
            i += 1;
        }
        assert(sv.subrange(0, i as int) =~= sv);
        m
    }

    /// Resolves message `name` unless done already.
    fn resolve_message(&mut self, en: &LocaleEntries, name: &str, fuel: u64) -> (res: Result<(), String>)
        ensures
            res_message(entries_v(*en), old(self).model(), name@, fuel as nat) == unit_res(res, final(self).model()),
            res is Ok ==> final(self).model().stack == old(self).model().stack
                && final(self).model().envs == old(self).model().envs,
        decreases fuel, 2nat,
    {
        if fuel == 0 {
            return Err(depth_error());
        }
        match state_of(&self.message_states, name) {
            Some(VisitState::Visiting) => return Err(self.cycle_error(RefKind::Message, name)),
            Some(VisitState::Done) => return Ok(()),
            None => {},
        }
        proof {
            crate::keyed::lemma_kv_lookup(en.messages@, |m: Message| message_v(m), name@);
        }
        let entry = match keyed_get(&en.messages, name) {
            Some(e) => e,
            None => {
                let mut m = string_of("undefined message reference: '");
                push_str(&mut m, name);
                push_str(&mut m, "'");
                return Err(m);
            },
        };
        set_state(&mut self.message_states, name, VisitState::Visiting);
        let nm = string_of(name);
        proof {
            lemma_stack_push(self.stack@, (RefKind::Message, nm));
        }
        self.stack.push((RefKind::Message, nm));
        let resolved = match self.resolve_elements(en, &entry.elements, fuel - 1) {
            Ok(r) => r,
            Err(m) => return Err(m),
        };
        proof {
            lemma_stack_pop(self.stack@);
        }
        self.stack.pop();
        set_state(&mut self.message_states, name, VisitState::Done);
        let k = string_of(name);
        let msg = Message { name: string_of(name), elements: resolved };
        proof {
            lemma_kv_insert(self.messages@, |m: Message| message_v(m), k, msg);
        }
        keyed_insert_exec(&mut self.messages, k, msg);
        Ok(())
    }

    /// Resolves term `name` unless done already.
    fn resolve_term(&mut self, en: &LocaleEntries, name: &str, fuel: u64) -> (res: Result<(), String>)
        ensures
            res_term(entries_v(*en), old(self).model(), name@, fuel as nat) == unit_res(res, final(self).model()),
            res is Ok ==> final(self).model().stack == old(self).model().stack
                && final(self).model().envs == old(self).model().envs,
        decreases fuel, 2nat,
    {
        if fuel == 0 {
            return Err(depth_error());
        }
        match state_of(&self.term_states, name) {
            Some(VisitState::Visiting) => return Err(self.cycle_error(RefKind::Term, name)),
            Some(VisitState::Done) => return Ok(()),
            None => {},
        }
        proof {
            crate::keyed::lemma_kv_lookup(en.terms@, |t: Term| term_v(t), name@);
        }
        let entry = match keyed_get(&en.terms, name) {
            Some(e) => e,
            None => {
                let mut m = string_of("undefined term reference: '-");
                push_str(&mut m, name);
                push_str(&mut m, "'");
                return Err(m);
            },
        };
        set_state(&mut self.term_states, name, VisitState::Visiting);
        let nm = string_of(name);
        proof {
            lemma_stack_push(self.stack@, (RefKind::Term, nm));
        }
        self.stack.push((RefKind::Term, nm));
        let resolved = match self.resolve_elements(en, &entry.elements, fuel - 1) {
            Ok(r) => r,
            Err(m) => return Err(m),
        };
        proof {
            lemma_stack_pop(self.stack@);
        }
        self.stack.pop();
        set_state(&mut self.term_states, name, VisitState::Done);
        let k = string_of(name);
        let t = Term { name: string_of(name), elements: resolved };
        proof {
            lemma_kv_insert(self.terms@, |t: Term| term_v(t), k, t);
        }
        keyed_insert_exec(&mut self.terms, k, t);
        Ok(())
    }

    /// Resolves the attribute with flattened name `flat` unless done already.
    fn resolve_attribute(&mut self, en: &LocaleEntries, flat: &str, fuel: u64) -> (res: Result<(), String>)
        ensures
            res_attribute(entries_v(*en), old(self).model(), flat@, fuel as nat) == unit_res(res, final(self).model()),
            res is Ok ==> final(self).model().stack == old(self).model().stack
                && final(self).model().envs == old(self).model().envs,
        decreases fuel, 2nat,
    {
        if fuel == 0 {
            return Err(depth_error());
        }
        match state_of(&self.attribute_states, flat) {
            Some(VisitState::Visiting) => {
                let owner = owner_part(flat);
                return Err(self.cycle_error(RefKind::Attribute, owner.as_str()));
            },
            Some(VisitState::Done) => return Ok(()),
            None => {},
        }
        proof {
            crate::keyed::lemma_kv_lookup(en.attributes@, |a: Attribute| attribute_v(a), flat@);
        }
        let entry = match keyed_get(&en.attributes, flat) {
            Some(e) => e,
            None => {
                let mut m = string_of("undefined attribute reference: '");
                push_str(&mut m, flat);
                push_str(&mut m, "'");
                return Err(m);
            },
        };
        set_state(&mut self.attribute_states, flat, VisitState::Visiting);
        let resolved = match self.resolve_elements(en, &entry.elements, fuel - 1) {
            Ok(r) => r,
            Err(m) => return Err(m),
        };
        set_state(&mut self.attribute_states, flat, VisitState::Done);
        let k = string_of(flat);
        let a = Attribute { owner: copy_string(&entry.owner), name: copy_string(&entry.name), elements: resolved };
        proof {
            lemma_kv_insert(self.attributes@, |a: Attribute| attribute_v(a), k, a);
        }
        keyed_insert_exec(&mut self.attributes, k, a);
        Ok(())
    }

    /// Resolves each element in turn, then folds adjacent texts.
    fn resolve_elements(&mut self, en: &LocaleEntries, elements: &Vec<Element>, fuel: u64) -> (res: Result<Vec<Element>, String>)
        ensures
            res_elems(entries_v(*en), old(self).model(), elems_v(elements@), fuel as nat) == out_res(res, final(self).model()),
            res is Ok ==> final(self).model().stack == old(self).model().stack
                && final(self).model().envs == old(self).model().envs,
        decreases fuel, 1nat,
    {
        let ghost env = entries_v(*en);
        let ghost es = elems_v(elements@);
        let ghost st0 = self.model();
        proof {
            crate::ast::lemma_elems_v(elements@);
            assert(es.subrange(0, 0) =~= Seq::<ElemV>::empty());
            assert(elems_v(Seq::<Element>::empty()) =~= Seq::<ElemV>::empty());
        }
        let mut out: Vec<Element> = Vec::new();
        let mut i: usize = 0;
        while i < elements.len()
            invariant
                env == entries_v(*en),
                es == elems_v(elements@),
                es.len() == elements@.len(),
                forall|j: int| 0 <= j < elements@.len() ==> #[trigger] es[j] == elem_v(elements@[j]),
                st0 == old(self).model(),
                self.model().stack == st0.stack,
                self.model().envs == st0.envs,
                i <= elements@.len(),
                res_list(env, st0, es.subrange(0, i as int), fuel as nat) == Ok::<(RSt, Seq<ElemV>), Seq<char>>((self.model(), elems_v(out@))),
            decreases elements@.len() - i,
        {
            proof {
                assert(es.subrange(0, i + 1).drop_last() =~= es.subrange(0, i as int));
                assert(es.subrange(0, i + 1).last() == elem_v(elements@[i as int]));
            }
            match self.resolve_element(en, &elements[i], fuel) {
                Ok(v) => {
                    let mut v = v;
                    proof {
                        crate::ast::lemma_elems_v_concat(out@, v@);
                    }
                    out.append(&mut v);
                },
                Err(m) => {
                    proof {
                        lemma_list_err(env, st0, es, fuel as nat, i as int + 1, m@);
                    }
                    return Err(m);
                },
            }
            i += 1;
        }
        assert(es.subrange(0, i as int) =~= es);
        Ok(fold_text(out))
    }

    /// What one element resolves to.
    fn resolve_element(&mut self, en: &LocaleEntries, e: &Element, fuel: u64) -> (res: Result<Vec<Element>, String>)
        ensures
            res_elem(entries_v(*en), old(self).model(), elem_v(*e), fuel as nat) == out_res(res, final(self).model()),
            res is Ok ==> final(self).model().stack == old(self).model().stack
                && final(self).model().envs == old(self).model().envs,
        decreases fuel, 0nat,
    {
        if fuel == 0 {
            return Err(depth_error());
        }
        match e {
            Element::VarRef(name) => {
                let b = self.binding(name);
                let v = vec![b];
                proof {
                    assert(v@ =~= seq![b]);
                    crate::ast::lemma_elems_v_push(Seq::<Element>::empty(), b);
                    assert(Seq::<Element>::empty().push(b) =~= v@);
                    assert(elems_v(Seq::<Element>::empty()) =~= Seq::<ElemV>::empty());
                }
                Ok(v)
            },
            Element::Select { selector, variants } => {
                let vs = match self.resolve_variants(en, variants, fuel - 1) {
                    Ok(vs) => vs,
                    Err(m) => return Err(m),
                };
                let s = Element::Select { selector: copy_string(selector), variants: vs };
                Ok(single(s))
            },
            Element::MessageRef(name) => {
                match self.resolve_message(en, name.as_str(), fuel - 1) {
                    Ok(()) => {},
                    Err(m) => return Err(m),
                }
                proof {
                    crate::keyed::lemma_kv_lookup(self.messages@, |m: Message| message_v(m), name@);
                }
                match keyed_get(&self.messages, name.as_str()) {
                    Some(m) => Ok(copy_elems(&m.elements)),
                    None => Err(unwrap_error()),
                }
            },
            Element::TermRef { name, attribute, args, positional } =>
                self.resolve_term_with_args(en, name, attribute, args, positional, fuel - 1),
            Element::AttributeRef { owner, name } => {
                let flat = flatten_attr_name(owner.as_str(), name.as_str());
                match self.resolve_attribute(en, flat.as_str(), fuel - 1) {
                    Ok(()) => {},
                    Err(m) => return Err(m),
                }
                proof {
                    crate::keyed::lemma_kv_lookup(self.attributes@, |a: Attribute| attribute_v(a), flat@);
                }
                match keyed_get(&self.attributes, flat.as_str()) {
                    Some(a) => Ok(copy_elems(&a.elements)),
                    None => Err(unwrap_error()),
                }
            },
            Element::TermAttrSelect { term, attr, variants } =>
                self.resolve_term_attr_select(en, term, attr, variants, fuel - 1),
            _ => Ok(single(copy_elem(e))),
        }
    }

    /// The element bound to variable `name` by the innermost term
    /// arguments, or the variable itself.
    fn binding(&self, name: &String) -> (res: Element)
        ensures
            elem_v(res) == var_binding(self.model().envs, name@),
    {
        let n = self.env_stack.len();
        if n > 0 {
            let env = &self.env_stack[n - 1];
            proof {
                crate::convert::lemma_args_kv(env@);
                crate::keyed::lemma_kv_lookup(env@, |e: Element| elem_v(e), name@);
                assert(self.model().envs.last() == args_v(env@));
            }
            match keyed_get(env, name.as_str()) {
                Some(b) => copy_elem(b),
                None => Element::VarRef(copy_string(name)),
            }
        } else {
            Element::VarRef(copy_string(name))
        }
    }

    /// Each variant's elements resolved in turn.
    fn resolve_variants(&mut self, en: &LocaleEntries, variants: &Vec<Variant>, fuel: u64) -> (res: Result<Vec<Variant>, String>)
        ensures
            res_variants(entries_v(*en), old(self).model(), variants_v(variants@), fuel as nat) == vars_res(res, final(self).model()),
            res is Ok ==> final(self).model().stack == old(self).model().stack
                && final(self).model().envs == old(self).model().envs,
        decreases fuel, 2nat,
    {
        if fuel == 0 {
            return Err(depth_error());
        }
        let ghost env = entries_v(*en);
        let ghost vs = variants_v(variants@);
        let ghost st0 = self.model();
        proof {
            crate::ast::lemma_variants_v(variants@);
            assert(vs.subrange(0, 0) =~= Seq::<VariantV>::empty());
            assert(variants_v(Seq::<Variant>::empty()) =~= Seq::<VariantV>::empty());
        }
        let mut out: Vec<Variant> = Vec::new();
        let mut i: usize = 0;
        while i < variants.len()
            invariant
                env == entries_v(*en),
                vs == variants_v(variants@),
                vs.len() == variants@.len(),
                forall|j: int| 0 <= j < variants@.len() ==> #[trigger] vs[j] == variant_v(variants@[j]),
                st0 == old(self).model(),
                self.model().stack == st0.stack,
                self.model().envs == st0.envs,
                fuel > 0,
                i <= variants@.len(),
                res_variants(env, st0, vs.subrange(0, i as int), fuel as nat) == Ok::<(RSt, Seq<VariantV>), Seq<char>>((self.model(), variants_v(out@))),
            decreases variants@.len() - i,
        {
            proof {
                assert(vs.subrange(0, i + 1).drop_last() =~= vs.subrange(0, i as int));
                assert(vs.subrange(0, i + 1).last() == variant_v(variants@[i as int]));
            }
            match self.resolve_elements(en, &variants[i].elements, fuel - 1) {
                Ok(r) => {
                    let ghost rv = elems_v(r@);
                    let v = Variant { key: crate::ast::copy_key(&variants[i].key), elements: r, default: variants[i].default };
                    let ghost before = out@;
                    out.push(v);
                    proof {
                        assert(out@.drop_last() =~= before);
                        assert(variants_v(out@) == variants_v(before).push(variant_v(v)));
                    }
                },
                Err(m) => {
                    proof {
                        lemma_variants_res_err(env, st0, vs, fuel as nat, i as int + 1, m@);
                    }
                    return Err(m);
                },
            }
            i += 1;
        }
        assert(vs.subrange(0, i as int) =~= vs);
        Ok(out)
    }

    /// A select on a term attribute, decided by the attribute's text.
    fn resolve_term_attr_select(&mut self, en: &LocaleEntries, term: &String, attr: &String, variants: &Vec<Variant>,
        fuel: u64) -> (res: Result<Vec<Element>, String>)
        ensures
            res_term_attr_select(entries_v(*en), old(self).model(), term@, attr@, variants_v(variants@), fuel as nat)
                == out_res(res, final(self).model()),
            res is Ok ==> final(self).model().stack == old(self).model().stack
                && final(self).model().envs == old(self).model().envs,
        decreases fuel, 2nat,
    {
        if fuel == 0 {
            return Err(depth_error());
        }
        let flat = flatten_attr_name(term.as_str(), attr.as_str());
        match self.resolve_attribute(en, flat.as_str(), fuel - 1) {
            Ok(()) => {},
            Err(m) => return Err(m),
        }
        proof {
            crate::keyed::lemma_kv_lookup(self.attributes@, |a: Attribute| attribute_v(a), flat@);
            crate::ast::lemma_variants_v(variants@);
        }
        let text = match keyed_get(&self.attributes, flat.as_str()) {
            Some(a) => crate::fmt::texts(&a.elements),
            None => return Err(unwrap_error()),
        };
        match crate::convert::find_variant(variants, text.as_str()) {
            Some(i) => self.resolve_elements(en, &variants[i].elements, fuel - 1),
            None => match crate::convert::find_default(variants) {
                Some(i) => self.resolve_elements(en, &variants[i].elements, fuel - 1),
                None => {
                    proof {
                        assert(elems_v(Seq::<Element>::empty()) =~= Seq::<ElemV>::empty());
                    }
                    Ok(Vec::new())
                },
            },
        }
    }

    /// A term reference expanded with its arguments bound.
    fn resolve_term_with_args(&mut self, en: &LocaleEntries, name: &String, attribute: &Option<String>,
        args: &Vec<(String, Element)>, positional: &Vec<Element>, fuel: u64) -> (res: Result<Vec<Element>, String>)
        ensures
            res_term_args(entries_v(*en), old(self).model(), name@, crate::ast::opt_str_v(*attribute), args_v(args@),
                elems_v(positional@), fuel as nat) == out_res(res, final(self).model()),
            res is Ok ==> final(self).model().stack == old(self).model().stack
                && final(self).model().envs == old(self).model().envs,
        decreases fuel, 2nat,
    {
        if fuel == 0 {
            return Err(depth_error());
        }
        match self.resolve_term(en, name.as_str(), fuel - 1) {
            Ok(()) => {},
            Err(m) => return Err(m),
        }
        proof {
            crate::keyed::lemma_kv_lookup(self.terms@, |t: Term| term_v(t), name@);
        }
        let (te, tn) = match keyed_get(&self.terms, name.as_str()) {
            Some(t) => (copy_elems(&t.elements), copy_string(&t.name)),
            None => {
                let e: Vec<Element> = Vec::new();
                assert(elems_v(e@) =~= Seq::<ElemV>::empty());
                (e, String::new())
            },
        };
        let mut ctx = string_of("term '-");
        push_str(&mut ctx, tn.as_str());
        push_str(&mut ctx, "'");
        let tp = match try_collect_params(&te, ctx.as_str()) {
            Ok(tp) => tp,
            Err(m) => return Err(m),
        };
        let env = build_env(&tp, positional, args);
        proof {
            lemma_envs_push(self.env_stack@, env);
        }
        self.env_stack.push(env);
        let resolved = match self.resolve_elements(en, &te, fuel - 1) {
            Ok(r) => r,
            Err(m) => return Err(m),
        };
        proof {
            lemma_envs_pop(self.env_stack@);
        }
        self.env_stack.pop();
        self.resolve_term_tail(en, name, attribute, resolved, fuel)
    }

    /// The attribute part of a term reference.
    fn resolve_term_tail(&mut self, en: &LocaleEntries, name: &String, attribute: &Option<String>,
        resolved: Vec<Element>, fuel: u64) -> (res: Result<Vec<Element>, String>)
        ensures
            res_term_tail(entries_v(*en), old(self).model(), name@, crate::ast::opt_str_v(*attribute),
                elems_v(resolved@), fuel as nat) == out_res(res, final(self).model()),
            res is Ok ==> final(self).model().stack == old(self).model().stack
                && final(self).model().envs == old(self).model().envs,
        decreases fuel, 1nat,
    {
        if fuel == 0 {
            return Err(depth_error());
        }
        match attribute {
            None => Ok(resolved),
            Some(an) => {
                let flat = flatten_attr_name(name.as_str(), an.as_str());
                match self.resolve_attribute(en, flat.as_str(), fuel - 1) {
                    Ok(()) => {},
                    Err(m) => return Err(m),
                }
                proof {
                    crate::keyed::lemma_kv_lookup(self.attributes@, |a: Attribute| attribute_v(a), flat@);
                }
                let ae = match keyed_get(&self.attributes, flat.as_str()) {
                    Some(a) => copy_elems(&a.elements),
                    None => return Ok(resolved),
                };
                let empty: Vec<(String, Element)> = Vec::new();
                proof {
                    lemma_envs_push(self.env_stack@, empty);
                    assert(args_v(empty@) =~= Seq::<(Seq<char>, ElemV)>::empty());
                }
                self.env_stack.push(empty);
                let ar = match self.resolve_elements(en, &ae, fuel - 1) {
                    Ok(r) => r,
                    Err(m) => return Err(m),
                };
                proof {
                    lemma_envs_pop(self.env_stack@);
                }
                self.env_stack.pop();
                Ok(ar)
            },
        }
    }
}

} // verus!

verus! {

fn copy_messages(v: &Vec<(String, Message)>) -> (res: Vec<(String, Message)>)
    ensures
        kv_map(res@, |m: Message| message_v(m)) == kv_map(v@, |m: Message| message_v(m)),
{
    let mut out: Vec<(String, Message)> = Vec::new();
    let mut i: usize = 0;
    while i < v.len()
        invariant
            i <= v@.len(),
            out@.len() == i,
            forall|j: int| 0 <= j < i ==> (#[trigger] out@[j]).0@ == v@[j].0@ && message_v(out@[j].1) == message_v(v@[j].1),
        decreases v@.len() - i,
    {
        out.push((copy_string(&v[i].0), Message { name: copy_string(&v[i].1.name), elements: copy_elems(&v[i].1.elements) }));
        i += 1;
    }
    assert(kv_map(out@, |m: Message| message_v(m)) =~= kv_map(v@, |m: Message| message_v(m)));
    out
}

fn copy_terms(v: &Vec<(String, Term)>) -> (res: Vec<(String, Term)>)
    ensures
        kv_map(res@, |t: Term| term_v(t)) == kv_map(v@, |t: Term| term_v(t)),
{
    let mut out: Vec<(String, Term)> = Vec::new();
    let mut i: usize = 0;
    while i < v.len()
        invariant
            i <= v@.len(),
            out@.len() == i,
            forall|j: int| 0 <= j < i ==> (#[trigger] out@[j]).0@ == v@[j].0@ && term_v(out@[j].1) == term_v(v@[j].1),
        decreases v@.len() - i,
    {
        out.push((copy_string(&v[i].0), Term { name: copy_string(&v[i].1.name), elements: copy_elems(&v[i].1.elements) }));
        i += 1;
    }
    assert(kv_map(out@, |t: Term| term_v(t)) =~= kv_map(v@, |t: Term| term_v(t)));
    out
}

fn copy_attributes(v: &Vec<(String, Attribute)>) -> (res: Vec<(String, Attribute)>)
    ensures
        kv_map(res@, |a: Attribute| attribute_v(a)) == kv_map(v@, |a: Attribute| attribute_v(a)),
{
    let mut out: Vec<(String, Attribute)> = Vec::new();
    let mut i: usize = 0;
    while i < v.len()
        invariant
            i <= v@.len(),
            out@.len() == i,
            forall|j: int| 0 <= j < i ==> (#[trigger] out@[j]).0@ == v@[j].0@ && attribute_v(out@[j].1) == attribute_v(v@[j].1),
        decreases v@.len() - i,
    {
        let a = &v[i].1;
        out.push((copy_string(&v[i].0), Attribute { owner: copy_string(&a.owner), name: copy_string(&a.name),
            elements: copy_elems(&a.elements) }));
        i += 1;
    }
    assert(kv_map(out@, |a: Attribute| attribute_v(a)) =~= kv_map(v@, |a: Attribute| attribute_v(a)));
    out
}

proof fn lemma_all_messages_err(en: EntriesV, st: RSt, keys: Seq<Seq<char>>, f: nat, n: int, m: Seq<char>)
    requires
        0 <= n <= keys.len(),
        res_all_messages(en, st, keys.subrange(0, n), f) == Err::<RSt, Seq<char>>(m),
    ensures
        res_all_messages(en, st, keys, f) == Err::<RSt, Seq<char>>(m),
    decreases keys.len() - n,
{
    if n == keys.len() {
        assert(keys.subrange(0, n) =~= keys);
    } else {
        assert(keys.subrange(0, n + 1).drop_last() =~= keys.subrange(0, n));
        lemma_all_messages_err(en, st, keys, f, n + 1, m);
    }
}

proof fn lemma_all_terms_err(en: EntriesV, st: RSt, keys: Seq<Seq<char>>, f: nat, n: int, m: Seq<char>)
    requires
        0 <= n <= keys.len(),
        res_all_terms(en, st, keys.subrange(0, n), f) == Err::<RSt, Seq<char>>(m),
    ensures
        res_all_terms(en, st, keys, f) == Err::<RSt, Seq<char>>(m),
    decreases keys.len() - n,
{
    if n == keys.len() {
        assert(keys.subrange(0, n) =~= keys);
    } else {
        assert(keys.subrange(0, n + 1).drop_last() =~= keys.subrange(0, n));
        lemma_all_terms_err(en, st, keys, f, n + 1, m);
    }
}

proof fn lemma_all_attributes_err(en: EntriesV, st: RSt, keys: Seq<Seq<char>>, f: nat, n: int, m: Seq<char>)
    requires
        0 <= n <= keys.len(),
        res_all_attributes(en, st, keys.subrange(0, n), f) == Err::<RSt, Seq<char>>(m),
    ensures
        res_all_attributes(en, st, keys, f) == Err::<RSt, Seq<char>>(m),
    decreases keys.len() - n,
{
    if n == keys.len() {
        assert(keys.subrange(0, n) =~= keys);
    } else {
        assert(keys.subrange(0, n + 1).drop_last() =~= keys.subrange(0, n));
        lemma_all_attributes_err(en, st, keys, f, n + 1, m);
    }
}

impl Resolver {
    fn resolve_all_messages(&mut self, en: &LocaleEntries) -> (res: Result<(), String>)
        ensures
            res_all_messages(entries_v(*en), old(self).model(), keys_of(entries_v(*en).messages), resolution_fuel())
                == unit_res(res, final(self).model()),
    {
        let ghost env = entries_v(*en);
        let ghost keys = keys_of(env.messages);
        let ghost st0 = self.model();
        assert(keys.subrange(0, 0) =~= Seq::<Seq<char>>::empty());
        let mut i: usize = 0;
        while i < en.messages.len()
            invariant
                env == entries_v(*en),
                keys == keys_of(env.messages),
                keys.len() == en.messages@.len(),
                st0 == old(self).model(),
                i <= en.messages@.len(),
                res_all_messages(env, st0, keys.subrange(0, i as int), resolution_fuel()) == Ok::<RSt, Seq<char>>(self.model()),
            decreases en.messages@.len() - i,
        {
            assert(keys.subrange(0, i + 1).drop_last() =~= keys.subrange(0, i as int));
            assert(keys[i as int] == en.messages@[i as int].0@);
            match self.resolve_message(en, en.messages[i].0.as_str(), u64::MAX) {
                Ok(()) => {},
                Err(m) => {
                    proof {
                        lemma_all_messages_err(env, st0, keys, resolution_fuel(), i as int + 1, m@);
                    }
                    return Err(m);
                },
            }
            i += 1;
        }
        assert(keys.subrange(0, i as int) =~= keys);
        Ok(())
    }

    fn resolve_all_terms(&mut self, en: &LocaleEntries) -> (res: Result<(), String>)
        ensures
            res_all_terms(entries_v(*en), old(self).model(), keys_of(entries_v(*en).terms), resolution_fuel())
                == unit_res(res, final(self).model()),
    {
        let ghost env = entries_v(*en);
        let ghost keys = keys_of(env.terms);
        let ghost st0 = self.model();
        assert(keys.subrange(0, 0) =~= Seq::<Seq<char>>::empty());
        let mut i: usize = 0;
        while i < en.terms.len()
            invariant
                env == entries_v(*en),
                keys == keys_of(env.terms),
                keys.len() == en.terms@.len(),
                st0 == old(self).model(),
                i <= en.terms@.len(),
                res_all_terms(env, st0, keys.subrange(0, i as int), resolution_fuel()) == Ok::<RSt, Seq<char>>(self.model()),
            decreases en.terms@.len() - i,
        {
            assert(keys.subrange(0, i + 1).drop_last() =~= keys.subrange(0, i as int));
            assert(keys[i as int] == en.terms@[i as int].0@);
            match self.resolve_term(en, en.terms[i].0.as_str(), u64::MAX) {
                Ok(()) => {},
                Err(m) => {
                    proof {
                        lemma_all_terms_err(env, st0, keys, resolution_fuel(), i as int + 1, m@);
                    }
                    return Err(m);
                },
            }
            i += 1;
        }
        assert(keys.subrange(0, i as int) =~= keys);
        Ok(())
    }

    fn resolve_all_attributes(&mut self, en: &LocaleEntries) -> (res: Result<(), String>)
        ensures
            res_all_attributes(entries_v(*en), old(self).model(), keys_of(entries_v(*en).attributes), resolution_fuel())
                == unit_res(res, final(self).model()),
    {
        let ghost env = entries_v(*en);
        let ghost keys = keys_of(env.attributes);
        let ghost st0 = self.model();
        assert(keys.subrange(0, 0) =~= Seq::<Seq<char>>::empty());
        let mut i: usize = 0;
        while i < en.attributes.len()
            invariant
                env == entries_v(*en),
                keys == keys_of(env.attributes),
                keys.len() == en.attributes@.len(),
                st0 == old(self).model(),
                i <= en.attributes@.len(),
                res_all_attributes(env, st0, keys.subrange(0, i as int), resolution_fuel()) == Ok::<RSt, Seq<char>>(self.model()),
            decreases en.attributes@.len() - i,
        {
            assert(keys.subrange(0, i + 1).drop_last() =~= keys.subrange(0, i as int));
            assert(keys[i as int] == en.attributes@[i as int].0@);
            match self.resolve_attribute(en, en.attributes[i].0.as_str(), u64::MAX) {
                Ok(()) => {},
                Err(m) => {
                    proof {
                        lemma_all_attributes_err(env, st0, keys, resolution_fuel(), i as int + 1, m@);
                    }
                    return Err(m);
                },
            }
            i += 1;
        }
        assert(keys.subrange(0, i as int) =~= keys);
        Ok(())
    }
}

/// Resolves every message, term and attribute of a locale.
pub fn resolve_locale(en: &LocaleEntries) -> (res: Result<LocaleEntries, String>)
    ensures
        match res {
            Ok(le) => resolve_locale_spec(entries_v(*en)) == Ok::<EntriesV, Seq<char>>(entries_v(le)),
            Err(m) => resolve_locale_spec(entries_v(*en)) == Err::<EntriesV, Seq<char>>(m@),
        },
{
    let mut r = Resolver::new();
    match r.resolve_all_messages(en) {
        Ok(()) => {},
        Err(m) => return Err(m),
    }
    let messages = copy_messages(&r.messages);
    match r.resolve_all_terms(en) {
        Ok(()) => {},
        Err(m) => return Err(m),
    }
    let terms = copy_terms(&r.terms);
    match r.resolve_all_attributes(en) {
        Ok(()) => {},
        Err(m) => return Err(m),
    }
    let attributes = copy_attributes(&r.attributes);
    Ok(LocaleEntries { messages, terms, attributes })
}

} // verus!
