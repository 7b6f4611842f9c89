//! The intermediate representation of FTL entries, and its mathematical model.
use vstd::prelude::*;
use crate::text::string_of;

verus! {

#[derive(Clone, Debug, PartialEq, Eq)]
pub struct Message {
    pub name: String,
    pub elements: Vec<Element>,
}

#[derive(Clone, Debug, PartialEq, Eq)]
pub struct Term {
    pub name: String,
    pub elements: Vec<Element>,
}

#[derive(Clone, Debug, PartialEq, Eq)]
pub struct Attribute {
    pub owner: String,
    pub name: String,
    pub elements: Vec<Element>,
}

/// The entries of one locale, each list keyed by name (attributes by their
/// flattened `owner__name`).
#[derive(Clone, Debug, PartialEq, Eq)]
pub struct LocaleEntries {
    pub messages: Vec<(String, Message)>,
    pub terms: Vec<(String, Term)>,
    pub attributes: Vec<(String, Attribute)>,
}

#[derive(Debug, PartialEq, Eq)]
pub enum Element {
    Text(String),
    VarRef(String),
    MessageRef(String),
    AttributeRef { owner: String, name: String },
    TermRef {
        name: String,
        attribute: Option<String>,
        /// Named arguments, keyed by argument name.
        args: Vec<(String, Element)>,
        positional: Vec<Element>,
    },
    /// Term attribute reference as select selector, resolved at compile time.
    TermAttrSelect { term: String, attr: String, variants: Vec<Variant> },
    Select { selector: String, variants: Vec<Variant> },
    /// Call to a registered built-in function like `NUMBER($x, ...)`.
    BuiltInCall {
        /// Function name in FTL (e.g. "NUMBER").
        func_name: String,
        /// The Rust type name (e.g. "Number").
        ty_name: String,
        /// The variable name being passed (e.g. "x" from $x).
        var_name: String,
        /// Named arguments: FTL camelCase name -> raw value as string.
        named_args: Vec<(String, String)>,
    },
}

#[derive(Debug, PartialEq, Eq)]
pub struct Variant {
    pub key: KeyType,
    pub elements: Vec<Element>,
    pub default: bool,
}

#[derive(Clone, Debug, PartialEq, Eq)]
pub enum KeyType {
    Ident(String),
    Num(String),
}

#[derive(Clone, Debug, PartialEq, Eq)]
pub enum ParamType {
    Str,
    Num,
    /// A registered built-in type (e.g. "Number", "DateTime").
    Builtin(String),
}

#[derive(Clone, Copy, Debug, PartialEq, Eq, Structural)]
pub enum RefKind {
    Message,
    Term,
    Attribute,
}

// ---------------------------------------------------------------------
// Mathematical model
// ---------------------------------------------------------------------

pub enum KeyV {
    Ident(Seq<char>),
    Num(Seq<char>),
}

pub struct VariantV {
    pub key: KeyV,
    pub elements: Seq<ElemV>,
    pub default: bool,
}

pub enum ElemV {
    Text(Seq<char>),
    VarRef(Seq<char>),
    MessageRef(Seq<char>),
    AttributeRef { owner: Seq<char>, name: Seq<char> },
    TermRef {
        name: Seq<char>,
        attribute: Option<Seq<char>>,
        args: Seq<(Seq<char>, ElemV)>,
        positional: Seq<ElemV>,
    },
    TermAttrSelect { term: Seq<char>, attr: Seq<char>, variants: Seq<VariantV> },
    Select { selector: Seq<char>, variants: Seq<VariantV> },
    BuiltInCall {
        func_name: Seq<char>,
        ty_name: Seq<char>,
        var_name: Seq<char>,
        named_args: Seq<(Seq<char>, Seq<char>)>,
    },
}

pub enum PT {
    Str,
    Num,
    Builtin(Seq<char>),
}

pub open spec fn pt_v(p: ParamType) -> PT {
    match p {
        ParamType::Str => PT::Str,
        ParamType::Num => PT::Num,
        ParamType::Builtin(s) => PT::Builtin(s@),
    }
}

/// The model of a parameter list: names and types.
pub open spec fn params_model(p: Seq<(String, ParamType)>) -> Seq<(Seq<char>, PT)> {
    crate::keyed::kv_map(p, |x: ParamType| pt_v(x))
}

pub open spec fn key_v(k: KeyType) -> KeyV {
    match k {
        KeyType::Ident(s) => KeyV::Ident(s@),
        KeyType::Num(s) => KeyV::Num(s@),
    }
}

pub open spec fn opt_str_v(o: Option<String>) -> Option<Seq<char>> {
    match o {
        Some(s) => Some(s@),
        None => None,
    }
}

pub open spec fn str_pairs_v(s: Seq<(String, String)>) -> Seq<(Seq<char>, Seq<char>)>
    decreases s.len(),
{
    if s.len() == 0 {
        Seq::empty()
    } else {
        str_pairs_v(s.drop_last()).push((s.last().0@, s.last().1@))
    }
}

pub open spec fn elem_v(e: Element) -> ElemV
    decreases e,
{
    match e {
        Element::Text(s) => ElemV::Text(s@),
        Element::VarRef(s) => ElemV::VarRef(s@),
        Element::MessageRef(s) => ElemV::MessageRef(s@),
        Element::AttributeRef { owner, name } => ElemV::AttributeRef { owner: owner@, name: name@ },
        Element::TermRef { name, attribute, args, positional } => ElemV::TermRef {
            name: name@,
            attribute: opt_str_v(attribute),
            args: args_v(args@),
            positional: elems_v(positional@),
        },
        Element::TermAttrSelect { term, attr, variants } => ElemV::TermAttrSelect {
            term: term@,
            attr: attr@,
            variants: variants_v(variants@),
        },
        Element::Select { selector, variants } => ElemV::Select {
            selector: selector@,
            variants: variants_v(variants@),
        },
        Element::BuiltInCall { func_name, ty_name, var_name, named_args } => ElemV::BuiltInCall {
            func_name: func_name@,
            ty_name: ty_name@,
            var_name: var_name@,
            named_args: str_pairs_v(named_args@),
        },
    }
}

pub open spec fn elems_v(s: Seq<Element>) -> Seq<ElemV>
    decreases s,
{
    if s.len() == 0 {
        Seq::empty()
    } else {
        elems_v(s.drop_last()).push(elem_v(s.last()))
    }
}

pub open spec fn args_v(s: Seq<(String, Element)>) -> Seq<(Seq<char>, ElemV)>
    decreases s,
{
    if s.len() == 0 {
        Seq::empty()
    } else {
        args_v(s.drop_last()).push((s.last().0@, elem_v(s.last().1)))
    }
}

pub open spec fn variants_v(s: Seq<Variant>) -> Seq<VariantV>
    decreases s,
{
    if s.len() == 0 {
        Seq::empty()
    } else {
        variants_v(s.drop_last()).push(variant_v(s.last()))
    }
}

pub open spec fn variant_v(v: Variant) -> VariantV
    decreases v,
{
    VariantV { key: key_v(v.key), elements: elems_v(v.elements@), default: v.default }
}

/// The model of a message or term: its name and its elements.
pub struct NamedV {
    pub name: Seq<char>,
    pub elements: Seq<ElemV>,
}

/// The model of an attribute.
pub struct AttrV {
    pub owner: Seq<char>,
    pub name: Seq<char>,
    pub elements: Seq<ElemV>,
}

/// The model of a locale's entries, each list keyed by name.
pub struct EntriesV {
    pub messages: Seq<(Seq<char>, NamedV)>,
    pub terms: Seq<(Seq<char>, NamedV)>,
    pub attributes: Seq<(Seq<char>, AttrV)>,
}

pub open spec fn message_v(m: Message) -> NamedV {
    NamedV { name: m.name@, elements: elems_v(m.elements@) }
}

pub open spec fn term_v(t: Term) -> NamedV {
    NamedV { name: t.name@, elements: elems_v(t.elements@) }
}

pub open spec fn attribute_v(a: Attribute) -> AttrV {
    AttrV { owner: a.owner@, name: a.name@, elements: elems_v(a.elements@) }
}

pub open spec fn entries_v(le: LocaleEntries) -> EntriesV {
    EntriesV {
        messages: crate::keyed::kv_map(le.messages@, |m: Message| message_v(m)),
        terms: crate::keyed::kv_map(le.terms@, |t: Term| term_v(t)),
        attributes: crate::keyed::kv_map(le.attributes@, |a: Attribute| attribute_v(a)),
    }
}

/// The model of an element-producing result.
pub open spec fn elem_result(r: Result<Element, String>) -> Result<ElemV, Seq<char>> {
    match r {
        Ok(e) => Ok(elem_v(e)),
        Err(m) => Err(m@),
    }
}

/// The model of an element-list-producing result.
pub open spec fn elems_result(r: Result<Vec<Element>, String>) -> Result<Seq<ElemV>, Seq<char>> {
    match r {
        Ok(es) => Ok(elems_v(es@)),
        Err(m) => Err(m@),
    }
}

/// `elems_v` of a concatenation.
pub proof fn lemma_elems_v_concat(a: Seq<Element>, b: Seq<Element>)
    ensures
        elems_v(a + b) == elems_v(a) + elems_v(b),
{
    lemma_elems_v(a);
    lemma_elems_v(b);
    lemma_elems_v(a + b);
    assert(elems_v(a + b) =~= elems_v(a) + elems_v(b));
}

/// `elems_v` of a pushed sequence.
pub proof fn lemma_elems_v_push(s: Seq<Element>, e: Element)
    ensures
        elems_v(s.push(e)) == elems_v(s).push(elem_v(e)),
{
    assert(s.push(e).drop_last() =~= s);
}

pub proof fn lemma_elems_v(s: Seq<Element>)
    ensures
        elems_v(s).len() == s.len(),
        forall|i: int| 0 <= i < s.len() ==> #[trigger] elems_v(s)[i] == elem_v(s[i]),
    decreases s.len(),
{
    if s.len() > 0 {
        lemma_elems_v(s.drop_last());
    }
}

pub proof fn lemma_variants_v(s: Seq<Variant>)
    ensures
        variants_v(s).len() == s.len(),
        forall|i: int| 0 <= i < s.len() ==> #[trigger] variants_v(s)[i] == variant_v(s[i]),
    decreases s.len(),
{
    if s.len() > 0 {
        lemma_variants_v(s.drop_last());
    }
}

pub proof fn lemma_args_v(s: Seq<(String, Element)>)
    ensures
        args_v(s).len() == s.len(),
        forall|i: int| 0 <= i < s.len() ==> #[trigger] args_v(s)[i] == (s[i].0@, elem_v(s[i].1)),
    decreases s.len(),
{
    if s.len() > 0 {
        lemma_args_v(s.drop_last());
    }
}

pub proof fn lemma_str_pairs_v(s: Seq<(String, String)>)
    ensures
        str_pairs_v(s).len() == s.len(),
        forall|i: int| 0 <= i < s.len() ==> #[trigger] str_pairs_v(s)[i] == (s[i].0@, s[i].1@),
    decreases s.len(),
{
    if s.len() > 0 {
        lemma_str_pairs_v(s.drop_last());
    }
}

/// Two element lists have the same model when their elements pairwise do.
pub proof fn lemma_elems_v_eq(a: Seq<Element>, b: Seq<Element>)
    requires
        a.len() == b.len(),
        forall|i: int| 0 <= i < a.len() ==> elem_v(#[trigger] a[i]) == elem_v(b[i]),
    ensures
        elems_v(a) == elems_v(b),
{
    lemma_elems_v(a);
    lemma_elems_v(b);
    assert(elems_v(a) =~= elems_v(b));
}

// ---------------------------------------------------------------------
// Copies with a known model
// ---------------------------------------------------------------------

pub fn copy_string(s: &String) -> (res: String)
    ensures
        res@ == s@,
{
    string_of(s.as_str())
}

pub fn copy_opt_string(s: &Option<String>) -> (res: Option<String>)
    ensures
        opt_str_v(res) == opt_str_v(*s),
{
    match s {
        Some(x) => Some(copy_string(x)),
        None => None,
    }
}

pub fn copy_key(k: &KeyType) -> (res: KeyType)
    ensures
        key_v(res) == key_v(*k),
{
    match k {
        KeyType::Ident(s) => KeyType::Ident(copy_string(s)),
        KeyType::Num(s) => KeyType::Num(copy_string(s)),
    }
}

pub fn copy_param_type(p: &ParamType) -> (res: ParamType)
    ensures
        pt_v(res) == pt_v(*p),
{
    match p {
        ParamType::Str => ParamType::Str,
        ParamType::Num => ParamType::Num,
        ParamType::Builtin(s) => ParamType::Builtin(copy_string(s)),
    }
}

pub fn copy_str_pairs(s: &Vec<(String, String)>) -> (res: Vec<(String, String)>)
    ensures
        str_pairs_v(res@) == str_pairs_v(s@),
{
    let mut out: Vec<(String, String)> = Vec::new();
    let mut i: usize = 0;
    while i < s.len()
        invariant
            i <= s@.len(),
            out@.len() == i,
            forall|j: int| 0 <= j < i ==> (#[trigger] out@[j]).0@ == s@[j].0@ && out@[j].1@ == s@[j].1@,
        decreases s@.len() - i,
    {
        out.push((copy_string(&s[i].0), copy_string(&s[i].1)));
        i += 1;
    }
    proof {
        lemma_str_pairs_v(out@);
        lemma_str_pairs_v(s@);
        assert(str_pairs_v(out@) =~= str_pairs_v(s@));
    }
    out
}

pub fn copy_elem(e: &Element) -> (res: Element)
    ensures
        elem_v(res) == elem_v(*e),
    decreases e,
{
    match e {
        Element::Text(s) => Element::Text(copy_string(s)),
        Element::VarRef(s) => Element::VarRef(copy_string(s)),
        Element::MessageRef(s) => Element::MessageRef(copy_string(s)),
        Element::AttributeRef { owner, name } => Element::AttributeRef {
            owner: copy_string(owner),
            name: copy_string(name),
        },
        Element::TermRef { name, attribute, args, positional } => Element::TermRef {
            name: copy_string(name),
            attribute: copy_opt_string(attribute),
            args: copy_args(args),
            positional: copy_elems(positional),
        },
        Element::TermAttrSelect { term, attr, variants } => Element::TermAttrSelect {
            term: copy_string(term),
            attr: copy_string(attr),
            variants: copy_variants(variants),
        },
        Element::Select { selector, variants } => Element::Select {
            selector: copy_string(selector),
            variants: copy_variants(variants),
        },
        Element::BuiltInCall { func_name, ty_name, var_name, named_args } => Element::BuiltInCall {
            func_name: copy_string(func_name),
            ty_name: copy_string(ty_name),
            var_name: copy_string(var_name),
            named_args: copy_str_pairs(named_args),
        },
    }
}

pub fn copy_elems(s: &Vec<Element>) -> (res: Vec<Element>)
    ensures
        elems_v(res@) == elems_v(s@),
    decreases s,
{
    let mut out: Vec<Element> = Vec::new();
    let mut i: usize = 0;
    while i < s.len()
        invariant
            i <= s@.len(),
            out@.len() == i,
            forall|j: int| 0 <= j < i ==> elem_v(#[trigger] out@[j]) == elem_v(s@[j]),
        decreases s@.len() - i,
    {
        proof {
            assert(decreases_to!(s => s@[i as int]));
        }
        out.push(copy_elem(&s[i]));
        i += 1;
    }
    proof {
        lemma_elems_v_eq(out@, s@);
    }
    out
}

pub fn copy_args(s: &Vec<(String, Element)>) -> (res: Vec<(String, Element)>)
    ensures
        args_v(res@) == args_v(s@),
    decreases s,
{
    let mut out: Vec<(String, Element)> = Vec::new();
    let mut i: usize = 0;
    while i < s.len()
        invariant
            i <= s@.len(),
            out@.len() == i,
            forall|j: int| 0 <= j < i ==> (#[trigger] out@[j]).0@ == s@[j].0@ && elem_v(out@[j].1) == elem_v(s@[j].1),
        decreases s@.len() - i,
    {
        proof {
            assert(decreases_to!(s => s@[i as int]));
            assert(decreases_to!(s@[i as int] => s@[i as int].1));
        }
        out.push((copy_string(&s[i].0), copy_elem(&s[i].1)));
        i += 1;
    }
    proof {
        lemma_args_v(out@);
        lemma_args_v(s@);
        assert(args_v(out@) =~= args_v(s@));
    }
    out
}

pub fn copy_variant(v: &Variant) -> (res: Variant)
    ensures
        variant_v(res) == variant_v(*v),
    decreases v,
{
    Variant { key: copy_key(&v.key), elements: copy_elems(&v.elements), default: v.default }
}

impl Clone for Element {
    fn clone(&self) -> (res: Self)
        ensures
            elem_v(res) == elem_v(*self),
    {
        copy_elem(self)
    }
}

impl Clone for Variant {
    fn clone(&self) -> (res: Self)
        ensures
            variant_v(res) == variant_v(*self),
    {
        copy_variant(self)
    }
}

pub fn copy_variants(s: &Vec<Variant>) -> (res: Vec<Variant>)
    ensures
        variants_v(res@) == variants_v(s@),
    decreases s,
{
    let mut out: Vec<Variant> = Vec::new();
    let mut i: usize = 0;
    while i < s.len()
        invariant
            i <= s@.len(),
            out@.len() == i,
            forall|j: int| 0 <= j < i ==> variant_v(#[trigger] out@[j]) == variant_v(s@[j]),
        decreases s@.len() - i,
    {
        proof {
            assert(decreases_to!(s => s@[i as int]));
        }
        out.push(copy_variant(&s[i]));
        i += 1;
    }
    proof {
        lemma_variants_v(out@);
        lemma_variants_v(s@);
        assert(variants_v(out@) =~= variants_v(s@));
    }
    out
}

}
