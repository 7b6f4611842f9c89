//! From the FTL syntax tree to the generator's elements: conversion of
//! patterns and expressions, text folding, attribute naming, and the
//! rendering of syntax errors.
use vstd::prelude::*;
use vstd::utf8::{decode_utf8, is_char_boundary, valid_utf8};
use vstd::string::StringSliceAdditionalSpecFns;
use crate::ast::{Attribute, AttrV, Element, ElemV, EntriesV, KeyType, KeyV, LocaleEntries, Message, NamedV,
    RefKind, Term, Variant, VariantV, args_v, copy_elem, copy_elems, copy_string, elem_result, elem_v, elems_v,
    entries_v, key_v, lemma_elems_v_push, opt_str_v, str_pairs_v, variant_v, variants_v};
use crate::builtin::{BuiltInFuncDef, def_v, defs_model};
use crate::keyed::{gk_insert, key_lookup, keyed_get, keyed_insert_exec, kv_map, lemma_kv_insert};
use crate::syntax::{FtlAttribute, FtlCallArguments, FtlEntry, FtlExpression, FtlInline, FtlNamedArgument,
    FtlPatternElement, FtlResource, FtlVariant, FtlVariantKey, inline_dbg, write_inline_dbg};
use crate::diag::Diag;
use crate::text::{dec_str, push_str, push_usize, seq_contains, str_contains, string_of};

verus! {

// ---------------------------------------------------------------------
// Text folding
// ---------------------------------------------------------------------

/// Adjacent texts merged and empty texts dropped, other elements kept in order.
pub open spec fn fold_spec(es: Seq<ElemV>) -> Seq<ElemV>
    decreases es.len(),
{
    if es.len() == 0 {
        Seq::empty()
    } else {
        let f = fold_spec(es.drop_last());
        match es.last() {
            ElemV::Text(s) => if s.len() == 0 {
                f
            } else if f.len() > 0 && f.last() is Text {
                f.drop_last().push(ElemV::Text(f.last()->Text_0 + s))
            } else {
                f.push(ElemV::Text(s))
            },
            e => f.push(e),
        }
    }
}

/// No text is empty and no two texts are adjacent.
pub open spec fn text_folded(es: Seq<ElemV>) -> bool {
    &&& forall|i: int| 0 <= i < es.len() && (#[trigger] es[i]) is Text ==> es[i]->Text_0.len() > 0
    &&& forall|i: int| 0 <= i < es.len() - 1 && (#[trigger] es[i]) is Text ==> !(es[i + 1] is Text)
}

/// Folding leaves no empty text and no two adjacent texts.
pub proof fn lemma_fold_text_folded(es: Seq<ElemV>)
    ensures
        text_folded(fold_spec(es)),
    decreases es.len(),
{
    if es.len() > 0 {
        lemma_fold_text_folded(es.drop_last());
        let f = fold_spec(es.drop_last());
        let r = fold_spec(es);
        match es.last() {
            ElemV::Text(s) => {
                if s.len() == 0 {
                } else if f.len() > 0 && f.last() is Text {
                    assert forall|i: int| 0 <= i < r.len() - 1 && (#[trigger] r[i]) is Text implies !(r[i + 1] is Text) by {
                        assert(r[i] == f[i]);
                        if i + 1 < r.len() - 1 {
                            assert(r[i + 1] == f[i + 1]);
                        }
                    }
                    assert forall|i: int| 0 <= i < r.len() && (#[trigger] r[i]) is Text implies r[i]->Text_0.len() > 0 by {
                        if i < r.len() - 1 {
                            assert(r[i] == f[i]);
                        }
                    }
                } else {
                    assert forall|i: int| 0 <= i < r.len() - 1 && (#[trigger] r[i]) is Text implies !(r[i + 1] is Text) by {
                        assert(r[i] == f[i]);
                        if i + 1 < r.len() - 1 {
                            assert(r[i + 1] == f[i + 1]);
                        }
                    }
                    assert forall|i: int| 0 <= i < r.len() && (#[trigger] r[i]) is Text implies r[i]->Text_0.len() > 0 by {
                        if i < r.len() - 1 {
                            assert(r[i] == f[i]);
                        }
                    }
                }
            },
            e => {
                assert forall|i: int| 0 <= i < r.len() - 1 && (#[trigger] r[i]) is Text implies !(r[i + 1] is Text) by {
                    assert(r[i] == f[i]);
                    if i + 1 < r.len() - 1 {
                        assert(r[i + 1] == f[i + 1]);
                    }
                }
                assert forall|i: int| 0 <= i < r.len() && (#[trigger] r[i]) is Text implies r[i]->Text_0.len() > 0 by {
                    if i < r.len() - 1 {
                        assert(r[i] == f[i]);
                    }
                }
            },
        }
    }
}

/// The elements with every text cut into texts of one character each.
pub open spec fn explode(es: Seq<ElemV>) -> Seq<ElemV>
    decreases es.len(),
{
    if es.len() == 0 {
        Seq::empty()
    } else {
        explode(es.drop_last()) + match es.last() {
            ElemV::Text(s) => Seq::new(s.len(), |i: int| ElemV::Text(seq![s[i]])),
            e => seq![e],
        }
    }
}

/// Folding loses, adds and reorders nothing: cut into single characters,
/// the folded elements are the elements given.
pub proof fn lemma_fold_keeps_content(es: Seq<ElemV>)
    ensures
        explode(fold_spec(es)) == explode(es),
    decreases es.len(),
{
    if es.len() > 0 {
        lemma_fold_keeps_content(es.drop_last());
        let f = fold_spec(es.drop_last());
        match es.last() {
            ElemV::Text(s) => {
                if s.len() == 0 {
                    assert(explode(es) =~= explode(es.drop_last()));
                } else if f.len() > 0 && f.last() is Text {
                    let t = f.last()->Text_0;
                    let r = f.drop_last().push(ElemV::Text(t + s));
                    assert(r.drop_last() =~= f.drop_last());
                    assert(Seq::new((t + s).len(), |i: int| ElemV::Text(seq![(t + s)[i]]))
                        =~= Seq::new(t.len(), |i: int| ElemV::Text(seq![t[i]]))
                            + Seq::new(s.len(), |i: int| ElemV::Text(seq![s[i]])));
                    assert(explode(r) =~= explode(f) + Seq::new(s.len(), |i: int| ElemV::Text(seq![s[i]])));
                } else {
                    assert(f.push(ElemV::Text(s)).drop_last() =~= f);
                }
            },
            e => {
                assert(f.push(e).drop_last() =~= f);
            },
        }
    }
}

/// Folding changes nothing that is folded already: folding twice is
/// folding once.
pub proof fn lemma_fold_idempotent(es: Seq<ElemV>)
    ensures
        fold_spec(fold_spec(es)) == fold_spec(es),
{
    lemma_fold_text_folded(es);
    lemma_fold_folded_fixed(fold_spec(es));
}

proof fn lemma_fold_folded_fixed(es: Seq<ElemV>)
    requires
        text_folded(es),
    ensures
        fold_spec(es) == es,
    decreases es.len(),
{
    if es.len() > 0 {
        let d = es.drop_last();
        assert forall|i: int| 0 <= i < d.len() - 1 && (#[trigger] d[i]) is Text implies !(d[i + 1] is Text) by {
            assert(d[i] == es[i]);
            assert(d[i + 1] == es[i + 1]);
        }
        assert forall|i: int| 0 <= i < d.len() && (#[trigger] d[i]) is Text implies d[i]->Text_0.len() > 0 by {
            assert(d[i] == es[i]);
        }
        lemma_fold_folded_fixed(d);
        if es.last() is Text && d.len() > 0 {
            assert(es[es.len() - 2] == d.last());
        }
        assert(d.push(es.last()) =~= es);
    }
}

fn is_text(e: &Element) -> (res: bool)
    ensures
        res == (elem_v(*e) is Text),
{
    match e {
        Element::Text(_) => true,
        _ => false,
    }
}

/// Merges adjacent text elements and drops empty ones.
pub fn fold_text(elems: Vec<Element>) -> (res: Vec<Element>)
    ensures
        elems_v(res@) == fold_spec(elems_v(elems@)),
{
    let ghost es = elems_v(elems@);
    proof {
        crate::ast::lemma_elems_v(elems@);
        assert(es.subrange(0, 0) =~= Seq::<ElemV>::empty());
    }
    let mut out: Vec<Element> = Vec::new();
    let mut i: usize = 0;
    while i < elems.len()
        invariant
            es == elems_v(elems@),
            es.len() == elems@.len(),
            forall|j: int| 0 <= j < elems@.len() ==> #[trigger] es[j] == elem_v(elems@[j]),
            i <= elems@.len(),
            elems_v(out@) == fold_spec(es.subrange(0, i as int)),
        decreases elems@.len() - i,
    {
        proof {
            assert(es.subrange(0, i + 1).drop_last() =~= es.subrange(0, i as int));
            assert(es.subrange(0, i + 1).last() == elem_v(elems@[i as int]));
            crate::ast::lemma_elems_v(out@);
        }
        match &elems[i] {
            Element::Text(s) => {
                if s.as_str().is_empty() {
                } else {
                    let n = out.len();
                    if n > 0 && is_text(&out[n - 1]) {
                        let ghost before = out@;
                        let last = out.pop().unwrap();
                        proof {
                            assert(before.drop_last() =~= out@);
                            assert(elems_v(before).drop_last() == elems_v(out@));
                        }
                        match last {
                            Element::Text(t) => {
                                let mut t = t;
                                push_str(&mut t, s.as_str());
                                proof {
                                    lemma_elems_v_push(out@, Element::Text(t));
                                }
                                out.push(Element::Text(t));
                            },
                            _ => {
                                proof {
                                    assert(false);
                                }
                            },
                        }
                    } else {
                        let t = copy_string(s);
                        proof {
                            lemma_elems_v_push(out@, Element::Text(t));
                        }
                        out.push(Element::Text(t));
                    }
                }
            },
            other => {
                let c = copy_elem(other);
                proof {
                    lemma_elems_v_push(out@, c);
                }
                out.push(c);
            },
        }
        i += 1;
    }
    assert(es.subrange(0, i as int) =~= es);
    out
}

/// The selector given to a select that stands for an inlined variant with
/// more than one element.
pub open spec fn collected_spec(es: Seq<ElemV>) -> ElemV {
    let f = fold_spec(es);
    if f.len() == 0 {
        ElemV::Text(Seq::empty())
    } else if f.len() == 1 {
        f[0]
    } else {
        ElemV::Select {
            selector: "_resolved_literal"@,
            variants: seq![VariantV { key: KeyV::Ident("other"@), elements: f, default: true }],
        }
    }
}

/// The elements of an inlined variant as one element: empty text when
/// there are none, the element itself when there is one, and otherwise a
/// select with a single default variant.
pub fn convert_collected(elems: Vec<Element>) -> (res: Element)
    ensures
        elem_v(res) == collected_spec(elems_v(elems@)),
{
    let mut folded = fold_text(elems);
    proof {
        crate::ast::lemma_elems_v(folded@);
    }
    if folded.len() == 0 {
        Element::Text(String::new())
    } else if folded.len() == 1 {
        folded.swap_remove(0)
    } else {
        let ghost fv = elems_v(folded@);
        let v = crate::ast::Variant {
            key: crate::ast::KeyType::Ident(string_of("other")),
            elements: folded,
            default: true,
        };
        assert(crate::ast::variant_v(v) == VariantV { key: KeyV::Ident("other"@), elements: fv, default: true });
        let vs = vec![v];
        proof {
            crate::ast::lemma_variants_v(vs@);
            assert(vs@[0] == v);
            assert(crate::ast::variants_v(vs@) =~= seq![crate::ast::variant_v(v)]);
        }
        Element::Select { selector: string_of("_resolved_literal"), variants: vs }
    }
}

// ---------------------------------------------------------------------
// Names
// ---------------------------------------------------------------------

/// The name of an attribute's function: `owner__name`.
pub open spec fn flat_name(owner: Seq<char>, name: Seq<char>) -> Seq<char> {
    owner + "__"@ + name
}

pub fn flatten_attr_name(owner: &str, name: &str) -> (res: String)
    ensures
        res@ == flat_name(owner@, name@),
{
    let mut s = string_of(owner);
    push_str(&mut s, "__");
    push_str(&mut s, name);
    s
}

/// How a reference of each kind is written: messages bare, terms with `-`,
/// attributes with `.`.
pub open spec fn ref_prefix_spec(kind: RefKind) -> Seq<char> {
    match kind {
        RefKind::Message => ""@,
        RefKind::Term => "-"@,
        RefKind::Attribute => "."@,
    }
}

pub fn ref_prefix(kind: RefKind) -> (res: &'static str)
    ensures
        res@ == ref_prefix_spec(kind),
{
    match kind {
        RefKind::Message => "",
        RefKind::Term => "-",
        RefKind::Attribute => ".",
    }
}

// ---------------------------------------------------------------------
// Positions in the source
// ---------------------------------------------------------------------

/// Number of newline bytes.
pub open spec fn nl_count(b: Seq<u8>) -> nat
    decreases b.len(),
{
    if b.len() == 0 {
        0
    } else {
        nl_count(b.drop_last()) + if b.last() == 10u8 { 1nat } else { 0nat }
    }
}

/// The 1-based line of a byte offset: one more than the newlines before it.
pub fn line_of(source: &str, offset: usize) -> (res: usize)
    requires
        is_char_boundary(source.spec_bytes(), offset as int),
        offset < usize::MAX,
    ensures
        res == nl_count(source.spec_bytes().subrange(0, offset as int)) + 1,
{
    let b = source.as_bytes();
    proof {
        vstd::utf8::encode_utf8_valid_utf8(source@);
        lemma_boundary_le_len(source.spec_bytes(), offset as int);
    }
    let mut count: usize = 0;
    let mut i: usize = 0;
    assert(b@.subrange(0, 0) =~= Seq::<u8>::empty());
    while i < offset
        invariant
            b@ == source.spec_bytes(),
            offset <= b@.len(),
            offset < usize::MAX,
            i <= offset,
            count == nl_count(b@.subrange(0, i as int)),
            count <= i,
        decreases offset - i,
    {
        assert(b@.subrange(0, i + 1).drop_last() =~= b@.subrange(0, i as int));
        if b[i] == 10u8 {
            count += 1;
        }
        i += 1;
    }
    count + 1
}

proof fn lemma_boundary_le_len(b: Seq<u8>, i: int)
    requires
        valid_utf8(b),
        is_char_boundary(b, i),
    ensures
        0 <= i <= b.len(),
    decreases b.len(),
{
    if i != 0 {
        if b.len() > 0 && 0 < i <= b.len() {
        } else {
            assert(!is_char_boundary(b, i));
        }
    }
}

/// The byte after an ASCII byte that starts a character starts a character.
proof fn lemma_after_ascii(b: Seq<u8>, p: int)
    requires
        valid_utf8(b),
        0 <= p < b.len(),
        is_char_boundary(b, p),
        b[p] <= 0x7f,
    ensures
        is_char_boundary(b, p + 1),
    decreases b.len(),
{
    reveal_with_fuel(is_char_boundary, 2);
    let l = vstd::utf8::length_of_first_scalar(b);
    let rest = vstd::utf8::pop_first_scalar(b);
    if p == 0 {
        assert(l == 1);
        assert(is_char_boundary(rest, 0));
    } else {
        assert(is_char_boundary(rest, p - l));
        assert(rest[p - l] == b[p]);
        lemma_after_ascii(rest, p - l);
    }
}

/// Index of the last newline byte before position `i`.
pub open spec fn last_nl_before(b: Seq<u8>, i: int) -> Option<int>
    decreases i,
{
    if i <= 0 {
        None
    } else if b[i - 1] == 10u8 {
        Some(i - 1)
    } else {
        last_nl_before(b, i - 1)
    }
}

/// Index of the first newline byte at or after position `i`.
pub open spec fn first_nl_from(b: Seq<u8>, i: int) -> Option<int>
    decreases b.len() - i,
{
    if i >= b.len() || i < 0 {
        None
    } else if b[i] == 10u8 {
        Some(i)
    } else {
        first_nl_from(b, i + 1)
    }
}

/// Start of the line holding byte `i`.
pub open spec fn bol_spec(b: Seq<u8>, i: int) -> int {
    match last_nl_before(b, i) {
        Some(p) => p + 1,
        None => 0,
    }
}

/// End of the line holding byte `i` (its newline, or the end of input).
pub open spec fn eol_spec(b: Seq<u8>, i: int) -> int {
    match first_nl_from(b, i) {
        Some(p) => p,
        None => b.len() as int,
    }
}

/// `s` right-aligned in a field of `width` characters.
pub open spec fn pad_left(s: Seq<char>, width: nat) -> Seq<char> {
    if s.len() >= width { s } else { Seq::new((width - s.len()) as nat, |i: int| ' ') + s }
}

pub open spec fn carets(n: nat) -> Seq<char> {
    Seq::new(n, |i: int| '^')
}

/// The help added to a syntax error about comments.
pub open spec fn comment_hint() -> Seq<char> {
    "\n   = help: FTL comments must start with \"# \" (hash followed by a space)"@
}

/// Whether the line of an error at `start` is too long to show whole and
/// is cut inside a character.
pub open spec fn snippet_cut_splits_char(b: Seq<u8>, start: int) -> bool {
    let lt = b.subrange(bol_spec(b, start), eol_spec(b, start));
    lt.len() > 78 && !is_char_boundary(lt, 75)
}

/// The shown part of the line of an error: whole up to 78 bytes, else its
/// first 75 bytes and `...`.
pub open spec fn snippet_spec(b: Seq<u8>, start: int) -> Seq<char> {
    let lt = b.subrange(bol_spec(b, start), eol_spec(b, start));
    if lt.len() > 78 { decode_utf8(lt.subrange(0, 75)) + "..."@ } else { decode_utf8(lt) }
}

/// The rendered syntax error: the error, its location `file:line:col`
/// (1-based, the column in bytes), the line of source, and carets under
/// the error's byte range (at least one), right-aligned to the column.
pub open spec fn parse_error_message(b: Seq<u8>, file: Seq<char>, start: int, end: int, msg: Seq<char>) -> Seq<char> {
    let line = nl_count(b.subrange(0, start)) + 1;
    let col = (start - bol_spec(b, start) + 1) as nat;
    let ulen: nat = if end > start { (end - start) as nat } else { 1 };
    msg + "\n  --> "@ + file + ":"@ + dec_str(line) + ":"@ + dec_str(col) + "\n   |\n"@
        + pad_left(dec_str(line), 4) + " | "@ + snippet_spec(b, start) + "\n   | "@
        + pad_left(carets(ulen), col) + (if seq_contains(msg, "Expected a token starting with"@) {
            comment_hint() } else { Seq::empty() })
}

fn push_repeat(out: &mut String, c: char, n: usize)
    ensures
        final(out)@ == old(out)@ + Seq::new(n as nat, |i: int| c),
{
    let ghost o = out@;
    let mut i: usize = 0;
    while i < n
        invariant
            i <= n,
            out@ == o + Seq::new(i as nat, |j: int| c),
        decreases n - i,
    {
        crate::text::push_char(out, c);
        assert(out@ =~= o + Seq::new((i + 1) as nat, |j: int| c));
        i += 1;
    }
}

fn push_padded_usize(out: &mut String, n: usize, width: usize)
    ensures
        final(out)@ == old(out)@ + pad_left(dec_str(n as nat), width as nat),
{
    let ghost o = out@;
    let d = crate::text::usize_to_string(n);
    let dl = crate::text::chars_of(d.as_str()).len();
    if dl < width {
        push_repeat(out, ' ', width - dl);
    }
    push_str(out, d.as_str());
    assert(out@ =~= o + pad_left(dec_str(n as nat), width as nat));
}

/// Why a syntax error cannot be shown: its position is not a character
/// boundary of the source, or its line is cut for display inside a character.
pub open spec fn parse_error_fault(b: Seq<u8>, start: nat) -> Option<Seq<char>> {
    if !(start < usize::MAX && is_char_boundary(b, start as int)) {
        Some("byte index "@ + dec_str(start) + " is out of bounds or not a char boundary of the source"@)
    } else if snippet_cut_splits_char(b, start as int) {
        Some("byte index 75 is not a char boundary of the line"@)
    } else {
        None
    }
}

/// The diagnostic for a syntax error, or why it cannot be shown.
pub open spec fn parse_error_diag(b: Seq<u8>, file: Seq<char>, locale: Seq<char>, e: crate::syntax::FtlParseError)
    -> Result<crate::diag::DiagV, Seq<char>>
{
    match parse_error_fault(b, e.start as nat) {
        Some(m) => Err(m),
        None => Ok(crate::diag::error_v(file, locale,
            parse_error_message(b, file, e.start as int, e.end as int, e.message@))),
    }
}

/// Start and end of the line holding byte `start`.
fn line_bounds(source: &str, start: usize) -> (res: (usize, usize))
    requires
        is_char_boundary(source.spec_bytes(), start as int),
    ensures
        res.0 as int == bol_spec(source.spec_bytes(), start as int),
        res.1 as int == eol_spec(source.spec_bytes(), start as int),
        res.0 <= start <= res.1 <= source.spec_bytes().len(),
        is_char_boundary(source.spec_bytes(), res.0 as int),
        is_char_boundary(source.spec_bytes(), res.1 as int),
{
    let b = source.as_bytes();
    let ghost bs = source.spec_bytes();
    proof {
        vstd::utf8::encode_utf8_valid_utf8(source@);
        lemma_boundary_le_len(bs, start as int);
    }
    let mut bol: usize = start;
    while bol > 0 && b[bol - 1] != 10u8
        invariant
            b@ == bs,
            start <= bs.len(),
            bol <= start,
            last_nl_before(bs, start as int) == last_nl_before(bs, bol as int),
        decreases bol,
    {
        bol -= 1;
    }
    let mut eol: usize = start;
    while eol < b.len() && b[eol] != 10u8
        invariant
            b@ == bs,
            start <= eol <= bs.len(),
            first_nl_from(bs, start as int) == first_nl_from(bs, eol as int),
        decreases bs.len() - eol,
    {
        eol += 1;
    }
    proof {
        if bol > 0 {
            vstd::utf8::is_char_boundary_iff_not_is_continuation_byte(bs, bol - 1);
            lemma_after_ascii(bs, bol - 1);
        } else {
            vstd::utf8::is_char_boundary_start_end_of_seq(bs);
        }
        if eol < bs.len() {
            vstd::utf8::is_char_boundary_iff_not_is_continuation_byte(bs, eol as int);
        } else {
            vstd::utf8::is_char_boundary_start_end_of_seq(bs);
        }
    }
    (bol, eol)
}

/// The bytes `bol..eol` of the source as a string slice.
fn slice_of(source: &str, bol: usize, eol: usize) -> (res: &str)
    requires
        bol <= eol <= source.spec_bytes().len(),
        is_char_boundary(source.spec_bytes(), bol as int),
        is_char_boundary(source.spec_bytes(), eol as int),
    ensures
        res.spec_bytes() == source.spec_bytes().subrange(bol as int, eol as int),
{
    let ghost bs = source.spec_bytes();
    proof {
        vstd::utf8::encode_utf8_valid_utf8(source@);
    }
    let (head, _) = source.split_at(eol);
    proof {
        vstd::utf8::encode_utf8_valid_utf8(head@);
        lemma_boundary_prefix(bs, head.spec_bytes(), bol as int, eol as int);
    }
    let (_, line_text) = head.split_at(bol);
    assert(line_text.spec_bytes() =~= bs.subrange(bol as int, eol as int));
    line_text
}

/// The part of a line shown under an error.
fn push_snippet(m: &mut String, line_text: &str, len: usize) -> (ok: bool)
    requires
        len == line_text.spec_bytes().len(),
    ensures
        ok == !(line_text.spec_bytes().len() > 78 && !is_char_boundary(line_text.spec_bytes(), 75)),
        ok ==> final(m)@ == old(m)@ + (if line_text.spec_bytes().len() > 78 {
            decode_utf8(line_text.spec_bytes().subrange(0, 75)) + "..."@ } else { decode_utf8(line_text.spec_bytes()) }),
{
    let ghost lt = line_text.spec_bytes();
    proof {
        vstd::utf8::encode_utf8_decode_utf8(line_text@);
        vstd::utf8::encode_utf8_valid_utf8(line_text@);
    }
    let ghost o = m@;
    if len > 78 {
        if !line_text.is_char_boundary(75) {
            return false;
        }
        let (cut, _) = line_text.split_at(75);
        proof {
            vstd::utf8::encode_utf8_decode_utf8(cut@);
            assert(cut.spec_bytes() =~= lt.subrange(0, 75));
        }
        push_str(m, cut);
        push_str(m, "...");
        assert(m@ =~= o + (decode_utf8(lt.subrange(0, 75)) + "..."@));
    } else {
        push_str(m, line_text);
    }
    true
}

/// A syntax error as a diagnostic for `file` in `locale`.
pub fn format_parse_error(source: &str, file: &str, locale: &str, error: &crate::syntax::FtlParseError)
    -> (res: Result<Diag, String>)
    ensures
        match res {
            Ok(d) => parse_error_diag(source.spec_bytes(), file@, locale@, *error) == Ok::<crate::diag::DiagV, Seq<char>>(crate::diag::diag_v(d)),
            Err(m) => parse_error_diag(source.spec_bytes(), file@, locale@, *error) == Err::<crate::diag::DiagV, Seq<char>>(m@),
        },
{
    let ghost bs = source.spec_bytes();
    let start = error.start;
    if !(start < usize::MAX && source.is_char_boundary(start)) {
        let mut m = string_of("byte index ");
        push_usize(&mut m, start);
        push_str(&mut m, " is out of bounds or not a char boundary of the source");
        return Err(m);
    }
    let line = line_of(source, start);
    let (bol, eol) = line_bounds(source, start);
    let line_text = slice_of(source, bol, eol);
    let col = start - bol + 1;
    let mut m = string_of(error.message.as_str());
    push_str(&mut m, "\n  --> ");
    push_str(&mut m, file);
    push_str(&mut m, ":");
    push_usize(&mut m, line);
    push_str(&mut m, ":");
    push_usize(&mut m, col);
    push_str(&mut m, "\n   |\n");
    push_padded_usize(&mut m, line, 4);
    push_str(&mut m, " | ");
    let ghost m2 = m@;
    if !push_snippet(&mut m, line_text, eol - bol) {
        return Err(string_of("byte index 75 is not a char boundary of the line"));
    }
    assert(m@ == m2 + snippet_spec(bs, start as int));
    assert(line_text.spec_bytes() == bs.subrange(bol_spec(bs, start as int), eol_spec(bs, start as int)));
    assert(!snippet_cut_splits_char(bs, start as int));
    assert(is_char_boundary(bs, start as int));
    assert(parse_error_fault(bs, start as nat) is None);
    let ghost m3 = m@;
    push_str(&mut m, "\n   | ");
    let ulen: usize = if error.end > start { error.end - start } else { 1 };
    if ulen < col {
        push_repeat(&mut m, ' ', col - ulen);
    }
    push_repeat(&mut m, '^', ulen);
    assert(m@ =~= m3 + "\n   | "@ + pad_left(carets(ulen as nat), col as nat));
    let ghost m4 = m@;
    if str_contains(error.message.as_str(), "Expected a token starting with") {
        push_str(&mut m, "\n   = help: FTL comments must start with \"# \" (hash followed by a space)");
    }
    assert(m@ == m4 + (if seq_contains(error.message@, "Expected a token starting with"@) {
        comment_hint() } else { Seq::empty() }));
    assert(m@ =~= parse_error_message(bs, file@, start as int, error.end as int, error.message@));
    proof {
        reveal_strlit("");
        assert(""@ =~= Seq::<char>::empty());
    }
    let d = Diag::error(file, locale, "", m.as_str());
    assert(crate::diag::diag_v(d) == crate::diag::error_v(file@, locale@,
        parse_error_message(bs, file@, start as int, error.end as int, error.message@)));
    Ok(d)
}

/// A boundary of a sequence before a prefix's end is a boundary of the prefix.
proof fn lemma_boundary_prefix(b: Seq<u8>, pre: Seq<u8>, i: int, n: int)
    requires
        valid_utf8(b),
        0 <= i <= n <= b.len(),
        is_char_boundary(b, i),
        is_char_boundary(b, n),
        pre == b.subrange(0, n),
    ensures
        valid_utf8(pre),
        is_char_boundary(pre, i),
    decreases b.len(),
{
    vstd::utf8::valid_utf8_split(b, n);
    reveal_with_fuel(is_char_boundary, 2);
    if i > 0 {
        let l = vstd::utf8::length_of_first_scalar(b);
        let rest = vstd::utf8::pop_first_scalar(b);
        assert(is_char_boundary(rest, i - l));
        assert(is_char_boundary(rest, n - l));
        vstd::utf8::valid_utf8_split(b, l);
        lemma_boundary_le_len(rest, i - l);
        lemma_boundary_le_len(rest, n - l);
        lemma_boundary_prefix(rest, rest.subrange(0, n - l), i - l, n - l);
        assert(vstd::utf8::length_of_first_scalar(pre) == l);
        assert(vstd::utf8::pop_first_scalar(pre) =~= rest.subrange(0, n - l));
    }
}


// ---------------------------------------------------------------------
// Conversion of the syntax tree
// ---------------------------------------------------------------------

pub open spec fn msg_ref_v(id: Seq<char>, attribute: Option<String>) -> ElemV {
    match attribute {
        Some(a) => ElemV::AttributeRef { owner: id, name: a@ },
        None => ElemV::MessageRef(id),
    }
}

/// An inline expression used as a term argument.
pub open spec fn conv_inline(x: FtlInline) -> Result<ElemV, Seq<char>>
    decreases x,
{
    match x {
        FtlInline::StringLiteral { value } => Ok(ElemV::Text(value@)),
        FtlInline::NumberLiteral { value } => Ok(ElemV::Text(value@)),
        FtlInline::VariableReference { id } => Ok(ElemV::VarRef(id@)),
        FtlInline::MessageReference { id, attribute } => Ok(msg_ref_v(id@, attribute)),
        FtlInline::TermReference { id, attribute, arguments } => match arguments {
            None => Ok(ElemV::TermRef {
                name: id@,
                attribute: opt_str_v(attribute),
                args: Seq::empty(),
                positional: Seq::empty(),
            }),
            Some(a) => match conv_positional(a.positional@) {
                Err(m) => Err(m),
                Ok(ps) => match conv_named(a.named@) {
                    Err(m) => Err(m),
                    Ok(ns) => Ok(ElemV::TermRef { name: id@, attribute: opt_str_v(attribute), args: ns, positional: ps }),
                },
            },
        },
        _ => Err("Unsupported inline expression in term arguments: "@ + inline_dbg(x)),
    }
}

/// Positional term arguments, in order.
pub open spec fn conv_positional(ps: Seq<FtlInline>) -> Result<Seq<ElemV>, Seq<char>>
    decreases ps,
{
    if ps.len() == 0 {
        Ok(Seq::empty())
    } else {
        match conv_positional(ps.drop_last()) {
            Err(m) => Err(m),
            Ok(a) => match conv_inline(ps.last()) {
                Err(m) => Err(m),
                Ok(e) => Ok(a.push(e)),
            },
        }
    }
}

/// Named term arguments, keyed by name (a later one replaces an earlier one).
pub open spec fn conv_named(ns: Seq<FtlNamedArgument>) -> Result<Seq<(Seq<char>, ElemV)>, Seq<char>>
    decreases ns,
{
    if ns.len() == 0 {
        Ok(Seq::empty())
    } else {
        match conv_named(ns.drop_last()) {
            Err(m) => Err(m),
            Ok(a) => match conv_inline(ns.last().value) {
                Err(m) => Err(m),
                Ok(e) => Ok(gk_insert(a, ns.last().name@, e)),
            },
        }
    }
}

/// Named arguments of a function call: each must be a literal.
pub open spec fn lit_named(ns: Seq<FtlNamedArgument>, fname: Seq<char>) -> Result<Seq<(Seq<char>, Seq<char>)>, Seq<char>>
    decreases ns.len(),
{
    if ns.len() == 0 {
        Ok(Seq::empty())
    } else {
        match lit_named(ns.drop_last(), fname) {
            Err(m) => Err(m),
            Ok(a) => match ns.last().value {
                FtlInline::StringLiteral { value } => Ok(gk_insert(a, ns.last().name@, value@)),
                FtlInline::NumberLiteral { value } => Ok(gk_insert(a, ns.last().name@, value@)),
                _ => Err("Named argument '"@ + ns.last().name@ + "' to "@ + fname
                    + "() must be a string or number literal"@),
            },
        }
    }
}

pub open spec fn var_ref_name(x: FtlInline) -> Option<Seq<char>> {
    match x {
        FtlInline::VariableReference { id } => Some(id@),
        _ => None,
    }
}

/// A call of a registered built-in function: `F($var, name: literal, ...)`.
pub open spec fn conv_function(fname: Seq<char>, args: FtlCallArguments, b: Seq<(String, BuiltInFuncDef)>)
    -> Result<ElemV, Seq<char>>
{
    match key_lookup(b, fname) {
        None => Err("Unrecognized function '"@ + fname
            + "'. Register it with .register() before calling .generate()"@),
        Some(def) => match (if args.positional@.len() > 0 { var_ref_name(args.positional@[0]) } else { None }) {
            None => Err(fname + "() expects a variable reference as the first argument"@),
            Some(base) => match lit_named(args.named@, fname) {
                Err(m) => Err(m),
                Ok(na) => Ok(ElemV::BuiltInCall { func_name: fname, ty_name: def.ty_name@, var_name: base, named_args: na }),
            },
        },
    }
}

pub open spec fn key_str(k: KeyV) -> Seq<char> {
    match k {
        KeyV::Ident(s) => s,
        KeyV::Num(s) => s,
    }
}

/// Index of the first variant whose key is `sel`.
pub open spec fn first_key_match(vs: Seq<VariantV>, sel: Seq<char>) -> Option<int>
    decreases vs.len(),
{
    if vs.len() == 0 {
        None
    } else if key_str(vs[0].key) == sel {
        Some(0)
    } else {
        match first_key_match(vs.drop_first(), sel) {
            Some(i) => Some(i + 1),
            None => None,
        }
    }
}

/// Index of the first default variant.
pub open spec fn first_default(vs: Seq<VariantV>) -> Option<int>
    decreases vs.len(),
{
    if vs.len() == 0 {
        None
    } else if vs[0].default {
        Some(0)
    } else {
        match first_default(vs.drop_first()) {
            Some(i) => Some(i + 1),
            None => None,
        }
    }
}

/// A select on a literal, decided now: the variant whose key is the
/// literal, else the default variant.
pub open spec fn pick_literal(sel: Seq<char>, vs: Seq<VariantV>) -> Result<ElemV, Seq<char>> {
    match first_key_match(vs, sel) {
        Some(i) => Ok(collected_spec(vs[i].elements)),
        None => match first_default(vs) {
            Some(i) => Ok(collected_spec(vs[i].elements)),
            None => Err("Select expression has no matching variant and no default"@),
        },
    }
}

pub open spec fn conv_key(k: FtlVariantKey) -> KeyV {
    match k {
        FtlVariantKey::Identifier { name } => KeyV::Ident(name@),
        FtlVariantKey::NumberLiteral { value } => KeyV::Num(value@),
    }
}

/// An expression as an element.
pub open spec fn conv_expr(e: FtlExpression, b: Seq<(String, BuiltInFuncDef)>) -> Result<ElemV, Seq<char>>
    decreases e,
{
    match e {
        FtlExpression::Inline(x) => match x {
            FtlInline::FunctionReference { id, arguments } => conv_function(id@, arguments, b),
            FtlInline::Placeable { .. } => Err("Unsupported expression: "@ + inline_dbg(x)),
            _ => conv_inline(x),
        },
        FtlExpression::Select { selector, variants } => match selector {
            FtlInline::VariableReference { id } => match conv_variants(variants@, b) {
                Err(m) => Err(m),
                Ok(vs) => Ok(ElemV::Select { selector: id@, variants: vs }),
            },
            FtlInline::NumberLiteral { value } => match conv_variants(variants@, b) {
                Err(m) => Err(m),
                Ok(vs) => pick_literal(value@, vs),
            },
            FtlInline::StringLiteral { value } => match conv_variants(variants@, b) {
                Err(m) => Err(m),
                Ok(vs) => pick_literal(value@, vs),
            },
            FtlInline::TermReference { id, attribute, .. } => match attribute {
                Some(a) => match conv_variants(variants@, b) {
                    Err(m) => Err(m),
                    Ok(vs) => Ok(ElemV::TermAttrSelect { term: id@, attr: a@, variants: vs }),
                },
                None => Err("Select selector must be a variable, number, or string: "@ + inline_dbg(selector)),
            },
            _ => Err("Select selector must be a variable, number, or string: "@ + inline_dbg(selector)),
        },
    }
}

pub open spec fn conv_variants(vs: Seq<FtlVariant>, b: Seq<(String, BuiltInFuncDef)>) -> Result<Seq<VariantV>, Seq<char>>
    decreases vs,
{
    if vs.len() == 0 {
        Ok(Seq::empty())
    } else {
        match conv_variants(vs.drop_last(), b) {
            Err(m) => Err(m),
            Ok(a) => match conv_elements(vs.last().value.elements@, b) {
                Err(m) => Err(m),
                Ok(es) => Ok(a.push(VariantV { key: conv_key(vs.last().key), elements: es, default: vs.last().default })),
            },
        }
    }
}

/// The elements of a pattern, in order.
pub open spec fn conv_elements(es: Seq<FtlPatternElement>, b: Seq<(String, BuiltInFuncDef)>) -> Result<Seq<ElemV>, Seq<char>>
    decreases es,
{
    if es.len() == 0 {
        Ok(Seq::empty())
    } else {
        match conv_elements(es.drop_last(), b) {
            Err(m) => Err(m),
            Ok(a) => match conv_element(es.last(), b) {
                Err(m) => Err(m),
                Ok(e) => Ok(a.push(e)),
            },
        }
    }
}

pub open spec fn conv_element(e: FtlPatternElement, b: Seq<(String, BuiltInFuncDef)>) -> Result<ElemV, Seq<char>>
    decreases e,
{
    match e {
        FtlPatternElement::TextElement { value } => Ok(ElemV::Text(value@)),
        FtlPatternElement::Placeable { expression } => conv_expr(expression, b),
    }
}

pub open spec fn variants_result(r: Result<Vec<Variant>, String>) -> Result<Seq<VariantV>, Seq<char>> {
    match r {
        Ok(vs) => Ok(variants_v(vs@)),
        Err(m) => Err(m@),
    }
}

pub open spec fn elems_res(r: Result<Vec<Element>, String>) -> Result<Seq<ElemV>, Seq<char>> {
    match r {
        Ok(es) => Ok(elems_v(es@)),
        Err(m) => Err(m@),
    }
}

pub proof fn lemma_args_kv(m: Seq<(String, Element)>)
    ensures
        args_v(m) == kv_map(m, |e: Element| elem_v(e)),
{
    crate::ast::lemma_args_v(m);
    assert(args_v(m) =~= kv_map(m, |e: Element| elem_v(e)));
}

proof fn lemma_pairs_kv(m: Seq<(String, String)>)
    ensures
        str_pairs_v(m) == kv_map(m, |s: String| s@),
{
    crate::ast::lemma_str_pairs_v(m);
    assert(str_pairs_v(m) =~= kv_map(m, |s: String| s@));
}

fn prefixed(head: &str, x: &FtlInline) -> (res: String)
    ensures
        res@ == head@ + inline_dbg(*x),
{
    let mut m = string_of(head);
    write_inline_dbg(&mut m, x);
    m
}

/// An inline expression used as a term argument, as an element.
pub fn convert_inline_expression(expr: &FtlInline) -> (res: Result<Element, String>)
    ensures
        elem_result(res) == conv_inline(*expr),
    decreases expr,
{
    match expr {
        FtlInline::StringLiteral { value } => Ok(Element::Text(copy_string(value))),
        FtlInline::NumberLiteral { value } => Ok(Element::Text(copy_string(value))),
        FtlInline::VariableReference { id } => Ok(Element::VarRef(copy_string(id))),
        FtlInline::MessageReference { id, attribute } => match attribute {
            Some(a) => Ok(Element::AttributeRef { owner: copy_string(id), name: copy_string(a) }),
            None => Ok(Element::MessageRef(copy_string(id))),
        },
        FtlInline::TermReference { id, attribute, arguments } => {
            let attr = crate::ast::copy_opt_string(attribute);
            match arguments {
                None => {
                    let r = Element::TermRef { name: copy_string(id), attribute: attr, args: Vec::new(), positional: Vec::new() };
                    proof {
                        assert(args_v(Seq::<(String, Element)>::empty()) =~= Seq::<(Seq<char>, ElemV)>::empty());
                        assert(elems_v(Seq::<Element>::empty()) =~= Seq::<ElemV>::empty());
                    }
                    Ok(r)
                },
                Some(a) => {
                    let ps = match convert_positional(&a.positional) {
                        Ok(ps) => ps,
                        Err(m) => return Err(m),
                    };
                    let ns = match convert_named(&a.named) {
                        Ok(ns) => ns,
                        Err(m) => return Err(m),
                    };
                    Ok(Element::TermRef { name: copy_string(id), attribute: attr, args: ns, positional: ps })
                },
            }
        },
        _ => Err(prefixed("Unsupported inline expression in term arguments: ", expr)),
    }
}

fn convert_positional(ps: &Vec<FtlInline>) -> (res: Result<Vec<Element>, String>)
    ensures
        elems_res(res) == conv_positional(ps@),
    decreases ps,
{
    let mut out: Vec<Element> = Vec::new();
    let mut i: usize = 0;
    assert(ps@.subrange(0, 0) =~= Seq::<FtlInline>::empty());
    while i < ps.len()
        invariant
            i <= ps@.len(),
            conv_positional(ps@.subrange(0, i as int)) == Ok::<Seq<ElemV>, Seq<char>>(elems_v(out@)),
        decreases ps@.len() - i,
    {
        assert(ps@.subrange(0, i + 1).drop_last() =~= ps@.subrange(0, i as int));
        match convert_inline_expression(&ps[i]) {
            Ok(e) => {
                proof {
                    lemma_elems_v_push(out@, e);
                }
                out.push(e);
            },
            Err(m) => {
                proof {
                    lemma_positional_err(ps@, i as int + 1, m@);
                }
                return Err(m);
            },
        }
        i += 1;
    }
    assert(ps@.subrange(0, i as int) =~= ps@);
    Ok(out)
}

proof fn lemma_positional_err(ps: Seq<FtlInline>, n: int, m: Seq<char>)
    requires
        0 <= n <= ps.len(),
        conv_positional(ps.subrange(0, n)) == Err::<Seq<ElemV>, Seq<char>>(m),
    ensures
        conv_positional(ps) == Err::<Seq<ElemV>, Seq<char>>(m),
    decreases ps.len() - n,
{
    if n == ps.len() {
        assert(ps.subrange(0, n) =~= ps);
    } else {
        assert(ps.subrange(0, n + 1).drop_last() =~= ps.subrange(0, n));
        lemma_positional_err(ps, n + 1, m);
    }
}

fn convert_named(ns: &Vec<FtlNamedArgument>) -> (res: Result<Vec<(String, Element)>, String>)
    ensures
        match res {
            Ok(m) => conv_named(ns@) == Ok::<Seq<(Seq<char>, ElemV)>, Seq<char>>(args_v(m@)),
            Err(e) => conv_named(ns@) == Err::<Seq<(Seq<char>, ElemV)>, Seq<char>>(e@),
        },
    decreases ns,
{
    let mut out: Vec<(String, Element)> = Vec::new();
    let mut i: usize = 0;
    assert(ns@.subrange(0, 0) =~= Seq::<FtlNamedArgument>::empty());
    proof {
        lemma_args_kv(out@);
    }
    while i < ns.len()
        invariant
            i <= ns@.len(),
            conv_named(ns@.subrange(0, i as int)) == Ok::<Seq<(Seq<char>, ElemV)>, Seq<char>>(args_v(out@)),
        decreases ns@.len() - i,
    {
        assert(ns@.subrange(0, i + 1).drop_last() =~= ns@.subrange(0, i as int));
        match convert_inline_expression(&ns[i].value) {
            Ok(e) => {
                let k = copy_string(&ns[i].name);
                proof {
                    lemma_args_kv(out@);
                    lemma_kv_insert(out@, |e: Element| elem_v(e), k, e);
                    lemma_args_kv(crate::keyed::keyed_insert(out@, k, e));
                }
                keyed_insert_exec(&mut out, k, e);
            },
            Err(m) => {
                proof {
                    lemma_named_err(ns@, i as int + 1, m@);
                }
                return Err(m);
            },
        }
        i += 1;
    }
    assert(ns@.subrange(0, i as int) =~= ns@);
    Ok(out)
}

proof fn lemma_named_err(ns: Seq<FtlNamedArgument>, n: int, m: Seq<char>)
    requires
        0 <= n <= ns.len(),
        conv_named(ns.subrange(0, n)) == Err::<Seq<(Seq<char>, ElemV)>, Seq<char>>(m),
    ensures
        conv_named(ns) == Err::<Seq<(Seq<char>, ElemV)>, Seq<char>>(m),
    decreases ns.len() - n,
{
    if n == ns.len() {
        assert(ns.subrange(0, n) =~= ns);
    } else {
        assert(ns.subrange(0, n + 1).drop_last() =~= ns.subrange(0, n));
        lemma_named_err(ns, n + 1, m);
    }
}

fn convert_lit_named(ns: &Vec<FtlNamedArgument>, fname: &str) -> (res: Result<Vec<(String, String)>, String>)
    ensures
        match res {
            Ok(m) => lit_named(ns@, fname@) == Ok::<Seq<(Seq<char>, Seq<char>)>, Seq<char>>(str_pairs_v(m@)),
            Err(e) => lit_named(ns@, fname@) == Err::<Seq<(Seq<char>, Seq<char>)>, Seq<char>>(e@),
        },
{
    let mut out: Vec<(String, String)> = Vec::new();
    let mut i: usize = 0;
    assert(ns@.subrange(0, 0) =~= Seq::<FtlNamedArgument>::empty());
    proof {
        lemma_pairs_kv(out@);
    }
    while i < ns.len()
        invariant
            i <= ns@.len(),
            lit_named(ns@.subrange(0, i as int), fname@) == Ok::<Seq<(Seq<char>, Seq<char>)>, Seq<char>>(str_pairs_v(out@)),
        decreases ns@.len() - i,
    {
        assert(ns@.subrange(0, i + 1).drop_last() =~= ns@.subrange(0, i as int));
        let value = match &ns[i].value {
            FtlInline::StringLiteral { value } => copy_string(value),
            FtlInline::NumberLiteral { value } => copy_string(value),
            _ => {
                let mut m = string_of("Named argument '");
                push_str(&mut m, ns[i].name.as_str());
                push_str(&mut m, "' to ");
                push_str(&mut m, fname);
                push_str(&mut m, "() must be a string or number literal");
                proof {
                    lemma_lit_named_err(ns@, fname@, i as int + 1, m@);
                }
                return Err(m);
            },
        };
        let k = copy_string(&ns[i].name);
        proof {
            lemma_pairs_kv(out@);
            lemma_kv_insert(out@, |s: String| s@, k, value);
            lemma_pairs_kv(crate::keyed::keyed_insert(out@, k, value));
        }
        keyed_insert_exec(&mut out, k, value);
        i += 1;
    }
    assert(ns@.subrange(0, i as int) =~= ns@);
    Ok(out)
}

proof fn lemma_lit_named_err(ns: Seq<FtlNamedArgument>, f: Seq<char>, n: int, m: Seq<char>)
    requires
        0 <= n <= ns.len(),
        lit_named(ns.subrange(0, n), f) == Err::<Seq<(Seq<char>, Seq<char>)>, Seq<char>>(m),
    ensures
        lit_named(ns, f) == Err::<Seq<(Seq<char>, Seq<char>)>, Seq<char>>(m),
    decreases ns.len() - n,
{
    if n == ns.len() {
        assert(ns.subrange(0, n) =~= ns);
    } else {
        assert(ns.subrange(0, n + 1).drop_last() =~= ns.subrange(0, n));
        lemma_lit_named_err(ns, f, n + 1, m);
    }
}

fn convert_function(fname: &String, args: &FtlCallArguments, builtins: &Vec<(String, BuiltInFuncDef)>)
    -> (res: Result<Element, String>)
    ensures
        elem_result(res) == conv_function(fname@, *args, builtins@),
{
    let def = match keyed_get(builtins, fname.as_str()) {
        Some(d) => d,
        None => {
            let mut m = string_of("Unrecognized function '");
            push_str(&mut m, fname.as_str());
            push_str(&mut m, "'. Register it with .register() before calling .generate()");
            return Err(m);
        },
    };
    let base = if args.positional.len() > 0 {
        match &args.positional[0] {
            FtlInline::VariableReference { id } => Some(copy_string(id)),
            _ => None,
        }
    } else {
        None
    };
    let base = match base {
        Some(b) => b,
        None => {
            let mut m = copy_string(fname);
            push_str(&mut m, "() expects a variable reference as the first argument");
            return Err(m);
        },
    };
    let na = match convert_lit_named(&args.named, fname.as_str()) {
        Ok(na) => na,
        Err(m) => return Err(m),
    };
    Ok(Element::BuiltInCall { func_name: copy_string(fname), ty_name: copy_string(&def.ty_name), var_name: base, named_args: na })
}

fn key_string(k: &KeyType) -> (res: &String)
    ensures
        res@ == key_str(key_v(*k)),
{
    match k {
        KeyType::Ident(s) => s,
        KeyType::Num(s) => s,
    }
}

proof fn lemma_first_key_match(vs: Seq<VariantV>, sel: Seq<char>, n: int)
    requires
        0 <= n <= vs.len(),
        forall|j: int| 0 <= j < n ==> key_str(#[trigger] vs[j].key) != sel,
    ensures
        first_key_match(vs, sel) == (match first_key_match(vs.skip(n), sel) { Some(i) => Some(i + n), None => None }),
    decreases n,
{
    if n > 0 {
        assert(vs.drop_first().skip(n - 1) =~= vs.skip(n));
        lemma_first_key_match(vs.drop_first(), sel, n - 1);
    } else {
        assert(vs.skip(0) =~= vs);
    }
}

proof fn lemma_first_default(vs: Seq<VariantV>, n: int)
    requires
        0 <= n <= vs.len(),
        forall|j: int| 0 <= j < n ==> !(#[trigger] vs[j]).default,
    ensures
        first_default(vs) == (match first_default(vs.skip(n)) { Some(i) => Some(i + n), None => None }),
    decreases n,
{
    if n > 0 {
        assert(vs.drop_first().skip(n - 1) =~= vs.skip(n));
        lemma_first_default(vs.drop_first(), n - 1);
    } else {
        assert(vs.skip(0) =~= vs);
    }
}

/// Index of the first variant whose key is `sel`.
pub fn find_variant(vs: &Vec<Variant>, sel: &str) -> (res: Option<usize>)
    ensures
        match res {
            Some(i) => i < vs@.len() && first_key_match(variants_v(vs@), sel@) == Some(i as int),
            None => first_key_match(variants_v(vs@), sel@) is None,
        },
{
    let ghost vv = variants_v(vs@);
    proof {
        crate::ast::lemma_variants_v(vs@);
    }
    let mut i: usize = 0;
    while i < vs.len()
        invariant
            vv == variants_v(vs@),
            vv.len() == vs@.len(),
            forall|j: int| 0 <= j < vs@.len() ==> #[trigger] vv[j] == variant_v(vs@[j]),
            i <= vs@.len(),
            forall|j: int| 0 <= j < i ==> key_str(#[trigger] vv[j].key) != sel@,
        decreases vs@.len() - i,
    {
        if crate::text::str_eq(key_string(&vs[i].key).as_str(), sel) {
            proof {
                lemma_first_key_match(vv, sel@, i as int);
                assert(vv.skip(i as int)[0] == vv[i as int]);
            }
            return Some(i);
        }
        i += 1;
    }
    proof {
        lemma_first_key_match(vv, sel@, i as int);
    }
    None
}

/// Index of the first default variant.
pub fn find_default(vs: &Vec<Variant>) -> (res: Option<usize>)
    ensures
        match res {
            Some(i) => i < vs@.len() && first_default(variants_v(vs@)) == Some(i as int),
            None => first_default(variants_v(vs@)) is None,
        },
{
    let ghost vv = variants_v(vs@);
    proof {
        crate::ast::lemma_variants_v(vs@);
    }
    let mut d: usize = 0;
    while d < vs.len()
        invariant
            vv == variants_v(vs@),
            vv.len() == vs@.len(),
            forall|j: int| 0 <= j < vs@.len() ==> #[trigger] vv[j] == variant_v(vs@[j]),
            d <= vs@.len(),
            forall|j: int| 0 <= j < d ==> !(#[trigger] vv[j]).default,
        decreases vs@.len() - d,
    {
        if vs[d].default {
            proof {
                lemma_first_default(vv, d as int);
                assert(vv.skip(d as int)[0] == vv[d as int]);
            }
            return Some(d);
        }
        d += 1;
    }
    proof {
        lemma_first_default(vv, d as int);
    }
    None
}

/// The select on a literal, decided at conversion time.
fn pick_literal_exec(sel: &String, vs: &Vec<Variant>) -> (res: Result<Element, String>)
    ensures
        elem_result(res) == pick_literal(sel@, variants_v(vs@)),
{
    proof {
        crate::ast::lemma_variants_v(vs@);
    }
    match find_variant(vs, sel.as_str()) {
        Some(i) => Ok(convert_collected(copy_elems(&vs[i].elements))),
        None => match find_default(vs) {
            Some(i) => Ok(convert_collected(copy_elems(&vs[i].elements))),
            None => Err(string_of("Select expression has no matching variant and no default")),
        },
    }
}

fn convert_key(k: &FtlVariantKey) -> (res: KeyType)
    ensures
        key_v(res) == conv_key(*k),
{
    match k {
        FtlVariantKey::Identifier { name } => KeyType::Ident(copy_string(name)),
        FtlVariantKey::NumberLiteral { value } => KeyType::Num(copy_string(value)),
    }
}

fn convert_variants(vs: &Vec<FtlVariant>, builtins: &Vec<(String, BuiltInFuncDef)>) -> (res: Result<Vec<Variant>, String>)
    ensures
        variants_result(res) == conv_variants(vs@, builtins@),
    decreases vs,
{
    let mut out: Vec<Variant> = Vec::new();
    let mut i: usize = 0;
    assert(vs@.subrange(0, 0) =~= Seq::<FtlVariant>::empty());
    assert(variants_v(out@) =~= Seq::<VariantV>::empty());
    while i < vs.len()
        invariant
            i <= vs@.len(),
            conv_variants(vs@.subrange(0, i as int), builtins@) == Ok::<Seq<VariantV>, Seq<char>>(variants_v(out@)),
        decreases vs@.len() - i,
    {
        assert(vs@.subrange(0, i + 1).drop_last() =~= vs@.subrange(0, i as int));
        match convert_elements(&vs[i].value.elements, builtins) {
            Ok(es) => {
                let ghost esv = elems_v(es@);
                let v = Variant { key: convert_key(&vs[i].key), elements: es, default: vs[i].default };
                let ghost before = out@;
                out.push(v);
                proof {
                    assert(out@.drop_last() =~= before);
                    assert(out@.last() == v);
                    assert(variant_v(v) == VariantV { key: conv_key(vs@[i as int].key), elements: esv,
                        default: vs@[i as int].default });
                    assert(variants_v(out@) == variants_v(before).push(variant_v(v)));
                }
            },
            Err(m) => {
                proof {
                    lemma_variants_err(vs@, builtins@, i as int + 1, m@);
                }
                return Err(m);
            },
        }
        i += 1;
    }
    assert(vs@.subrange(0, i as int) =~= vs@);
    Ok(out)
}

proof fn lemma_variants_err(vs: Seq<FtlVariant>, b: Seq<(String, BuiltInFuncDef)>, n: int, m: Seq<char>)
    requires
        0 <= n <= vs.len(),
        conv_variants(vs.subrange(0, n), b) == Err::<Seq<VariantV>, Seq<char>>(m),
    ensures
        conv_variants(vs, b) == Err::<Seq<VariantV>, Seq<char>>(m),
    decreases vs.len() - n,
{
    if n == vs.len() {
        assert(vs.subrange(0, n) =~= vs);
    } else {
        assert(vs.subrange(0, n + 1).drop_last() =~= vs.subrange(0, n));
        lemma_variants_err(vs, b, n + 1, m);
    }
}

/// The elements of a pattern.
pub fn convert_elements(elems: &Vec<FtlPatternElement>, builtins: &Vec<(String, BuiltInFuncDef)>)
    -> (res: Result<Vec<Element>, String>)
    ensures
        elems_res(res) == conv_elements(elems@, builtins@),
    decreases elems,
{
    let mut out: Vec<Element> = Vec::new();
    let mut i: usize = 0;
    assert(elems@.subrange(0, 0) =~= Seq::<FtlPatternElement>::empty());
    while i < elems.len()
        invariant
            i <= elems@.len(),
            conv_elements(elems@.subrange(0, i as int), builtins@) == Ok::<Seq<ElemV>, Seq<char>>(elems_v(out@)),
        decreases elems@.len() - i,
    {
        assert(elems@.subrange(0, i + 1).drop_last() =~= elems@.subrange(0, i as int));
        match convert_element(&elems[i], builtins) {
            Ok(e) => {
                proof {
                    lemma_elems_v_push(out@, e);
                }
                out.push(e);
            },
            Err(m) => {
                proof {
                    lemma_elements_err(elems@, builtins@, i as int + 1, m@);
                }
                return Err(m);
            },
        }
        i += 1;
    }
    assert(elems@.subrange(0, i as int) =~= elems@);
    Ok(out)
}

proof fn lemma_elements_err(es: Seq<FtlPatternElement>, b: Seq<(String, BuiltInFuncDef)>, n: int, m: Seq<char>)
    requires
        0 <= n <= es.len(),
        conv_elements(es.subrange(0, n), b) == Err::<Seq<ElemV>, Seq<char>>(m),
    ensures
        conv_elements(es, b) == Err::<Seq<ElemV>, Seq<char>>(m),
    decreases es.len() - n,
{
    if n == es.len() {
        assert(es.subrange(0, n) =~= es);
    } else {
        assert(es.subrange(0, n + 1).drop_last() =~= es.subrange(0, n));
        lemma_elements_err(es, b, n + 1, m);
    }
}

/// One pattern element: text as is, a placeable through its expression.
pub fn convert_element(e: &FtlPatternElement, builtins: &Vec<(String, BuiltInFuncDef)>) -> (res: Result<Element, String>)
    ensures
        elem_result(res) == conv_element(*e, builtins@),
    decreases e,
{
    match e {
        FtlPatternElement::TextElement { value } => Ok(Element::Text(copy_string(value))),
        FtlPatternElement::Placeable { expression } => convert_expression(expression, builtins),
    }
}

/// An expression as an element: references and variables as such, literals
/// as text, built-in calls checked against the registry, selects kept
/// (on a variable), resolved later (on a term attribute) or decided now
/// (on a literal).
pub fn convert_expression(expr: &FtlExpression, builtins: &Vec<(String, BuiltInFuncDef)>) -> (res: Result<Element, String>)
    ensures
        elem_result(res) == conv_expr(*expr, builtins@),
    decreases expr,
{
    match expr {
        FtlExpression::Inline(x) => match x {
            FtlInline::FunctionReference { id, arguments } => convert_function(id, arguments, builtins),
            FtlInline::Placeable { .. } => Err(prefixed("Unsupported expression: ", x)),
            _ => convert_inline_expression(x),
        },
        FtlExpression::Select { selector, variants } => match selector {
            FtlInline::VariableReference { id } => match convert_variants(variants, builtins) {
                Ok(vs) => Ok(Element::Select { selector: copy_string(id), variants: vs }),
                Err(m) => Err(m),
            },
            FtlInline::NumberLiteral { value } => match convert_variants(variants, builtins) {
                Ok(vs) => pick_literal_exec(value, &vs),
                Err(m) => Err(m),
            },
            FtlInline::StringLiteral { value } => match convert_variants(variants, builtins) {
                Ok(vs) => pick_literal_exec(value, &vs),
                Err(m) => Err(m),
            },
            FtlInline::TermReference { id, attribute, .. } => match attribute {
                Some(a) => match convert_variants(variants, builtins) {
                    Ok(vs) => Ok(Element::TermAttrSelect { term: copy_string(id), attr: copy_string(a), variants: vs }),
                    Err(m) => Err(m),
                },
                None => Err(prefixed("Select selector must be a variable, number, or string: ", selector)),
            },
            _ => Err(prefixed("Select selector must be a variable, number, or string: ", selector)),
        },
    }
}


// ---------------------------------------------------------------------
// Entries of a resource
// ---------------------------------------------------------------------

pub open spec fn empty_entries() -> EntriesV {
    EntriesV { messages: Seq::empty(), terms: Seq::empty(), attributes: Seq::empty() }
}

/// The attributes of `owner` added to the entries, keyed by `owner__name`.
pub open spec fn extract_attrs(st: EntriesV, owner: Seq<char>, attrs: Seq<FtlAttribute>,
    b: Seq<(String, BuiltInFuncDef)>) -> Result<EntriesV, Seq<char>>
    decreases attrs.len(),
{
    if attrs.len() == 0 {
        Ok(st)
    } else {
        match extract_attrs(st, owner, attrs.drop_last(), b) {
            Err(m) => Err(m),
            Ok(s1) => match conv_elements(attrs.last().value.elements@, b) {
                Err(m) => Err(m),
                Ok(es) => Ok(EntriesV {
                    attributes: gk_insert(s1.attributes, flat_name(owner, attrs.last().id@),
                        AttrV { owner, name: attrs.last().id@, elements: es }),
                    ..s1
                }),
            },
        }
    }
}

/// One entry added: a message with a value, a term, and the attributes of
/// either; comments and junk leave the entries as they are.
pub open spec fn extract_entry(st: EntriesV, e: FtlEntry, b: Seq<(String, BuiltInFuncDef)>) -> Result<EntriesV, Seq<char>> {
    match e {
        FtlEntry::Message { id, value, attributes } => match (match value {
            None => Ok(st),
            Some(p) => match conv_elements(p.elements@, b) {
                Err(m) => Err(m),
                Ok(es) => Ok(EntriesV { messages: gk_insert(st.messages, id@, NamedV { name: id@, elements: es }), ..st }),
            },
        }) {
            Err(m) => Err(m),
            Ok(s1) => extract_attrs(s1, id@, attributes@, b),
        },
        FtlEntry::Term { id, value, attributes } => match conv_elements(value.elements@, b) {
            Err(m) => Err(m),
            Ok(es) => extract_attrs(EntriesV { terms: gk_insert(st.terms, id@, NamedV { name: id@, elements: es }), ..st },
                id@, attributes@, b),
        },
        FtlEntry::Other => Ok(st),
    }
}

/// The messages, terms and attributes of a resource, in order of appearance
/// (a later entry of the same name replaces an earlier one).
pub open spec fn extract_spec(body: Seq<FtlEntry>, b: Seq<(String, BuiltInFuncDef)>) -> Result<EntriesV, Seq<char>>
    decreases body.len(),
{
    if body.len() == 0 {
        Ok(empty_entries())
    } else {
        match extract_spec(body.drop_last(), b) {
            Err(m) => Err(m),
            Ok(st) => extract_entry(st, body.last(), b),
        }
    }
}

fn add_attrs(le: &mut LocaleEntries, owner: &String, attrs: &Vec<FtlAttribute>, builtins: &Vec<(String, BuiltInFuncDef)>)
    -> (res: Result<(), String>)
    ensures
        match res {
            Ok(()) => extract_attrs(entries_v(*old(le)), owner@, attrs@, builtins@) == Ok::<EntriesV, Seq<char>>(entries_v(*final(le))),
            Err(m) => extract_attrs(entries_v(*old(le)), owner@, attrs@, builtins@) == Err::<EntriesV, Seq<char>>(m@),
        },
{
    let ghost st0 = entries_v(*le);
    let mut i: usize = 0;
    assert(attrs@.subrange(0, 0) =~= Seq::<FtlAttribute>::empty());
    while i < attrs.len()
        invariant
            i <= attrs@.len(),
            st0 == entries_v(*old(le)),
            extract_attrs(st0, owner@, attrs@.subrange(0, i as int), builtins@) == Ok::<EntriesV, Seq<char>>(entries_v(*le)),
        decreases attrs@.len() - i,
    {
        assert(attrs@.subrange(0, i + 1).drop_last() =~= attrs@.subrange(0, i as int));
        match convert_elements(&attrs[i].value.elements, builtins) {
            Ok(es) => {
                let k = flatten_attr_name(owner.as_str(), attrs[i].id.as_str());
                let a = Attribute { owner: copy_string(owner), name: copy_string(&attrs[i].id), elements: es };
                proof {
                    lemma_kv_insert(le.attributes@, |a: Attribute| crate::ast::attribute_v(a), k, a);
                }
                keyed_insert_exec(&mut le.attributes, k, a);
            },
            Err(m) => {
                proof {
                    lemma_attrs_err(st0, owner@, attrs@, builtins@, i as int + 1, m@);
                }
                return Err(m);
            },
        }
        i += 1;
    }
    assert(attrs@.subrange(0, i as int) =~= attrs@);
    Ok(())
}

proof fn lemma_attrs_err(st: EntriesV, owner: Seq<char>, attrs: Seq<FtlAttribute>, b: Seq<(String, BuiltInFuncDef)>,
    n: int, m: Seq<char>)
    requires
        0 <= n <= attrs.len(),
        extract_attrs(st, owner, attrs.subrange(0, n), b) == Err::<EntriesV, Seq<char>>(m),
    ensures
        extract_attrs(st, owner, attrs, b) == Err::<EntriesV, Seq<char>>(m),
    decreases attrs.len() - n,
{
    if n == attrs.len() {
        assert(attrs.subrange(0, n) =~= attrs);
    } else {
        assert(attrs.subrange(0, n + 1).drop_last() =~= attrs.subrange(0, n));
        lemma_attrs_err(st, owner, attrs, b, n + 1, m);
    }
}

fn add_entry(le: &mut LocaleEntries, e: &FtlEntry, builtins: &Vec<(String, BuiltInFuncDef)>) -> (res: Result<(), String>)
    ensures
        match res {
            Ok(()) => extract_entry(entries_v(*old(le)), *e, builtins@) == Ok::<EntriesV, Seq<char>>(entries_v(*final(le))),
            Err(m) => extract_entry(entries_v(*old(le)), *e, builtins@) == Err::<EntriesV, Seq<char>>(m@),
        },
{
    match e {
        FtlEntry::Message { id, value, attributes } => {
            match value {
                Some(p) => match convert_elements(&p.elements, builtins) {
                    Ok(es) => {
                        let msg = Message { name: copy_string(id), elements: es };
                        let k = copy_string(id);
                        proof {
                            lemma_kv_insert(le.messages@, |m: Message| crate::ast::message_v(m), k, msg);
                        }
                        keyed_insert_exec(&mut le.messages, k, msg);
                    },
                    Err(m) => return Err(m),
                },
                None => {},
            }
            add_attrs(le, id, attributes, builtins)
        },
        FtlEntry::Term { id, value, attributes } => {
            match convert_elements(&value.elements, builtins) {
                Ok(es) => {
                    let t = Term { name: copy_string(id), elements: es };
                    let k = copy_string(id);
                    proof {
                        lemma_kv_insert(le.terms@, |t: Term| crate::ast::term_v(t), k, t);
                    }
                    keyed_insert_exec(&mut le.terms, k, t);
                },
                Err(m) => return Err(m),
            }
            add_attrs(le, id, attributes, builtins)
        },
        FtlEntry::Other => Ok(()),
    }
}

/// The messages, terms and attributes of a parsed resource.
pub fn extract(resource: &FtlResource, builtins: &Vec<(String, BuiltInFuncDef)>) -> (res: Result<LocaleEntries, String>)
    ensures
        match res {
            Ok(le) => extract_spec(resource.body@, builtins@) == Ok::<EntriesV, Seq<char>>(entries_v(le)),
            Err(m) => extract_spec(resource.body@, builtins@) == Err::<EntriesV, Seq<char>>(m@),
        },
{
    let mut le = LocaleEntries { messages: Vec::new(), terms: Vec::new(), attributes: Vec::new() };
    assert(entries_v(le) =~= empty_entries()) by {
        assert(entries_v(le).messages =~= Seq::<(Seq<char>, NamedV)>::empty());
        assert(entries_v(le).terms =~= Seq::<(Seq<char>, NamedV)>::empty());
        assert(entries_v(le).attributes =~= Seq::<(Seq<char>, AttrV)>::empty());
    }
    let body = &resource.body;
    let mut i: usize = 0;
    assert(body@.subrange(0, 0) =~= Seq::<FtlEntry>::empty());
    while i < body.len()
        invariant
            body@ == resource.body@,
            i <= body@.len(),
            extract_spec(body@.subrange(0, i as int), builtins@) == Ok::<EntriesV, Seq<char>>(entries_v(le)),
        decreases body@.len() - i,
    {
        assert(body@.subrange(0, i + 1).drop_last() =~= body@.subrange(0, i as int));
        match add_entry(&mut le, &body[i], builtins) {
            Ok(()) => {},
            Err(m) => {
                proof {
                    lemma_extract_err(body@, builtins@, i as int + 1, m@);
                }
                return Err(m);
            },
        }
        i += 1;
    }
    assert(body@.subrange(0, i as int) =~= body@);
    Ok(le)
}

proof fn lemma_extract_err(body: Seq<FtlEntry>, b: Seq<(String, BuiltInFuncDef)>, n: int, m: Seq<char>)
    requires
        0 <= n <= body.len(),
        extract_spec(body.subrange(0, n), b) == Err::<EntriesV, Seq<char>>(m),
    ensures
        extract_spec(body, b) == Err::<EntriesV, Seq<char>>(m),
    decreases body.len() - n,
{
    if n == body.len() {
        assert(body.subrange(0, n) =~= body);
    } else {
        assert(body.subrange(0, n + 1).drop_last() =~= body.subrange(0, n));
        lemma_extract_err(body, b, n + 1, m);
    }
}

// ---------------------------------------------------------------------
// Conversion reads the built-ins through their model only
// ---------------------------------------------------------------------

proof fn lemma_conv_function_defs(fname: Seq<char>, args: FtlCallArguments, b1: Seq<(String, BuiltInFuncDef)>,
    b2: Seq<(String, BuiltInFuncDef)>)
    requires
        defs_model(b1) == defs_model(b2),
    ensures
        conv_function(fname, args, b1) == conv_function(fname, args, b2),
{
    crate::keyed::lemma_kv_lookup(b1, |d: BuiltInFuncDef| def_v(d), fname);
    crate::keyed::lemma_kv_lookup(b2, |d: BuiltInFuncDef| def_v(d), fname);
}

proof fn lemma_conv_expr_defs(e: FtlExpression, b1: Seq<(String, BuiltInFuncDef)>, b2: Seq<(String, BuiltInFuncDef)>)
    requires
        defs_model(b1) == defs_model(b2),
    ensures
        conv_expr(e, b1) == conv_expr(e, b2),
    decreases e,
{
    match e {
        FtlExpression::Inline(x) => match x {
            FtlInline::FunctionReference { id, arguments } => lemma_conv_function_defs(id@, arguments, b1, b2),
            _ => {},
        },
        FtlExpression::Select { selector, variants } => lemma_conv_variants_defs(variants@, b1, b2),
    }
}

proof fn lemma_conv_variants_defs(vs: Seq<FtlVariant>, b1: Seq<(String, BuiltInFuncDef)>,
    b2: Seq<(String, BuiltInFuncDef)>)
    requires
        defs_model(b1) == defs_model(b2),
    ensures
        conv_variants(vs, b1) == conv_variants(vs, b2),
    decreases vs,
{
    if vs.len() > 0 {
        lemma_conv_variants_defs(vs.drop_last(), b1, b2);
        lemma_conv_elements_defs(vs.last().value.elements@, b1, b2);
    }
}

proof fn lemma_conv_elements_defs(es: Seq<FtlPatternElement>, b1: Seq<(String, BuiltInFuncDef)>,
    b2: Seq<(String, BuiltInFuncDef)>)
    requires
        defs_model(b1) == defs_model(b2),
    ensures
        conv_elements(es, b1) == conv_elements(es, b2),
    decreases es,
{
    if es.len() > 0 {
        lemma_conv_elements_defs(es.drop_last(), b1, b2);
        lemma_conv_element_defs(es.last(), b1, b2);
    }
}

proof fn lemma_conv_element_defs(e: FtlPatternElement, b1: Seq<(String, BuiltInFuncDef)>,
    b2: Seq<(String, BuiltInFuncDef)>)
    requires
        defs_model(b1) == defs_model(b2),
    ensures
        conv_element(e, b1) == conv_element(e, b2),
    decreases e,
{
    match e {
        FtlPatternElement::Placeable { expression } => lemma_conv_expr_defs(expression, b1, b2),
        _ => {},
    }
}

proof fn lemma_extract_attrs_defs(st: EntriesV, owner: Seq<char>, attrs: Seq<FtlAttribute>,
    b1: Seq<(String, BuiltInFuncDef)>, b2: Seq<(String, BuiltInFuncDef)>)
    requires
        defs_model(b1) == defs_model(b2),
    ensures
        extract_attrs(st, owner, attrs, b1) == extract_attrs(st, owner, attrs, b2),
    decreases attrs.len(),
{
    if attrs.len() > 0 {
        lemma_extract_attrs_defs(st, owner, attrs.drop_last(), b1, b2);
        lemma_conv_elements_defs(attrs.last().value.elements@, b1, b2);
    }
}

proof fn lemma_extract_entry_defs(st: EntriesV, e: FtlEntry, b1: Seq<(String, BuiltInFuncDef)>,
    b2: Seq<(String, BuiltInFuncDef)>)
    requires
        defs_model(b1) == defs_model(b2),
    ensures
        extract_entry(st, e, b1) == extract_entry(st, e, b2),
{
    match e {
        FtlEntry::Message { id, value, attributes } => match value {
            None => lemma_extract_attrs_defs(st, id@, attributes@, b1, b2),
            Some(p) => {
                lemma_conv_elements_defs(p.elements@, b1, b2);
                if let Ok(es) = conv_elements(p.elements@, b1) {
                    let s1 = EntriesV { messages: gk_insert(st.messages, id@, NamedV { name: id@, elements: es }), ..st };
                    lemma_extract_attrs_defs(s1, id@, attributes@, b1, b2);
                }
            },
        },
        FtlEntry::Term { id, value, attributes } => {
            lemma_conv_elements_defs(value.elements@, b1, b2);
            if let Ok(es) = conv_elements(value.elements@, b1) {
                let s1 = EntriesV { terms: gk_insert(st.terms, id@, NamedV { name: id@, elements: es }), ..st };
                lemma_extract_attrs_defs(s1, id@, attributes@, b1, b2);
            }
        },
        FtlEntry::Other => {},
    }
}

/// Extraction reads the built-ins only through their model.
pub proof fn lemma_extract_defs(body: Seq<FtlEntry>, b1: Seq<(String, BuiltInFuncDef)>, b2: Seq<(String, BuiltInFuncDef)>)
    requires
        defs_model(b1) == defs_model(b2),
    ensures
        extract_spec(body, b1) == extract_spec(body, b2),
    decreases body.len(),
{
    if body.len() > 0 {
        lemma_extract_defs(body.drop_last(), b1, b2);
        if let Ok(st) = extract_spec(body.drop_last(), b1) {
            lemma_extract_entry_defs(st, body.last(), b1, b2);
        }
    }
}

} // verus!
