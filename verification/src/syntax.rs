//! The FTL syntax tree as the Fluent parser produces it: every node of the
//! parser's tree, with identifiers and literals held as owned strings.
//! `Debug`-style renderings of the nodes are given for error messages.
use vstd::prelude::*;
use crate::text::{debug_str, push_str, str_debug};

verus! {

pub struct FtlResource {
    pub body: Vec<FtlEntry>,
}

pub enum FtlEntry {
    Message { id: String, value: Option<FtlPattern>, attributes: Vec<FtlAttribute> },
    Term { id: String, value: FtlPattern, attributes: Vec<FtlAttribute> },
    /// Comments and junk, which carry nothing the generator reads.
    Other,
}

pub struct FtlAttribute {
    pub id: String,
    pub value: FtlPattern,
}

pub struct FtlPattern {
    pub elements: Vec<FtlPatternElement>,
}

pub enum FtlPatternElement {
    TextElement { value: String },
    Placeable { expression: FtlExpression },
}

pub enum FtlExpression {
    Select { selector: FtlInline, variants: Vec<FtlVariant> },
    Inline(FtlInline),
}

pub struct FtlVariant {
    pub key: FtlVariantKey,
    pub value: FtlPattern,
    pub default: bool,
}

pub enum FtlVariantKey {
    Identifier { name: String },
    NumberLiteral { value: String },
}

pub struct FtlCallArguments {
    pub positional: Vec<FtlInline>,
    pub named: Vec<FtlNamedArgument>,
}

pub struct FtlNamedArgument {
    pub name: String,
    pub value: FtlInline,
}

pub enum FtlInline {
    StringLiteral { value: String },
    NumberLiteral { value: String },
    FunctionReference { id: String, arguments: FtlCallArguments },
    MessageReference { id: String, attribute: Option<String> },
    TermReference { id: String, attribute: Option<String>, arguments: Option<FtlCallArguments> },
    VariableReference { id: String },
    Placeable { expression: Box<FtlExpression> },
}

/// A syntax error: the byte range it points at and its message.
pub struct FtlParseError {
    pub start: usize,
    pub end: usize,
    pub message: String,
}

// ---------------------------------------------------------------------
// Debug renderings, in the shape the parser's own tree prints with `{:?}`
// ---------------------------------------------------------------------

pub open spec fn ident_dbg(name: Seq<char>) -> Seq<char> {
    "Identifier { name: "@ + str_debug(name) + " }"@
}

pub open spec fn opt_ident_dbg(o: Option<String>) -> Seq<char> {
    match o {
        Some(n) => "Some("@ + ident_dbg(n@) + ")"@,
        None => "None"@,
    }
}

pub open spec fn inline_dbg(x: FtlInline) -> Seq<char>
    decreases x,
{
    match x {
        FtlInline::StringLiteral { value } => "StringLiteral { value: "@ + str_debug(value@) + " }"@,
        FtlInline::NumberLiteral { value } => "NumberLiteral { value: "@ + str_debug(value@) + " }"@,
        FtlInline::FunctionReference { id, arguments } =>
            "FunctionReference { id: "@ + ident_dbg(id@) + ", arguments: "@ + args_dbg(arguments) + " }"@,
        FtlInline::MessageReference { id, attribute } =>
            "MessageReference { id: "@ + ident_dbg(id@) + ", attribute: "@ + opt_ident_dbg(attribute) + " }"@,
        FtlInline::TermReference { id, attribute, arguments } =>
            "TermReference { id: "@ + ident_dbg(id@) + ", attribute: "@ + opt_ident_dbg(attribute)
                + ", arguments: "@ + match arguments {
                    Some(a) => "Some("@ + args_dbg(a) + ")"@,
                    None => "None"@,
                } + " }"@,
        FtlInline::VariableReference { id } => "VariableReference { id: "@ + ident_dbg(id@) + " }"@,
        FtlInline::Placeable { expression } => "Placeable { expression: "@ + expr_dbg(*expression) + " }"@,
    }
}

pub open spec fn args_dbg(a: FtlCallArguments) -> Seq<char>
    decreases a,
{
    "CallArguments { positional: ["@ + inlines_dbg(a.positional@) + "], named: ["@ + nameds_dbg(a.named@) + "] }"@
}

pub open spec fn inlines_dbg(xs: Seq<FtlInline>) -> Seq<char>
    decreases xs,
{
    if xs.len() == 0 {
        Seq::empty()
    } else if xs.len() == 1 {
        inline_dbg(xs[0])
    } else {
        inlines_dbg(xs.drop_last()) + ", "@ + inline_dbg(xs.last())
    }
}

pub open spec fn nameds_dbg(xs: Seq<FtlNamedArgument>) -> Seq<char>
    decreases xs,
{
    if xs.len() == 0 {
        Seq::empty()
    } else if xs.len() == 1 {
        named_dbg(xs[0])
    } else {
        nameds_dbg(xs.drop_last()) + ", "@ + named_dbg(xs.last())
    }
}

pub open spec fn named_dbg(n: FtlNamedArgument) -> Seq<char>
    decreases n,
{
    "NamedArgument { name: "@ + ident_dbg(n.name@) + ", value: "@ + inline_dbg(n.value) + " }"@
}

pub open spec fn expr_dbg(e: FtlExpression) -> Seq<char>
    decreases e,
{
    match e {
        FtlExpression::Select { selector, variants } =>
            "Select { selector: "@ + inline_dbg(selector) + ", variants: ["@ + variants_dbg(variants@) + "] }"@,
        FtlExpression::Inline(x) => "Inline("@ + inline_dbg(x) + ")"@,
    }
}

pub open spec fn variants_dbg(vs: Seq<FtlVariant>) -> Seq<char>
    decreases vs,
{
    if vs.len() == 0 {
        Seq::empty()
    } else if vs.len() == 1 {
        variant_dbg(vs[0])
    } else {
        variants_dbg(vs.drop_last()) + ", "@ + variant_dbg(vs.last())
    }
}

pub open spec fn key_dbg(k: FtlVariantKey) -> Seq<char> {
    match k {
        FtlVariantKey::Identifier { name } => ident_dbg(name@),
        FtlVariantKey::NumberLiteral { value } => "NumberLiteral { value: "@ + str_debug(value@) + " }"@,
    }
}

pub open spec fn variant_dbg(v: FtlVariant) -> Seq<char>
    decreases v,
{
    "Variant { key: "@ + key_dbg(v.key) + ", value: "@ + pattern_dbg(v.value) + ", default: "@
        + (if v.default { "true"@ } else { "false"@ }) + " }"@
}

pub open spec fn pattern_dbg(p: FtlPattern) -> Seq<char>
    decreases p,
{
    "Pattern { elements: ["@ + pelems_dbg(p.elements@) + "] }"@
}

pub open spec fn pelems_dbg(es: Seq<FtlPatternElement>) -> Seq<char>
    decreases es,
{
    if es.len() == 0 {
        Seq::empty()
    } else if es.len() == 1 {
        pelem_dbg(es[0])
    } else {
        pelems_dbg(es.drop_last()) + ", "@ + pelem_dbg(es.last())
    }
}

pub open spec fn pelem_dbg(e: FtlPatternElement) -> Seq<char>
    decreases e,
{
    match e {
        FtlPatternElement::TextElement { value } => "TextElement { value: "@ + str_debug(value@) + " }"@,
        FtlPatternElement::Placeable { expression } => "Placeable { expression: "@ + expr_dbg(expression) + " }"@,
    }
}

fn write_ident_dbg(out: &mut String, name: &str)
    ensures
        final(out)@ == old(out)@ + ident_dbg(name@),
{
    let ghost o = out@;
    push_str(out, "Identifier { name: ");
    let d = debug_str(name);
    push_str(out, d.as_str());
    push_str(out, " }");
    assert(out@ =~= o + ident_dbg(name@));
}

fn write_opt_ident_dbg(out: &mut String, o: &Option<String>)
    ensures
        final(out)@ == old(out)@ + opt_ident_dbg(*o),
{
    let ghost before = out@;
    match o {
        Some(n) => {
            push_str(out, "Some(");
            write_ident_dbg(out, n.as_str());
            push_str(out, ")");
        },
        None => push_str(out, "None"),
    }
    assert(out@ =~= before + opt_ident_dbg(*o));
}

fn write_literal_dbg(out: &mut String, head: &str, value: &str)
    ensures
        final(out)@ == old(out)@ + head@ + str_debug(value@) + " }"@,
{
    let ghost o = out@;
    push_str(out, head);
    let d = debug_str(value);
    push_str(out, d.as_str());
    push_str(out, " }");
    assert(out@ =~= o + head@ + str_debug(value@) + " }"@);
}

/// Appends the `Debug` rendering of an inline expression.
pub fn write_inline_dbg(out: &mut String, x: &FtlInline)
    ensures
        final(out)@ == old(out)@ + inline_dbg(*x),
    decreases x,
{
    let ghost o = out@;
    match x {
        FtlInline::StringLiteral { value } => {
            write_literal_dbg(out, "StringLiteral { value: ", value.as_str());
        },
        FtlInline::NumberLiteral { value } => {
            write_literal_dbg(out, "NumberLiteral { value: ", value.as_str());
        },
        FtlInline::FunctionReference { id, arguments } => {
            push_str(out, "FunctionReference { id: ");
            write_ident_dbg(out, id.as_str());
            push_str(out, ", arguments: ");
            write_args_dbg(out, arguments);
            push_str(out, " }");
        },
        FtlInline::MessageReference { id, attribute } => {
            push_str(out, "MessageReference { id: ");
            write_ident_dbg(out, id.as_str());
            push_str(out, ", attribute: ");
            write_opt_ident_dbg(out, attribute);
            push_str(out, " }");
        },
        FtlInline::TermReference { id, attribute, arguments } => {
            push_str(out, "TermReference { id: ");
            write_ident_dbg(out, id.as_str());
            push_str(out, ", attribute: ");
            write_opt_ident_dbg(out, attribute);
            push_str(out, ", arguments: ");
            let ghost mid = out@;
            match arguments {
                Some(a) => {
                    push_str(out, "Some(");
                    write_args_dbg(out, a);
                    push_str(out, ")");
                },
                None => push_str(out, "None"),
            }
            assert(out@ =~= mid + match arguments {
                Some(a) => "Some("@ + args_dbg(*a) + ")"@,
                None => "None"@,
            });
            push_str(out, " }");
        },
        FtlInline::VariableReference { id } => {
            push_str(out, "VariableReference { id: ");
            write_ident_dbg(out, id.as_str());
            push_str(out, " }");
        },
        FtlInline::Placeable { expression } => {
            push_str(out, "Placeable { expression: ");
            write_expr_dbg(out, expression);
            push_str(out, " }");
        },
    }
    assert(out@ =~= o + inline_dbg(*x));
}

fn write_args_dbg(out: &mut String, a: &FtlCallArguments)
    ensures
        final(out)@ == old(out)@ + args_dbg(*a),
    decreases a,
{
    let ghost o = out@;
    push_str(out, "CallArguments { positional: [");
    write_inlines_dbg(out, &a.positional);
    push_str(out, "], named: [");
    write_nameds_dbg(out, &a.named);
    push_str(out, "] }");
    assert(out@ =~= o + args_dbg(*a));
}

fn write_inlines_dbg(out: &mut String, xs: &Vec<FtlInline>)
    ensures
        final(out)@ == old(out)@ + inlines_dbg(xs@),
    decreases xs,
{
    let ghost o = out@;
    let mut i: usize = 0;
    assert(xs@.subrange(0, 0) =~= Seq::<FtlInline>::empty());
    while i < xs.len()
        invariant
            i <= xs@.len(),
            out@ == o + inlines_dbg(xs@.subrange(0, i as int)),
        decreases xs@.len() - i,
    {
        let ghost before = out@;
        if i > 0 {
            push_str(out, ", ");
        }
        assert(xs@.subrange(0, i + 1).drop_last() =~= xs@.subrange(0, i as int));
        if i == 0 {
            assert(xs@.subrange(0, 1)[0] == xs@[0]);
        }
        write_inline_dbg(out, &xs[i]);
        assert(out@ =~= o + inlines_dbg(xs@.subrange(0, i + 1)));
        i += 1;
    }
    assert(xs@.subrange(0, i as int) =~= xs@);
}

fn write_nameds_dbg(out: &mut String, xs: &Vec<FtlNamedArgument>)
    ensures
        final(out)@ == old(out)@ + nameds_dbg(xs@),
    decreases xs,
{
    let ghost o = out@;
    let mut i: usize = 0;
    assert(xs@.subrange(0, 0) =~= Seq::<FtlNamedArgument>::empty());
    while i < xs.len()
        invariant
            i <= xs@.len(),
            out@ == o + nameds_dbg(xs@.subrange(0, i as int)),
        decreases xs@.len() - i,
    {
        if i > 0 {
            push_str(out, ", ");
        }
        assert(xs@.subrange(0, i + 1).drop_last() =~= xs@.subrange(0, i as int));
        if i == 0 {
            assert(xs@.subrange(0, 1)[0] == xs@[0]);
        }
        write_named_dbg(out, &xs[i]);
        assert(out@ =~= o + nameds_dbg(xs@.subrange(0, i + 1)));
        i += 1;
    }
    assert(xs@.subrange(0, i as int) =~= xs@);
}

fn write_named_dbg(out: &mut String, n: &FtlNamedArgument)
    ensures
        final(out)@ == old(out)@ + named_dbg(*n),
    decreases n,
{
    let ghost o = out@;
    push_str(out, "NamedArgument { name: ");
    write_ident_dbg(out, n.name.as_str());
    push_str(out, ", value: ");
    write_inline_dbg(out, &n.value);
    push_str(out, " }");
    assert(out@ =~= o + named_dbg(*n));
}

/// Appends the `Debug` rendering of an expression.
pub fn write_expr_dbg(out: &mut String, e: &FtlExpression)
    ensures
        final(out)@ == old(out)@ + expr_dbg(*e),
    decreases e,
{
    let ghost o = out@;
    match e {
        FtlExpression::Select { selector, variants } => {
            push_str(out, "Select { selector: ");
            write_inline_dbg(out, selector);
            push_str(out, ", variants: [");
            write_variants_dbg(out, variants);
            push_str(out, "] }");
        },
        FtlExpression::Inline(x) => {
            push_str(out, "Inline(");
            write_inline_dbg(out, x);
            push_str(out, ")");
        },
    }
    assert(out@ =~= o + expr_dbg(*e));
}

fn write_variants_dbg(out: &mut String, vs: &Vec<FtlVariant>)
    ensures
        final(out)@ == old(out)@ + variants_dbg(vs@),
    decreases vs,
{
    let ghost o = out@;
    let mut i: usize = 0;
    assert(vs@.subrange(0, 0) =~= Seq::<FtlVariant>::empty());
    while i < vs.len()
        invariant
            i <= vs@.len(),
            out@ == o + variants_dbg(vs@.subrange(0, i as int)),
        decreases vs@.len() - i,
    {
        if i > 0 {
            push_str(out, ", ");
        }
        assert(vs@.subrange(0, i + 1).drop_last() =~= vs@.subrange(0, i as int));
        if i == 0 {
            assert(vs@.subrange(0, 1)[0] == vs@[0]);
        }
        write_variant_dbg(out, &vs[i]);
        assert(out@ =~= o + variants_dbg(vs@.subrange(0, i + 1)));
        i += 1;
    }
    assert(vs@.subrange(0, i as int) =~= vs@);
}

fn write_variant_dbg(out: &mut String, v: &FtlVariant)
    ensures
        final(out)@ == old(out)@ + variant_dbg(*v),
    decreases v,
{
    let ghost o = out@;
    push_str(out, "Variant { key: ");
    let ghost k0 = out@;
    match &v.key {
        FtlVariantKey::Identifier { name } => write_ident_dbg(out, name.as_str()),
        FtlVariantKey::NumberLiteral { value } => write_literal_dbg(out, "NumberLiteral { value: ", value.as_str()),
    }
    assert(out@ =~= k0 + key_dbg(v.key));
    push_str(out, ", value: ");
    write_pattern_dbg(out, &v.value);
    push_str(out, ", default: ");
    if v.default {
        push_str(out, "true");
    } else {
        push_str(out, "false");
    }
    push_str(out, " }");
    assert(out@ =~= o + variant_dbg(*v));
}

fn write_pattern_dbg(out: &mut String, p: &FtlPattern)
    ensures
        final(out)@ == old(out)@ + pattern_dbg(*p),
    decreases p,
{
    let ghost o = out@;
    push_str(out, "Pattern { elements: [");
    write_pelems_dbg(out, &p.elements);
    push_str(out, "] }");
    assert(out@ =~= o + pattern_dbg(*p));
}

fn write_pelems_dbg(out: &mut String, es: &Vec<FtlPatternElement>)
    ensures
        final(out)@ == old(out)@ + pelems_dbg(es@),
    decreases es,
{
    let ghost o = out@;
    let mut i: usize = 0;
    assert(es@.subrange(0, 0) =~= Seq::<FtlPatternElement>::empty());
    while i < es.len()
        invariant
            i <= es@.len(),
            out@ == o + pelems_dbg(es@.subrange(0, i as int)),
        decreases es@.len() - i,
    {
        if i > 0 {
            push_str(out, ", ");
        }
        assert(es@.subrange(0, i + 1).drop_last() =~= es@.subrange(0, i as int));
        if i == 0 {
            assert(es@.subrange(0, 1)[0] == es@[0]);
        }
        write_pelem_dbg(out, &es[i]);
        assert(out@ =~= o + pelems_dbg(es@.subrange(0, i + 1)));
        i += 1;
    }
    assert(es@.subrange(0, i as int) =~= es@);
}

fn write_pelem_dbg(out: &mut String, e: &FtlPatternElement)
    ensures
        final(out)@ == old(out)@ + pelem_dbg(*e),
    decreases e,
{
    let ghost o = out@;
    match e {
        FtlPatternElement::TextElement { value } => {
            write_literal_dbg(out, "TextElement { value: ", value.as_str());
        },
        FtlPatternElement::Placeable { expression } => {
            push_str(out, "Placeable { expression: ");
            write_expr_dbg(out, expression);
            push_str(out, " }");
        },
    }
    assert(out@ =~= o + pelem_dbg(*e));
}

} // verus!
