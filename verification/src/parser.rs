//! Parsing FTL text with the Fluent parser, and copying its tree into the
//! library's syntax types.
use vstd::prelude::*;
use fluent_syntax::ast as fluent;
use fluent_syntax::ast::{Entry, InlineExpression};
use crate::syntax::{FtlAttribute, FtlCallArguments, FtlEntry, FtlExpression, FtlInline, FtlNamedArgument,
    FtlParseError, FtlPattern, FtlPatternElement, FtlResource, FtlVariant, FtlVariantKey};

verus! {

// The parser's tree types, declared so that the copying functions below can
// take them; their contents stay opaque here.

#[verifier::external_type_specification]
#[verifier::external_body]
#[verifier::reject_recursive_types(S)]
pub struct ExResource<S>(fluent::Resource<S>);

#[verifier::external_type_specification]
#[verifier::external_body]
#[verifier::reject_recursive_types(S)]
pub struct ExEntry<S>(fluent::Entry<S>);

#[verifier::external_type_specification]
#[verifier::external_body]
#[verifier::reject_recursive_types(S)]
pub struct ExPattern<S>(fluent::Pattern<S>);

#[verifier::external_type_specification]
#[verifier::external_body]
#[verifier::reject_recursive_types(S)]
pub struct ExPatternElement<S>(fluent::PatternElement<S>);

#[verifier::external_type_specification]
#[verifier::external_body]
#[verifier::reject_recursive_types(S)]
pub struct ExExpression<S>(fluent::Expression<S>);

#[verifier::external_type_specification]
#[verifier::external_body]
#[verifier::reject_recursive_types(S)]
pub struct ExInlineExpression<S>(fluent::InlineExpression<S>);

#[verifier::external_type_specification]
#[verifier::external_body]
#[verifier::reject_recursive_types(S)]
pub struct ExCallArguments<S>(fluent::CallArguments<S>);

#[verifier::external_type_specification]
#[verifier::external_body]
#[verifier::reject_recursive_types(S)]
pub struct ExVariantKey<S>(fluent::VariantKey<S>);

#[verifier::external_type_specification]
#[verifier::external_body]
#[verifier::reject_recursive_types(S)]
pub struct ExIdentifier<S>(fluent::Identifier<S>);

#[verifier::external_type_specification]
#[verifier::external_body]
pub struct ExParserError(fluent_syntax::parser::ParserError);

/// A parsed locale file: the entries that could be parsed, and the syntax
/// errors in the order the parser met them.
pub struct ParsedSource {
    pub resource: FtlResource,
    pub errors: Vec<FtlParseError>,
}

/// What a parse gives, as sequences.
pub struct ParsedV {
    pub body: Seq<FtlEntry>,
    pub errors: Seq<FtlParseError>,
}

pub open spec fn parsed_v(p: ParsedSource) -> ParsedV {
    ParsedV { body: p.resource.body@, errors: p.errors@ }
}

/// What the Fluent parser makes of a text.
pub uninterp spec fn ftl_parse(text: Seq<char>) -> ParsedV;

/// `fluent_syntax::parser::parse`: the entries of the text (for a text with
/// syntax errors, those that could be parsed) and each error's byte range
/// and message, the tree copied node for node into the library's syntax
/// types. The result is a function of the text, named by `ftl_parse`.
#[verifier::external_body]
pub(crate) fn parse_ftl(text: &str) -> (res: ParsedSource)
    ensures
        parsed_v(res) == ftl_parse(text@),
{
    let (r, errs) = match fluent_syntax::parser::parse(text) {
        Ok(r) => (r, Vec::new()),
        Err((r, errs)) => (r, errs),
    };
    ParsedSource { resource: resource_of(&r), errors: errs.iter().map(error_of).collect() }
}

/// Copies a parser error: its byte range and its message.
#[verifier::external_body]
fn error_of(e: &fluent_syntax::parser::ParserError) -> FtlParseError {
    FtlParseError { start: e.pos.start, end: e.pos.end, message: e.to_string() }
}

/// Copies a parsed resource.
#[verifier::external_body]
fn resource_of(r: &fluent::Resource<&str>) -> FtlResource {
    FtlResource { body: r.body.iter().map(entry_of).collect() }
}

/// Copies an entry; comments and junk become `Other`.
#[verifier::external_body]
fn entry_of(e: &fluent::Entry<&str>) -> FtlEntry {
    match e {
        Entry::Message(m) => FtlEntry::Message { id: ident_of(&m.id), value: m.value.as_ref().map(pattern_of),
            attributes: m.attributes.iter().map(|a| attribute_of(&a.id, &a.value)).collect() },
        Entry::Term(t) => FtlEntry::Term { id: ident_of(&t.id), value: pattern_of(&t.value),
            attributes: t.attributes.iter().map(|a| attribute_of(&a.id, &a.value)).collect() },
        Entry::Comment(_) => FtlEntry::Other,
        Entry::GroupComment(_) => FtlEntry::Other,
        Entry::ResourceComment(_) => FtlEntry::Other,
        Entry::Junk { .. } => FtlEntry::Other,
    }
}

/// Copies an attribute from its identifier and pattern.
#[verifier::external_body]
fn attribute_of(id: &fluent::Identifier<&str>, value: &fluent::Pattern<&str>) -> FtlAttribute {
    FtlAttribute { id: ident_of(id), value: pattern_of(value) }
}

/// Copies an identifier's name.
#[verifier::external_body]
fn ident_of(id: &fluent::Identifier<&str>) -> String {
    id.name.to_string()
}

/// Copies a pattern.
#[verifier::external_body]
fn pattern_of(p: &fluent::Pattern<&str>) -> FtlPattern {
    FtlPattern { elements: p.elements.iter().map(element_of).collect() }
}

/// Copies a pattern element.
#[verifier::external_body]
fn element_of(e: &fluent::PatternElement<&str>) -> FtlPatternElement {
    match e {
        fluent::PatternElement::TextElement { value } =>
            FtlPatternElement::TextElement { value: value.to_string() },
        fluent::PatternElement::Placeable { expression } =>
            FtlPatternElement::Placeable { expression: expression_of(expression) },
    }
}

/// Copies an expression.
#[verifier::external_body]
fn expression_of(e: &fluent::Expression<&str>) -> FtlExpression {
    match e {
        fluent::Expression::Select { selector, variants } => FtlExpression::Select {
            selector: inline_of(selector),
            variants: variants.iter()
                .map(|v| FtlVariant { key: key_of(&v.key), value: pattern_of(&v.value), default: v.default }).collect(),
        },
        fluent::Expression::Inline(i) => FtlExpression::Inline(inline_of(i)),
    }
}

/// Copies a variant key.
#[verifier::external_body]
fn key_of(k: &fluent::VariantKey<&str>) -> FtlVariantKey {
    match k {
        fluent::VariantKey::Identifier { name } => FtlVariantKey::Identifier { name: name.to_string() },
        fluent::VariantKey::NumberLiteral { value } => FtlVariantKey::NumberLiteral { value: value.to_string() },
    }
}

/// Copies the arguments of a call.
#[verifier::external_body]
fn arguments_of(a: &fluent::CallArguments<&str>) -> FtlCallArguments {
    FtlCallArguments {
        positional: a.positional.iter().map(inline_of).collect(),
        named: a.named.iter().map(|n| FtlNamedArgument { name: ident_of(&n.name), value: inline_of(&n.value) })
            .collect(),
    }
}

/// Copies a term reference from its parts.
#[verifier::external_body]
fn term_ref_of(id: &fluent::Identifier<&str>, attribute: &Option<fluent::Identifier<&str>>,
    arguments: &Option<fluent::CallArguments<&str>>) -> FtlInline {
    FtlInline::TermReference {
        id: ident_of(id),
        attribute: attribute.as_ref().map(ident_of),
        arguments: arguments.as_ref().map(arguments_of),
    }
}

/// Copies an inline expression.
#[verifier::external_body]
fn inline_of(i: &fluent::InlineExpression<&str>) -> FtlInline {
    match i {
        InlineExpression::StringLiteral { value } => FtlInline::StringLiteral { value: value.to_string() },
        InlineExpression::NumberLiteral { value } => FtlInline::NumberLiteral { value: value.to_string() },
        InlineExpression::FunctionReference { id, arguments } =>
            FtlInline::FunctionReference { id: ident_of(id), arguments: arguments_of(arguments) },
        InlineExpression::MessageReference { id, attribute } =>
            FtlInline::MessageReference { id: ident_of(id), attribute: attribute.as_ref().map(ident_of) },
        InlineExpression::TermReference { id, attribute, arguments } => term_ref_of(id, attribute, arguments),
        InlineExpression::VariableReference { id } => FtlInline::VariableReference { id: ident_of(id) },
        InlineExpression::Placeable { expression } =>
            FtlInline::Placeable { expression: Box::new(expression_of(expression)) },
    }
}

} // verus!
