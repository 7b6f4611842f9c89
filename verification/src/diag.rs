//! Diagnostics collected while loading locale files.
use vstd::prelude::*;
use crate::text::{dec_str, push_str, push_usize, string_of};

verus! {

#[derive(Debug, Clone)]
pub struct Diag {
    pub file: String,
    pub locale: String,
    pub context: String,
    pub message: String,
    pub kind: DiagKind,
}

#[derive(Debug, Clone, Copy, PartialEq, Eq, Structural)]
pub enum DiagKind {
    Error,
    Warning,
}

/// The tag a diagnostic of this kind is printed with.
pub open spec fn kind_tag(k: DiagKind) -> Seq<char> {
    match k {
        DiagKind::Error => "error"@,
        DiagKind::Warning => "warning"@,
    }
}

/// The model of a diagnostic.
pub struct DiagV {
    pub file: Seq<char>,
    pub locale: Seq<char>,
    pub context: Seq<char>,
    pub message: Seq<char>,
    pub kind: DiagKind,
}

pub open spec fn diag_v(d: Diag) -> DiagV {
    DiagV { file: d.file@, locale: d.locale@, context: d.context@, message: d.message@, kind: d.kind }
}

/// An error with no context.
pub open spec fn error_v(file: Seq<char>, locale: Seq<char>, message: Seq<char>) -> DiagV {
    DiagV { file, locale, context: Seq::empty(), message, kind: DiagKind::Error }
}

pub open spec fn diags_v(ds: Seq<Diag>) -> Seq<DiagV> {
    ds.map_values(|d: Diag| diag_v(d))
}

/// The one-line rendering of a diagnostic:
/// `file:` (when a file is known), ` [locale]` (when a locale is known),
/// ` tag: message`, then ` (context: ...)` when a context is known.
pub open spec fn display_v(d: DiagV) -> Seq<char> {
    (if d.file.len() > 0 { d.file + ":"@ } else { Seq::empty() })
        + (if d.locale.len() > 0 { " ["@ + d.locale + "]"@ } else { Seq::empty() })
        + " "@ + kind_tag(d.kind) + ": "@ + d.message
        + (if d.context.len() > 0 { " (context: "@ + d.context + ")"@ } else { Seq::empty() })
}

pub open spec fn display_spec(d: Diag) -> Seq<char> {
    display_v(diag_v(d))
}

impl Diag {
    /// An error diagnostic.
    pub fn error(file: &str, locale: &str, context: &str, message: &str) -> (res: Self)
        ensures
            res.file@ == file@,
            res.locale@ == locale@,
            res.context@ == context@,
            res.message@ == message@,
            res.kind == DiagKind::Error,
    {
        Diag {
            file: string_of(file),
            locale: string_of(locale),
            context: string_of(context),
            message: string_of(message),
            kind: DiagKind::Error,
        }
    }

    /// A warning diagnostic.
    pub fn warning(file: &str, locale: &str, context: &str, message: &str) -> (res: Self)
        ensures
            res.file@ == file@,
            res.locale@ == locale@,
            res.context@ == context@,
            res.message@ == message@,
            res.kind == DiagKind::Warning,
    {
        Diag {
            file: string_of(file),
            locale: string_of(locale),
            context: string_of(context),
            message: string_of(message),
            kind: DiagKind::Warning,
        }
    }

    /// Renders the diagnostic on one line.
    pub fn display(&self) -> (res: String)
        ensures
            res@ == display_spec(*self),
    {
        let mut s = String::new();
        if !self.file.as_str().is_empty() {
            push_str(&mut s, self.file.as_str());
            push_str(&mut s, ":");
        }
        if !self.locale.as_str().is_empty() {
            push_str(&mut s, " [");
            push_str(&mut s, self.locale.as_str());
            push_str(&mut s, "]");
        }
        push_str(&mut s, " ");
        match self.kind {
            DiagKind::Error => push_str(&mut s, "error"),
            DiagKind::Warning => push_str(&mut s, "warning"),
        }
        push_str(&mut s, ": ");
        push_str(&mut s, self.message.as_str());
        if !self.context.as_str().is_empty() {
            push_str(&mut s, " (context: ");
            push_str(&mut s, self.context.as_str());
            push_str(&mut s, ")");
        }
        assert(s@ =~= display_spec(*self));
        s
    }
}

/// What reporting a list of diagnostics prints and decides.
pub struct DiagReport {
    /// One rendered line per diagnostic, in order.
    pub lines: Vec<String>,
    pub errors: usize,
    pub warnings: usize,
    /// The abort message, present exactly when there is an error.
    pub abort: Option<String>,
}

/// Number of diagnostics of kind `k`.
pub open spec fn count_kind(ds: Seq<Diag>, k: DiagKind) -> nat
    decreases ds.len(),
{
    if ds.len() == 0 {
        0
    } else {
        count_kind(ds.drop_last(), k) + if ds.last().kind == k { 1nat } else { 0nat }
    }
}

/// Index of the first error diagnostic, if any.
pub open spec fn first_error_index(ds: Seq<Diag>) -> Option<int>
    decreases ds.len(),
{
    if ds.len() == 0 {
        None
    } else {
        match first_error_index(ds.drop_last()) {
            Some(i) => Some(i),
            None => if ds.last().kind == DiagKind::Error { Some(ds.len() - 1) } else { None },
        }
    }
}

/// The message with which loading aborts:
/// `ftl-codegen: E error(s), W warning(s) — aborting` and the first error's line.
pub open spec fn abort_spec(errors: nat, warnings: nat, first: Seq<char>) -> Seq<char> {
    "ftl-codegen: "@ + dec_str(errors) + " error(s), "@ + dec_str(warnings)
        + " warning(s) — aborting\n"@ + first
}

/// Number of diagnostic models of kind `k`.
pub open spec fn count_kind_v(ds: Seq<DiagV>, k: DiagKind) -> nat
    decreases ds.len(),
{
    if ds.len() == 0 {
        0
    } else {
        count_kind_v(ds.drop_last(), k) + if ds.last().kind == k { 1nat } else { 0nat }
    }
}

/// Index of the first error among diagnostic models.
pub open spec fn first_error_v(ds: Seq<DiagV>) -> Option<int>
    decreases ds.len(),
{
    if ds.len() == 0 {
        None
    } else {
        match first_error_v(ds.drop_last()) {
            Some(i) => Some(i),
            None => if ds.last().kind == DiagKind::Error { Some(ds.len() - 1) } else { None },
        }
    }
}

/// The message with which a list of diagnostics holding an error aborts.
pub open spec fn abort_message_v(ds: Seq<DiagV>) -> Seq<char> {
    abort_spec(count_kind_v(ds, DiagKind::Error), count_kind_v(ds, DiagKind::Warning),
        display_v(ds[first_error_v(ds)->0]))
}

pub proof fn lemma_counts_v(ds: Seq<Diag>)
    ensures
        count_kind(ds, DiagKind::Error) == count_kind_v(diags_v(ds), DiagKind::Error),
        count_kind(ds, DiagKind::Warning) == count_kind_v(diags_v(ds), DiagKind::Warning),
        first_error_index(ds) == first_error_v(diags_v(ds)),
    decreases ds.len(),
{
    if ds.len() > 0 {
        assert(diags_v(ds.drop_last()) =~= diags_v(ds).drop_last());
        lemma_counts_v(ds.drop_last());
    }
}

proof fn lemma_count_le(ds: Seq<Diag>, k: DiagKind)
    ensures
        count_kind(ds, k) <= ds.len(),
    decreases ds.len(),
{
    if ds.len() > 0 {
        lemma_count_le(ds.drop_last(), k);
    }
}

pub proof fn lemma_first_error(ds: Seq<Diag>)
    ensures
        first_error_index(ds) is None <==> count_kind(ds, DiagKind::Error) == 0,
        first_error_index(ds) matches Some(i) ==> 0 <= i < ds.len() && ds[i].kind == DiagKind::Error,
    decreases ds.len(),
{
    if ds.len() > 0 {
        lemma_first_error(ds.drop_last());
    }
}

/// Renders every diagnostic, counts errors and warnings, and decides whether
/// (and with which message) loading must abort: it aborts exactly when some
/// diagnostic is an error.
pub fn diagnostics_report(diags: &[Diag]) -> (res: DiagReport)
    ensures
        res.lines@.len() == diags@.len(),
        forall|i: int| 0 <= i < diags@.len() ==> #[trigger] res.lines@[i]@ == display_spec(diags@[i]),
        res.errors == count_kind(diags@, DiagKind::Error),
        res.warnings == count_kind(diags@, DiagKind::Warning),
        res.abort is Some <==> res.errors > 0,
        res.abort matches Some(m) ==> ({
            let i = first_error_index(diags@)->0;
            m@ == abort_spec(res.errors as nat, res.warnings as nat, display_spec(diags@[i]))
        }),
{
    let mut lines: Vec<String> = Vec::new();
    let mut errors: usize = 0;
    let mut warnings: usize = 0;
    let mut first_error = String::new();
    let mut i: usize = 0;
    while i < diags.len()
        invariant
            i <= diags@.len(),
            lines@.len() == i,
            forall|j: int| 0 <= j < i ==> #[trigger] lines@[j]@ == display_spec(diags@[j]),
            errors == count_kind(diags@.subrange(0, i as int), DiagKind::Error),
            warnings == count_kind(diags@.subrange(0, i as int), DiagKind::Warning),
            errors + warnings <= i,
            first_error_index(diags@.subrange(0, i as int)) matches Some(f)
                ==> first_error@ == display_spec(diags@[f]),
        decreases diags@.len() - i,
    {
        let line = diags[i].display();
        let ghost pre = diags@.subrange(0, i as int);
        let ghost next = diags@.subrange(0, i + 1);
        assert(next.drop_last() =~= pre);
        assert(next.last() == diags@[i as int]);
        proof {
            lemma_first_error(pre);
        }
        match diags[i].kind {
            DiagKind::Error => {
                if errors == 0 {
                    first_error = string_of(line.as_str());
                }
                errors += 1;
            }
            DiagKind::Warning => {
                warnings += 1;
            }
        }
        lines.push(line);
        i += 1;
    }
    assert(diags@.subrange(0, i as int) =~= diags@);
    proof {
        lemma_first_error(diags@);
    }
    let abort = if errors > 0 {
        let mut m = String::new();
        push_str(&mut m, "ftl-codegen: ");
        push_usize(&mut m, errors);
        push_str(&mut m, " error(s), ");
        push_usize(&mut m, warnings);
        push_str(&mut m, " warning(s) — aborting\n");
        push_str(&mut m, first_error.as_str());
        Some(m)
    } else {
        None
    };
    DiagReport { lines, errors, warnings, abort }
}

}
