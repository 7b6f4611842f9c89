//! Loading the locale files of a project and checking them against the
//! primary locale.
use vstd::prelude::*;
use vstd::utf8::encode_utf8;
use vstd::string::StringSliceAdditionalSpecFns;
use std::str::FromStr;
use crate::ast::{EntriesV, LocaleEntries, entries_v};
use crate::builtin::{BuiltInFuncDef, copy_def, def_v, defs_model};
use crate::convert::{extract, extract_spec, format_parse_error, parse_error_diag};
use crate::diag::{Diag, DiagKind, DiagV, abort_message_v, count_kind_v, diag_v, diags_v, diagnostics_report, error_v};
use crate::keyed::{gk_insert, gk_lookup, keyed_get, keyed_insert_exec, keys_sorted, kv_map, lemma_kv_insert,
    lemma_kv_lookup};
use crate::resolve::{resolve_locale, resolve_locale_spec};
use crate::resolved::{entries_args_free, entries_refs_free, entries_sorted, lemma_resolution_leaves_no_references};
use crate::parser::{ftl_parse, parse_ftl};
use crate::syntax::FtlParseError;
use crate::text::{debug_str, push_str, str_debug, string_of};

verus! {

/// Whether a locale name parses as a Unicode Language Identifier.
pub uninterp spec fn langid_parses(s: Seq<char>) -> bool;

/// `unic_langid::LanguageIdentifier::from_str`: true exactly when the text
/// parses as a language identifier; the parse itself is named by
/// `langid_parses`.
#[verifier::external_body]
fn is_language_identifier(s: &str) -> (res: bool)
    ensures
        res == langid_parses(s@),
{
    unic_langid::LanguageIdentifier::from_str(s).is_ok()
}

/// One `.ftl` file of the locales directory.
pub struct SourceFile {
    /// The file's path, as shown in diagnostics.
    pub path: String,
    /// The file's stem: the locale it holds.
    pub locale: String,
    /// The file's text, or the message of the error that reading it gave.
    pub content: Result<String, String>,
}

/// Why loading stopped: the diagnostics to show (none when resolution
/// failed) and the message to stop with.
pub struct LoadError {
    pub diags: Vec<Diag>,
    pub message: String,
}

/// The checked and resolved locales of a project.
pub struct Generator {
    pub primary: String,
    /// The resolved entries of each locale, keyed by locale.
    pub locales: Vec<(String, LocaleEntries)>,
    pub diags: Vec<Diag>,
    pub mod_path: String,
    pub builtins: Vec<(String, BuiltInFuncDef)>,
}

pub open spec fn locales_model(v: Seq<(String, LocaleEntries)>) -> Seq<(Seq<char>, EntriesV)> {
    kv_map(v, |e: LocaleEntries| entries_v(e))
}

// ---------------------------------------------------------------------
// Specification of loading
// ---------------------------------------------------------------------

/// What scanning the files collects: diagnostics, the file of each locale,
/// and the entries of each locale.
pub struct ScanV {
    pub diags: Seq<DiagV>,
    pub files: Seq<(Seq<char>, Seq<char>)>,
    pub locales: Seq<(Seq<char>, EntriesV)>,
}

pub open spec fn langid_msg(locale: Seq<char>) -> Seq<char> {
    "'"@ + locale + "' is not a valid Unicode Language Identifier (expected e.g. en-US, zh-CN)"@
}

/// The diagnostics of a file's syntax errors, in order.
pub open spec fn error_diags(b: Seq<u8>, path: Seq<char>, locale: Seq<char>, errs: Seq<FtlParseError>)
    -> Result<Seq<DiagV>, Seq<char>>
    decreases errs.len(),
{
    if errs.len() == 0 {
        Ok(Seq::empty())
    } else {
        match error_diags(b, path, locale, errs.drop_last()) {
            Err(m) => Err(m),
            Ok(a) => match parse_error_diag(b, path, locale, errs.last()) {
                Err(m) => Err(m),
                Ok(d) => Ok(a.push(d)),
            },
        }
    }
}

/// One file scanned: a locale name that is no language identifier and an
/// unreadable file are reported; otherwise the file's syntax errors are
/// parsed, its syntax errors reported and its entries (what could be
/// parsed) recorded.
pub open spec fn scan_file(st: ScanV, f: SourceFile, b: Seq<(String, BuiltInFuncDef)>) -> Result<ScanV, Seq<char>> {
    if !langid_parses(f.locale@) {
        Ok(ScanV { diags: st.diags.push(error_v(f.path@, f.locale@, langid_msg(f.locale@))), ..st })
    } else {
        let st1 = ScanV { files: gk_insert(st.files, f.locale@, f.path@), ..st };
        match f.content {
            Err(e) => Ok(ScanV { diags: st1.diags.push(error_v(f.path@, f.locale@, "cannot read file: "@ + e@)), ..st1 }),
            Ok(t) => match error_diags(encode_utf8(t@), f.path@, f.locale@, ftl_parse(t@).errors) {
                Err(m) => Err(m),
                Ok(ds) => match extract_spec(ftl_parse(t@).body, b) {
                    Err(m) => Err(m),
                    Ok(le) => Ok(ScanV { diags: st1.diags + ds, locales: gk_insert(st1.locales, f.locale@, le), ..st1 }),
                },
            },
        }
    }
}

pub open spec fn empty_scan() -> ScanV {
    ScanV { diags: Seq::empty(), files: Seq::empty(), locales: Seq::empty() }
}

pub open spec fn scan_spec(fs: Seq<SourceFile>, b: Seq<(String, BuiltInFuncDef)>) -> Result<ScanV, Seq<char>>
    decreases fs.len(),
{
    if fs.len() == 0 {
        Ok(empty_scan())
    } else {
        match scan_spec(fs.drop_last(), b) {
            Err(m) => Err(m),
            Ok(st) => scan_file(st, fs.last(), b),
        }
    }
}

/// The keys of a keyed list, in order.
pub open spec fn keys_v<W>(m: Seq<(Seq<char>, W)>) -> Seq<Seq<char>> {
    m.map_values(|p: (Seq<char>, W)| p.0)
}

/// The keys of `ks` that `primary` lacks, in order.
pub open spec fn extra_keys(ks: Seq<Seq<char>>, primary: Seq<Seq<char>>) -> Seq<Seq<char>>
    decreases ks.len(),
{
    if ks.len() == 0 {
        Seq::empty()
    } else {
        let e = extra_keys(ks.drop_last(), primary);
        if primary.contains(ks.last()) { e } else { e.push(ks.last()) }
    }
}

/// `{:?}` of a list of strings: `["a", "b"]`.
pub open spec fn debug_items(ks: Seq<Seq<char>>) -> Seq<char>
    decreases ks.len(),
{
    if ks.len() == 0 {
        Seq::empty()
    } else if ks.len() == 1 {
        str_debug(ks[0])
    } else {
        debug_items(ks.drop_last()) + ", "@ + str_debug(ks.last())
    }
}

pub open spec fn extra_diag(what: Seq<char>, file: Seq<char>, locale: Seq<char>, primary: Seq<char>,
    extras: Seq<Seq<char>>) -> DiagV
{
    error_v(file, locale, "has extra "@ + what + " not present in primary locale '"@ + primary + "': ["@
        + debug_items(extras) + "]"@)
}

pub open spec fn extra_diags(what: Seq<char>, file: Seq<char>, locale: Seq<char>, primary: Seq<char>,
    extras: Seq<Seq<char>>) -> Seq<DiagV>
{
    if extras.len() > 0 { seq![extra_diag(what, file, locale, primary, extras)] } else { Seq::empty() }
}

/// The entries a locale has beyond the primary locale's, reported per kind.
pub open spec fn locale_extras(files: Seq<(Seq<char>, Seq<char>)>, locale: Seq<char>, le: EntriesV, pe: EntriesV,
    primary: Seq<char>) -> Seq<DiagV>
{
    let file = match gk_lookup(files, locale) { Some(p) => p, None => Seq::empty() };
    extra_diags("messages"@, file, locale, primary, extra_keys(keys_v(le.messages), keys_v(pe.messages)))
        + extra_diags("terms"@, file, locale, primary, extra_keys(keys_v(le.terms), keys_v(pe.terms)))
        + extra_diags("attributes"@, file, locale, primary, extra_keys(keys_v(le.attributes), keys_v(pe.attributes)))
}

/// The diagnostics of every non-primary locale, in locale order.
pub open spec fn check_extras(files: Seq<(Seq<char>, Seq<char>)>, locs: Seq<(Seq<char>, EntriesV)>, pe: EntriesV,
    primary: Seq<char>) -> Seq<DiagV>
    decreases locs.len(),
{
    if locs.len() == 0 {
        Seq::empty()
    } else {
        let d = check_extras(files, locs.drop_last(), pe, primary);
        if locs.last().0 == primary { d } else { d + locale_extras(files, locs.last().0, locs.last().1, pe, primary) }
    }
}

/// Every locale resolved, in order.
pub open spec fn resolve_all(locs: Seq<(Seq<char>, EntriesV)>) -> Result<Seq<(Seq<char>, EntriesV)>, Seq<char>>
    decreases locs.len(),
{
    if locs.len() == 0 {
        Ok(Seq::empty())
    } else {
        match resolve_all(locs.drop_last()) {
            Err(m) => Err(m),
            Ok(a) => match resolve_locale_spec(locs.last().1) {
                Err(m) => Err(m),
                Ok(r) => Ok(a.push((locs.last().0, r))),
            },
        }
    }
}

/// Resolution keeps the locales and their order.
pub proof fn lemma_resolve_all_keys(locs: Seq<(Seq<char>, EntriesV)>)
    ensures
        resolve_all(locs) matches Ok(r) ==> r.len() == locs.len()
            && forall|i: int| 0 <= i < r.len() ==> (#[trigger] r[i]).0 == locs[i].0,
    decreases locs.len(),
{
    if locs.len() > 0 {
        lemma_resolve_all_keys(locs.drop_last());
    }
}

/// Loading: the files scanned; a missing primary locale reported; every
/// other locale checked for entries the primary lacks; any error stops
/// loading with all diagnostics; then every locale is resolved.
pub open spec fn load_spec(fs: Seq<SourceFile>, primary: Seq<char>, b: Seq<(String, BuiltInFuncDef)>)
    -> Result<(Seq<(Seq<char>, EntriesV)>, Seq<DiagV>), (Seq<DiagV>, Seq<char>)>
{
    match scan_spec(fs, b) {
        Err(m) => Err((Seq::empty(), m)),
        Ok(sc) => match gk_lookup(sc.locales, primary) {
            None => {
                let ds = sc.diags.push(error_v(Seq::empty(), primary, "primary locale '"@ + primary + "' not found"@));
                Err((ds, abort_message_v(ds)))
            },
            Some(pe) => {
                let ds = sc.diags + check_extras(sc.files, sc.locales, pe, primary);
                if count_kind_v(ds, DiagKind::Error) > 0 {
                    Err((ds, abort_message_v(ds)))
                } else {
                    match resolve_all(sc.locales) {
                        Err(m) => Err((Seq::empty(), m)),
                        Ok(rl) => Ok((rl, ds)),
                    }
                }
            },
        },
    }
}


/// Every message, term and attribute key of `le` is one of `pe`.
pub open spec fn keys_within(le: EntriesV, pe: EntriesV) -> bool {
    &&& forall|k: Seq<char>| keys_v(le.messages).contains(k) ==> keys_v(pe.messages).contains(k)
    &&& forall|k: Seq<char>| keys_v(le.terms).contains(k) ==> keys_v(pe.terms).contains(k)
    &&& forall|k: Seq<char>| keys_v(le.attributes).contains(k) ==> keys_v(pe.attributes).contains(k)
}

proof fn lemma_count_concat(a: Seq<DiagV>, b: Seq<DiagV>, k: DiagKind)
    ensures
        count_kind_v(a + b, k) == count_kind_v(a, k) + count_kind_v(b, k),
    decreases b.len(),
{
    if b.len() > 0 {
        assert((a + b).drop_last() =~= a + b.drop_last());
        lemma_count_concat(a, b.drop_last(), k);
    } else {
        assert(a + b =~= a);
    }
}

proof fn lemma_extra_keys_none(ks: Seq<Seq<char>>, p: Seq<Seq<char>>)
    requires
        extra_keys(ks, p).len() == 0,
    ensures
        forall|k: Seq<char>| ks.contains(k) ==> p.contains(k),
    decreases ks.len(),
{
    if ks.len() > 0 {
        lemma_extra_keys_none(ks.drop_last(), p);
        assert forall|k: Seq<char>| ks.contains(k) implies p.contains(k) by {
            let i = choose|i: int| 0 <= i < ks.len() && ks[i] == k;
            if i < ks.len() - 1 {
                assert(ks.drop_last()[i] == k);
            }
        }
    }
}

proof fn lemma_locale_extras_clean(files: Seq<(Seq<char>, Seq<char>)>, locale: Seq<char>, le: EntriesV, pe: EntriesV,
    primary: Seq<char>)
    requires
        count_kind_v(locale_extras(files, locale, le, pe, primary), DiagKind::Error) == 0,
    ensures
        keys_within(le, pe),
{
    let file = match gk_lookup(files, locale) { Some(p) => p, None => Seq::empty() };
    let em = extra_keys(keys_v(le.messages), keys_v(pe.messages));
    let et = extra_keys(keys_v(le.terms), keys_v(pe.terms));
    let ea = extra_keys(keys_v(le.attributes), keys_v(pe.attributes));
    let dm = extra_diags("messages"@, file, locale, primary, em);
    let dt = extra_diags("terms"@, file, locale, primary, et);
    let da = extra_diags("attributes"@, file, locale, primary, ea);
    lemma_count_concat(dm + dt, da, DiagKind::Error);
    lemma_count_concat(dm, dt, DiagKind::Error);
    if em.len() > 0 {
        assert(dm.drop_last().len() == 0);
    }
    if et.len() > 0 {
        assert(dt.drop_last().len() == 0);
    }
    if ea.len() > 0 {
        assert(da.drop_last().len() == 0);
    }
    lemma_extra_keys_none(keys_v(le.messages), keys_v(pe.messages));
    lemma_extra_keys_none(keys_v(le.terms), keys_v(pe.terms));
    lemma_extra_keys_none(keys_v(le.attributes), keys_v(pe.attributes));
}

proof fn lemma_check_extras_clean(files: Seq<(Seq<char>, Seq<char>)>, locs: Seq<(Seq<char>, EntriesV)>, pe: EntriesV,
    primary: Seq<char>)
    requires
        count_kind_v(check_extras(files, locs, pe, primary), DiagKind::Error) == 0,
    ensures
        forall|i: int| 0 <= i < locs.len() && locs[i].0 != primary ==> keys_within(#[trigger] locs[i].1, pe),
    decreases locs.len(),
{
    if locs.len() > 0 {
        let d = check_extras(files, locs.drop_last(), pe, primary);
        if locs.last().0 != primary {
            lemma_count_concat(d, locale_extras(files, locs.last().0, locs.last().1, pe, primary), DiagKind::Error);
            lemma_locale_extras_clean(files, locs.last().0, locs.last().1, pe, primary);
        }
        lemma_check_extras_clean(files, locs.drop_last(), pe, primary);
        assert forall|i: int| 0 <= i < locs.len() && locs[i].0 != primary implies keys_within(#[trigger] locs[i].1, pe) by {
            if i < locs.len() - 1 {
                assert(locs.drop_last()[i] == locs[i]);
            }
        }
    }
}

/// A locale file that loads cleanly: named by a language identifier,
/// readable, and parsing without syntax errors.
pub open spec fn file_clean(f: SourceFile) -> bool {
    &&& langid_parses(f.locale@)
    &&& f.content matches Ok(t) && ftl_parse(t@).errors.len() == 0
}

proof fn lemma_error_diags_count(b: Seq<u8>, path: Seq<char>, locale: Seq<char>, errs: Seq<FtlParseError>)
    ensures
        error_diags(b, path, locale, errs) matches Ok(ds) ==> count_kind_v(ds, DiagKind::Error) == errs.len(),
    decreases errs.len(),
{
    if errs.len() > 0 {
        lemma_error_diags_count(b, path, locale, errs.drop_last());
        if let Ok(a) = error_diags(b, path, locale, errs.drop_last()) {
            if let Ok(d) = parse_error_diag(b, path, locale, errs.last()) {
                assert(a.push(d).drop_last() =~= a);
            }
        }
    }
}

proof fn lemma_scan_clean(fs: Seq<SourceFile>, b: Seq<(String, BuiltInFuncDef)>)
    ensures
        scan_spec(fs, b) matches Ok(sc) ==> (count_kind_v(sc.diags, DiagKind::Error) == 0
            ==> forall|i: int| 0 <= i < fs.len() ==> file_clean(#[trigger] fs[i])),
    decreases fs.len(),
{
    if fs.len() > 0 {
        lemma_scan_clean(fs.drop_last(), b);
        if let Ok(st) = scan_spec(fs.drop_last(), b) {
            let f = fs.last();
            if let Ok(sc) = scan_file(st, f, b) {
                if !langid_parses(f.locale@) {
                    let d = error_v(f.path@, f.locale@, langid_msg(f.locale@));
                    assert(st.diags.push(d).drop_last() =~= st.diags);
                } else {
                    let st1 = ScanV { files: gk_insert(st.files, f.locale@, f.path@), ..st };
                    match f.content {
                        Err(e) => {
                            let d = error_v(f.path@, f.locale@, "cannot read file: "@ + e@);
                            assert(st1.diags.push(d).drop_last() =~= st.diags);
                        },
                        Ok(t) => {
                            let errs = ftl_parse(t@).errors;
                            lemma_error_diags_count(encode_utf8(t@), f.path@, f.locale@, errs);
                            let ds = error_diags(encode_utf8(t@), f.path@, f.locale@, errs)->Ok_0;
                            lemma_count_concat(st.diags, ds, DiagKind::Error);
                        },
                    }
                }
                assert forall|i: int| 0 <= i < fs.len() && count_kind_v(sc.diags, DiagKind::Error) == 0
                    implies file_clean(#[trigger] fs[i]) by {
                    if i < fs.len() - 1 {
                        assert(fs.drop_last()[i] == fs[i]);
                    }
                }
            }
        }
    }
}

/// Loading succeeds only when every locale file is named by a language
/// identifier, could be read, and has no syntax error: any of these is
/// reported as an error, and an error stops loading.
pub proof fn lemma_load_needs_clean_files(fs: Seq<SourceFile>, primary: Seq<char>, b: Seq<(String, BuiltInFuncDef)>)
    requires
        load_spec(fs, primary, b) is Ok,
    ensures
        forall|i: int| 0 <= i < fs.len() ==> file_clean(#[trigger] fs[i]),
{
    let sc = scan_spec(fs, b)->Ok_0;
    let pe = gk_lookup(sc.locales, primary)->Some_0;
    lemma_count_concat(sc.diags, check_extras(sc.files, sc.locales, pe, primary), DiagKind::Error);
    lemma_scan_clean(fs, b);
}

/// Loading succeeds only when every non-primary locale is a structural
/// subset of the primary locale: each of its messages, terms and
/// attributes exists in the primary locale too.
pub proof fn lemma_load_locales_within_primary(fs: Seq<SourceFile>, primary: Seq<char>, b: Seq<(String, BuiltInFuncDef)>)
    requires
        load_spec(fs, primary, b) is Ok,
    ensures
        scan_spec(fs, b) matches Ok(sc) && gk_lookup(sc.locales, primary) matches Some(pe) && forall|i: int|
            0 <= i < sc.locales.len() && sc.locales[i].0 != primary ==> keys_within(#[trigger] sc.locales[i].1, pe),
{
    let sc = scan_spec(fs, b)->Ok_0;
    let pe = gk_lookup(sc.locales, primary)->Some_0;
    lemma_count_concat(sc.diags, check_extras(sc.files, sc.locales, pe, primary), DiagKind::Error);
    lemma_check_extras_clean(sc.files, sc.locales, pe, primary);
}


proof fn lemma_scan_locales(fs: Seq<SourceFile>, b: Seq<(String, BuiltInFuncDef)>, q: Seq<char>)
    requires
        forall|i: int| 0 <= i < fs.len() ==> file_clean(#[trigger] fs[i]),
    ensures
        scan_spec(fs, b) matches Ok(sc) ==> (gk_lookup(sc.locales, q) is Some
            <==> exists|i: int| 0 <= i < fs.len() && (#[trigger] fs[i]).locale@ == q),
    decreases fs.len(),
{
    if fs.len() > 0 {
        let fd = fs.drop_last();
        assert forall|i: int| 0 <= i < fd.len() implies file_clean(#[trigger] fd[i]) by {
            assert(fd[i] == fs[i]);
        }
        lemma_scan_locales(fd, b, q);
        let f = fs.last();
        assert(file_clean(fs[fs.len() - 1]));
        if let Ok(st) = scan_spec(fd, b) {
            if let Ok(sc) = scan_file(st, f, b) {
                let t = f.content->Ok_0;
                let le = extract_spec(ftl_parse(t@).body, b)->Ok_0;
                assert(sc.locales == gk_insert(st.locales, f.locale@, le));
                crate::keyed::lemma_gk_insert_lookup(st.locales, f.locale@, le, q);
                if gk_lookup(sc.locales, q) is Some {
                    if q == f.locale@ {
                        assert(fs[fs.len() - 1].locale@ == q);
                    } else {
                        let w = choose|i: int| 0 <= i < fd.len() && (#[trigger] fd[i]).locale@ == q;
                        assert(fs[w] == fd[w]);
                    }
                }
                if exists|i: int| 0 <= i < fs.len() && (#[trigger] fs[i]).locale@ == q {
                    let w = choose|i: int| 0 <= i < fs.len() && (#[trigger] fs[i]).locale@ == q;
                    if w < fs.len() - 1 {
                        assert(fd[w] == fs[w]);
                    }
                }
            }
        }
    }
}

/// After a successful load, the locales are those of the files: a locale
/// is loaded exactly when some file is named by it.
pub proof fn lemma_load_locales_are_files(fs: Seq<SourceFile>, primary: Seq<char>, b: Seq<(String, BuiltInFuncDef)>,
    q: Seq<char>)
    requires
        load_spec(fs, primary, b) is Ok,
    ensures
        load_spec(fs, primary, b) matches Ok((rl, _)) && (gk_lookup(rl, q) is Some
            <==> exists|i: int| 0 <= i < fs.len() && (#[trigger] fs[i]).locale@ == q),
{
    lemma_load_needs_clean_files(fs, primary, b);
    lemma_scan_locales(fs, b, q);
    let sc = scan_spec(fs, b)->Ok_0;
    lemma_resolve_all_keys(sc.locales);
    let rl = resolve_all(sc.locales)->Ok_0;
    crate::keyed::lemma_gk_index_same_keys(rl, sc.locales, q);
}

proof fn lemma_scan_defs(fs: Seq<SourceFile>, b1: Seq<(String, BuiltInFuncDef)>, b2: Seq<(String, BuiltInFuncDef)>)
    requires
        defs_model(b1) == defs_model(b2),
    ensures
        scan_spec(fs, b1) == scan_spec(fs, b2),
    decreases fs.len(),
{
    if fs.len() > 0 {
        lemma_scan_defs(fs.drop_last(), b1, b2);
        if let Ok(t) = fs.last().content {
            crate::convert::lemma_extract_defs(ftl_parse(t@).body, b1, b2);
        }
    }
}

/// Loading depends on the built-ins only through their names and
/// definitions: two registries with the same model load alike.
pub proof fn lemma_load_depends_on_builtins_model(fs: Seq<SourceFile>, primary: Seq<char>,
    b1: Seq<(String, BuiltInFuncDef)>, b2: Seq<(String, BuiltInFuncDef)>)
    requires
        defs_model(b1) == defs_model(b2),
    ensures
        load_spec(fs, primary, b1) == load_spec(fs, primary, b2),
{
    lemma_scan_defs(fs, b1, b2);
}

proof fn lemma_extra_keys_empty(ks: Seq<Seq<char>>, p: Seq<Seq<char>>)
    requires
        forall|k: Seq<char>| ks.contains(k) ==> p.contains(k),
    ensures
        extra_keys(ks, p).len() == 0,
    decreases ks.len(),
{
    if ks.len() > 0 {
        assert forall|k: Seq<char>| ks.drop_last().contains(k) implies p.contains(k) by {
            let i = choose|i: int| 0 <= i < ks.drop_last().len() && ks.drop_last()[i] == k;
            assert(ks[i] == k);
        }
        lemma_extra_keys_empty(ks.drop_last(), p);
        assert(ks.contains(ks.last())) by {
            assert(ks[ks.len() - 1] == ks.last());
        }
    }
}

proof fn lemma_check_extras_none(files: Seq<(Seq<char>, Seq<char>)>, locs: Seq<(Seq<char>, EntriesV)>, pe: EntriesV,
    primary: Seq<char>)
    requires
        forall|i: int| 0 <= i < locs.len() && locs[i].0 != primary ==> keys_within(#[trigger] locs[i].1, pe),
    ensures
        check_extras(files, locs, pe, primary).len() == 0,
    decreases locs.len(),
{
    if locs.len() > 0 {
        assert forall|i: int| 0 <= i < locs.drop_last().len() && locs.drop_last()[i].0 != primary
            implies keys_within(#[trigger] locs.drop_last()[i].1, pe) by {
            assert(locs.drop_last()[i] == locs[i]);
        }
        lemma_check_extras_none(files, locs.drop_last(), pe, primary);
        let l = locs.last();
        if l.0 != primary {
            assert(keys_within(locs[locs.len() - 1].1, pe));
            lemma_extra_keys_empty(keys_v(l.1.messages), keys_v(pe.messages));
            lemma_extra_keys_empty(keys_v(l.1.terms), keys_v(pe.terms));
            lemma_extra_keys_empty(keys_v(l.1.attributes), keys_v(pe.attributes));
        }
    }
}

/// For files that scan cleanly, with the primary locale present and every
/// locale resolving, loading fails exactly when some other locale holds a
/// message, term or attribute the primary locale lacks; it then stops with
/// the diagnostics that name them.
pub proof fn lemma_load_refuses_exactly_extra_keys(fs: Seq<SourceFile>, primary: Seq<char>,
    b: Seq<(String, BuiltInFuncDef)>)
    requires
        scan_spec(fs, b) matches Ok(sc) && count_kind_v(sc.diags, DiagKind::Error) == 0
            && gk_lookup(sc.locales, primary) is Some && resolve_all(sc.locales) is Ok,
    ensures
        ({
            let sc = scan_spec(fs, b)->Ok_0;
            let pe = gk_lookup(sc.locales, primary)->Some_0;
            load_spec(fs, primary, b) is Ok <==> forall|i: int| 0 <= i < sc.locales.len() && sc.locales[i].0 != primary
                ==> keys_within(#[trigger] sc.locales[i].1, pe)
        }),
{
    let sc = scan_spec(fs, b)->Ok_0;
    let pe = gk_lookup(sc.locales, primary)->Some_0;
    if load_spec(fs, primary, b) is Ok {
        lemma_load_locales_within_primary(fs, primary, b);
    }
    if forall|i: int| 0 <= i < sc.locales.len() && sc.locales[i].0 != primary
        ==> keys_within(#[trigger] sc.locales[i].1, pe) {
        lemma_check_extras_none(sc.files, sc.locales, pe, primary);
        let ce = check_extras(sc.files, sc.locales, pe, primary);
        assert(sc.diags + ce =~= sc.diags);
    }
}

proof fn lemma_resolve_all_refs_free(locs: Seq<(Seq<char>, EntriesV)>)
    requires
        forall|i: int| 0 <= i < locs.len() ==> entries_args_free(#[trigger] locs[i].1),
    ensures
        resolve_all(locs) matches Ok(r) ==> forall|i: int| 0 <= i < r.len()
            ==> entries_refs_free(#[trigger] r[i].1) && entries_sorted(r[i].1),
    decreases locs.len(),
{
    if locs.len() > 0 {
        assert forall|i: int| 0 <= i < locs.drop_last().len() implies entries_args_free(#[trigger] locs.drop_last()[i].1) by {
            assert(locs.drop_last()[i] == locs[i]);
        }
        lemma_resolve_all_refs_free(locs.drop_last());
        assert(entries_args_free(locs[locs.len() - 1].1));
        lemma_resolution_leaves_no_references(locs.last().1);
        if let Ok(r) = resolve_all(locs) {
            let a = resolve_all(locs.drop_last())->Ok_0;
            assert forall|i: int| 0 <= i < r.len() implies entries_refs_free(#[trigger] r[i].1) && entries_sorted(r[i].1) by {
                if i < a.len() {
                    assert(r[i] == a[i]);
                }
            }
        }
    }
}

/// A loaded locale holds no message, term or attribute reference (every
/// reference was inlined) and keeps its messages, terms and attributes in
/// ascending key order, provided no term call passes a reference as an
/// argument.
pub proof fn lemma_loaded_locales_free_of_references(fs: Seq<SourceFile>, primary: Seq<char>,
    b: Seq<(String, BuiltInFuncDef)>)
    requires
        load_spec(fs, primary, b) is Ok,
        scan_spec(fs, b) matches Ok(sc) && forall|i: int| 0 <= i < sc.locales.len()
            ==> entries_args_free(#[trigger] sc.locales[i].1),
    ensures
        load_spec(fs, primary, b) matches Ok((rl, _)) && forall|i: int| 0 <= i < rl.len()
            ==> entries_refs_free(#[trigger] rl[i].1) && entries_sorted(rl[i].1),
{
    let sc = scan_spec(fs, b)->Ok_0;
    lemma_resolve_all_refs_free(sc.locales);
}
} // verus!

verus! {

pub open spec fn strings_v(v: Seq<String>) -> Seq<Seq<char>> {
    v.map_values(|s: String| s@)
}

pub open spec fn files_model(v: Seq<(String, String)>) -> Seq<(Seq<char>, Seq<char>)> {
    kv_map(v, |s: String| s@)
}

proof fn lemma_keys_kv<V, W>(m: Seq<(String, V)>, f: spec_fn(V) -> W)
    ensures
        keys_v(kv_map(m, f)) == m.map_values(|p: (String, V)| p.0@),
{
    assert(keys_v(kv_map(m, f)) =~= m.map_values(|p: (String, V)| p.0@));
}

proof fn lemma_diags_push(ds: Seq<Diag>, d: Diag)
    ensures
        diags_v(ds.push(d)) == diags_v(ds).push(diag_v(d)),
{
    assert(diags_v(ds.push(d)) =~= diags_v(ds).push(diag_v(d)));
}

/// The keys of `ks` that `pk` lacks.
fn extra_keys_exec<V, W>(ks: &Vec<(String, V)>, pk: &Vec<(String, W)>) -> (res: Vec<String>)
    ensures
        strings_v(res@) == extra_keys(ks@.map_values(|p: (String, V)| p.0@), pk@.map_values(|p: (String, W)| p.0@)),
{
    let ghost kv = ks@.map_values(|p: (String, V)| p.0@);
    let ghost pv = pk@.map_values(|p: (String, W)| p.0@);
    let mut out: Vec<String> = Vec::new();
    let mut i: usize = 0;
    assert(kv.subrange(0, 0) =~= Seq::<Seq<char>>::empty());
    assert(strings_v(out@) =~= Seq::<Seq<char>>::empty());
    while i < ks.len()
        invariant
            kv == ks@.map_values(|p: (String, V)| p.0@),
            pv == pk@.map_values(|p: (String, W)| p.0@),
            i <= ks@.len(),
            strings_v(out@) == extra_keys(kv.subrange(0, i as int), pv),
        decreases ks@.len() - i,
    {
        assert(kv.subrange(0, i + 1).drop_last() =~= kv.subrange(0, i as int));
        assert(kv[i as int] == ks@[i as int].0@);
        let present = crate::keyed::keyed_contains(pk, ks[i].0.as_str());
        proof {
            crate::keyed::lemma_key_index_bounds(pk@, ks@[i as int].0@);
            if present {
                let j = crate::keyed::key_index(pk@, ks@[i as int].0@)->0;
                assert(pv[j] == kv[i as int]);
            } else {
                assert forall|j: int| 0 <= j < pv.len() implies pv[j] != kv[i as int] by {
                    assert(pv[j] == pk@[j].0@);
                }
            }
        }
        if !present {
            let k = copy_string_ref(&ks[i].0);
            let ghost before = out@;
            out.push(k);
            assert(strings_v(out@) =~= strings_v(before).push(k@));
        }
        i += 1;
    }
    assert(kv.subrange(0, i as int) =~= kv);
    out
}

fn copy_string_ref(s: &String) -> (res: String)
    ensures
        res@ == s@,
{
    string_of(s.as_str())
}

fn push_debug_items(out: &mut String, ks: &Vec<String>)
    ensures
        final(out)@ == old(out)@ + debug_items(strings_v(ks@)),
{
    let ghost o = out@;
    let ghost kv = strings_v(ks@);
    let mut i: usize = 0;
    assert(kv.subrange(0, 0) =~= Seq::<Seq<char>>::empty());
    while i < ks.len()
        invariant
            kv == strings_v(ks@),
            i <= ks@.len(),
            out@ == o + debug_items(kv.subrange(0, i as int)),
        decreases ks@.len() - i,
    {
        if i > 0 {
            push_str(out, ", ");
        }
        let d = debug_str(ks[i].as_str());
        push_str(out, d.as_str());
        assert(kv.subrange(0, i + 1).drop_last() =~= kv.subrange(0, i as int));
        assert(kv[i as int] == ks@[i as int]@);
        if i == 0 {
            assert(kv.subrange(0, 1)[0] == kv[0]);
        }
        assert(out@ =~= o + debug_items(kv.subrange(0, i + 1)));
        i += 1;
    }
    assert(kv.subrange(0, i as int) =~= kv);
}

/// Appends the report of one kind of extra entries, when there are any.
fn push_extra_diag(diags: &mut Vec<Diag>, what: &str, file: &str, locale: &str, primary: &str, extras: &Vec<String>)
    ensures
        diags_v(final(diags)@) == diags_v(old(diags)@) + extra_diags(what@, file@, locale@, primary@, strings_v(extras@)),
{
    if extras.len() > 0 {
        let mut m = string_of("has extra ");
        push_str(&mut m, what);
        push_str(&mut m, " not present in primary locale '");
        push_str(&mut m, primary);
        push_str(&mut m, "': [");
        push_debug_items(&mut m, extras);
        push_str(&mut m, "]");
        proof {
            reveal_strlit("");
            assert(""@ =~= Seq::<char>::empty());
        }
        let d = Diag::error(file, locale, "", m.as_str());
        assert(diag_v(d) == extra_diag(what@, file@, locale@, primary@, strings_v(extras@)));
        proof {
            lemma_diags_push(diags@, d);
        }
        diags.push(d);
        assert(diags_v(diags@) =~= diags_v(old(diags)@) + extra_diags(what@, file@, locale@, primary@, strings_v(extras@)));
    } else {
        assert(strings_v(extras@).len() == 0);
        assert(diags_v(diags@) =~= diags_v(old(diags)@) + extra_diags(what@, file@, locale@, primary@, strings_v(extras@)));
    }
}

/// Appends the reports of a non-primary locale.
fn push_locale_extras(diags: &mut Vec<Diag>, files: &Vec<(String, String)>, locale: &String, le: &LocaleEntries,
    pe: &LocaleEntries, primary: &str)
    ensures
        diags_v(final(diags)@) == diags_v(old(diags)@)
            + locale_extras(files_model(files@), locale@, entries_v(*le), entries_v(*pe), primary@),
{
    proof {
        lemma_kv_lookup(files@, |s: String| s@, locale@);
        lemma_keys_kv(le.messages@, |m: crate::ast::Message| crate::ast::message_v(m));
        lemma_keys_kv(pe.messages@, |m: crate::ast::Message| crate::ast::message_v(m));
        lemma_keys_kv(le.terms@, |t: crate::ast::Term| crate::ast::term_v(t));
        lemma_keys_kv(pe.terms@, |t: crate::ast::Term| crate::ast::term_v(t));
        lemma_keys_kv(le.attributes@, |a: crate::ast::Attribute| crate::ast::attribute_v(a));
        lemma_keys_kv(pe.attributes@, |a: crate::ast::Attribute| crate::ast::attribute_v(a));
    }
    let file = match keyed_get(files, locale.as_str()) {
        Some(p) => copy_string_ref(p),
        None => String::new(),
    };
    let ghost d0 = diags_v(diags@);
    let em = extra_keys_exec(&le.messages, &pe.messages);
    push_extra_diag(diags, "messages", file.as_str(), locale.as_str(), primary, &em);
    let et = extra_keys_exec(&le.terms, &pe.terms);
    push_extra_diag(diags, "terms", file.as_str(), locale.as_str(), primary, &et);
    let ea = extra_keys_exec(&le.attributes, &pe.attributes);
    push_extra_diag(diags, "attributes", file.as_str(), locale.as_str(), primary, &ea);
    assert(diags_v(diags@) =~= d0 + locale_extras(files_model(files@), locale@, entries_v(*le), entries_v(*pe), primary@));
}

/// Appends the diagnostics of a file's syntax errors.
fn push_error_diags(diags: &mut Vec<Diag>, text: &String, path: &String, locale: &String, errs: &Vec<FtlParseError>)
    -> (res: Result<(), String>)
    ensures
        match res {
            Ok(()) => match error_diags(encode_utf8(text@), path@, locale@, errs@) {
                Ok(ds) => diags_v(final(diags)@) == diags_v(old(diags)@) + ds,
                Err(_) => false,
            },
            Err(m) => error_diags(encode_utf8(text@), path@, locale@, errs@) == Err::<Seq<DiagV>, Seq<char>>(m@),
        },
{
    let ghost d0 = diags_v(diags@);
    let ghost b = encode_utf8(text@);
    let mut i: usize = 0;
    assert(errs@.subrange(0, 0) =~= Seq::<FtlParseError>::empty());
    assert(diags_v(diags@) =~= d0 + Seq::<DiagV>::empty());
    while i < errs.len()
        invariant
            d0 == diags_v(old(diags)@),
            b == encode_utf8(text@),
            i <= errs@.len(),
            match error_diags(b, path@, locale@, errs@.subrange(0, i as int)) {
                Ok(ds) => diags_v(diags@) == d0 + ds,
                Err(_) => false,
            },
        decreases errs@.len() - i,
    {
        assert(errs@.subrange(0, i + 1).drop_last() =~= errs@.subrange(0, i as int));
        match format_parse_error(text.as_str(), path.as_str(), locale.as_str(), &errs[i]) {
            Ok(d) => {
                proof {
                    lemma_diags_push(diags@, d);
                }
                let ghost before = diags_v(diags@);
                diags.push(d);
                proof {
                    let ds = error_diags(b, path@, locale@, errs@.subrange(0, i as int))->Ok_0;
                    assert(diags_v(diags@) =~= d0 + ds.push(diag_v(d)));
                }
            },
            Err(m) => {
                proof {
                    lemma_error_diags_err(b, path@, locale@, errs@, i as int + 1, m@);
                }
                return Err(m);
            },
        }
        i += 1;
    }
    assert(errs@.subrange(0, i as int) =~= errs@);
    Ok(())
}

proof fn lemma_error_diags_err(b: Seq<u8>, path: Seq<char>, locale: Seq<char>, errs: Seq<FtlParseError>, n: int,
    m: Seq<char>)
    requires
        0 <= n <= errs.len(),
        error_diags(b, path, locale, errs.subrange(0, n)) == Err::<Seq<DiagV>, Seq<char>>(m),
    ensures
        error_diags(b, path, locale, errs) == Err::<Seq<DiagV>, Seq<char>>(m),
    decreases errs.len() - n,
{
    if n == errs.len() {
        assert(errs.subrange(0, n) =~= errs);
    } else {
        assert(errs.subrange(0, n + 1).drop_last() =~= errs.subrange(0, n));
        lemma_error_diags_err(b, path, locale, errs, n + 1, m);
    }
}

/// What scanning collects, as held while loading.
pub struct Scan {
    pub diags: Vec<Diag>,
    pub files: Vec<(String, String)>,
    pub locales: Vec<(String, LocaleEntries)>,
}

pub open spec fn scan_model(s: Scan) -> ScanV {
    ScanV { diags: diags_v(s.diags@), files: files_model(s.files@), locales: locales_model(s.locales@) }
}

/// Scans one file.
fn scan_one(st: &mut Scan, f: &SourceFile, builtins: &Vec<(String, BuiltInFuncDef)>) -> (res: Result<(), String>)
    ensures
        keys_sorted(old(st).locales@) ==> keys_sorted(final(st).locales@),
        match res {
            Ok(()) => scan_file(scan_model(*old(st)), *f, builtins@) == Ok::<ScanV, Seq<char>>(scan_model(*final(st))),
            Err(m) => scan_file(scan_model(*old(st)), *f, builtins@) == Err::<ScanV, Seq<char>>(m@),
        },
{
    if !is_language_identifier(f.locale.as_str()) {
        let mut m = string_of("'");
        push_str(&mut m, f.locale.as_str());
        push_str(&mut m, "' is not a valid Unicode Language Identifier (expected e.g. en-US, zh-CN)");
        proof {
            reveal_strlit("");
            assert(""@ =~= Seq::<char>::empty());
        }
        let d = Diag::error(f.path.as_str(), f.locale.as_str(), "", m.as_str());
        proof {
            lemma_diags_push(st.diags@, d);
        }
        st.diags.push(d);
        return Ok(());
    }
    let k = copy_string_ref(&f.locale);
    let v = copy_string_ref(&f.path);
    proof {
        lemma_kv_insert(st.files@, |s: String| s@, k, v);
    }
    keyed_insert_exec(&mut st.files, k, v);
    match &f.content {
        Err(e) => {
            let mut m = string_of("cannot read file: ");
            push_str(&mut m, e.as_str());
            proof {
                reveal_strlit("");
                assert(""@ =~= Seq::<char>::empty());
            }
            let d = Diag::error(f.path.as_str(), f.locale.as_str(), "", m.as_str());
            proof {
                lemma_diags_push(st.diags@, d);
            }
            st.diags.push(d);
            Ok(())
        },
        Ok(t) => {
            let p = parse_ftl(t.as_str());
            match push_error_diags(&mut st.diags, t, &f.path, &f.locale, &p.errors) {
                Ok(()) => {},
                Err(m) => return Err(m),
            }
            match extract(&p.resource, builtins) {
                Ok(le) => {
                    let k = copy_string_ref(&f.locale);
                    proof {
                        lemma_kv_insert(st.locales@, |e: LocaleEntries| entries_v(e), k, le);
                        if keys_sorted(st.locales@) {
                            crate::keyed::lemma_keyed_insert_sorted(st.locales@, k, le);
                        }
                    }
                    keyed_insert_exec(&mut st.locales, k, le);
                    Ok(())
                },
                Err(m) => Err(m),
            }
        },
    }
}

fn scan_files(files: &Vec<SourceFile>, builtins: &Vec<(String, BuiltInFuncDef)>) -> (res: Result<Scan, String>)
    ensures
        res matches Ok(sc) ==> keys_sorted(sc.locales@),
        match res {
            Ok(sc) => scan_spec(files@, builtins@) == Ok::<ScanV, Seq<char>>(scan_model(sc)),
            Err(m) => scan_spec(files@, builtins@) == Err::<ScanV, Seq<char>>(m@),
        },
{
    let mut st = Scan { diags: Vec::new(), files: Vec::new(), locales: Vec::new() };
    assert(scan_model(st).diags =~= Seq::<DiagV>::empty());
    assert(scan_model(st).files =~= Seq::<(Seq<char>, Seq<char>)>::empty());
    assert(scan_model(st).locales =~= Seq::<(Seq<char>, EntriesV)>::empty());
    let mut i: usize = 0;
    assert(files@.subrange(0, 0) =~= Seq::<SourceFile>::empty());
    while i < files.len()
        invariant
            i <= files@.len(),
            scan_spec(files@.subrange(0, i as int), builtins@) == Ok::<ScanV, Seq<char>>(scan_model(st)),
            keys_sorted(st.locales@),
        decreases files@.len() - i,
    {
        assert(files@.subrange(0, i + 1).drop_last() =~= files@.subrange(0, i as int));
        match scan_one(&mut st, &files[i], builtins) {
            Ok(()) => {},
            Err(m) => {
                proof {
                    lemma_scan_err(files@, builtins@, i as int + 1, m@);
                }
                return Err(m);
            },
        }
        i += 1;
    }
    assert(files@.subrange(0, i as int) =~= files@);
    Ok(st)
}

proof fn lemma_scan_err(fs: Seq<SourceFile>, b: Seq<(String, BuiltInFuncDef)>, n: int, m: Seq<char>)
    requires
        0 <= n <= fs.len(),
        scan_spec(fs.subrange(0, n), b) == Err::<ScanV, Seq<char>>(m),
    ensures
        scan_spec(fs, b) == Err::<ScanV, Seq<char>>(m),
    decreases fs.len() - n,
{
    if n == fs.len() {
        assert(fs.subrange(0, n) =~= fs);
    } else {
        assert(fs.subrange(0, n + 1).drop_last() =~= fs.subrange(0, n));
        lemma_scan_err(fs, b, n + 1, m);
    }
}

} // verus!

verus! {

proof fn lemma_check_extras_step(files: Seq<(Seq<char>, Seq<char>)>, locs: Seq<(Seq<char>, EntriesV)>, pe: EntriesV,
    primary: Seq<char>, i: int)
    requires
        0 <= i < locs.len(),
    ensures
        check_extras(files, locs.subrange(0, i + 1), pe, primary) == (if locs[i].0 == primary {
            check_extras(files, locs.subrange(0, i), pe, primary)
        } else {
            check_extras(files, locs.subrange(0, i), pe, primary) + locale_extras(files, locs[i].0, locs[i].1, pe, primary)
        }),
{
    assert(locs.subrange(0, i + 1).drop_last() =~= locs.subrange(0, i));
}

fn report_abort(diags: Vec<Diag>) -> (res: LoadError)
    requires
        count_kind_v(diags_v(diags@), DiagKind::Error) > 0,
    ensures
        diags_v(res.diags@) == diags_v(diags@),
        res.message@ == abort_message_v(diags_v(diags@)),
{
    let report = diagnostics_report(diags.as_slice());
    proof {
        crate::diag::lemma_counts_v(diags@);
    }
    proof {
        crate::diag::lemma_first_error(diags@);
        let dv = diags_v(diags@);
        let i = crate::diag::first_error_index(diags@)->0;
        assert(dv[i] == diag_v(diags@[i]));
    }
    let message = match report.abort {
        Some(m) => m,
        None => {
            proof {
                assert(false);
            }
            String::new()
        },
    };
    LoadError { diags, message }
}

/// What loading with the built-ins `b` gives: the generator holds the
/// resolved locales (the primary among them) in ascending locale order, the
/// diagnostics, the primary locale, the module path and a copy of the
/// built-ins; or loading stopped with the diagnostics and message of
/// `load_spec`.
pub open spec fn load_outcome(res: Result<Generator, LoadError>, files: Seq<SourceFile>, primary: Seq<char>,
    mod_path: Seq<char>, b: Seq<(String, BuiltInFuncDef)>) -> bool
{
    match res {
        Ok(g) => load_spec(files, primary, b) == Ok::<(Seq<(Seq<char>, EntriesV)>, Seq<DiagV>), (Seq<DiagV>, Seq<char>)>(
                (locales_model(g.locales@), diags_v(g.diags@)))
            && gk_lookup(locales_model(g.locales@), primary) is Some
            && g.primary@ == primary
            && g.mod_path@ == mod_path
            && defs_model(g.builtins@) == defs_model(b)
            && keys_sorted(g.locales@)
            && keys_sorted(g.builtins@),
        Err(e) => load_spec(files, primary, b)
            == Err::<(Seq<(Seq<char>, EntriesV)>, Seq<DiagV>), (Seq<DiagV>, Seq<char>)>((diags_v(e.diags@), e.message@)),
    }
}

/// Loads the locale files, or says why they cannot be loaded.
fn load_files(files: &Vec<SourceFile>, primary: &str, mod_path: &str,
    builtins: &Vec<(String, BuiltInFuncDef)>) -> (res: Result<Generator, LoadError>)
    requires
        keys_sorted(builtins@),
    ensures
        load_outcome(res, files@, primary@, mod_path@, builtins@),
{
        let sc = match scan_files(files, builtins) {
            Ok(sc) => sc,
            Err(m) => {
                let e = LoadError { diags: Vec::new(), message: m };
                assert(diags_v(e.diags@) =~= Seq::<DiagV>::empty());
                return Err(e);
            },
        };
        let Scan { diags, files: file_map, locales } = sc;
        let mut diags = diags;
        proof {
            lemma_kv_lookup(locales@, |e: LocaleEntries| entries_v(e), primary@);
        }
        let pe = match keyed_get(&locales, primary) {
            Some(pe) => pe,
            None => {
                let mut m = string_of("primary locale '");
                push_str(&mut m, primary);
                push_str(&mut m, "' not found");
                proof {
                    reveal_strlit("");
                    assert(""@ =~= Seq::<char>::empty());
                }
                let d = Diag::error("", primary, "", m.as_str());
                proof {
                    lemma_diags_push(diags@, d);
                    assert(count_kind_v(diags_v(diags@.push(d)), DiagKind::Error) > 0) by {
                        assert(diags_v(diags@.push(d)).drop_last() =~= diags_v(diags@));
                    }
                }
                diags.push(d);
                return Err(report_abort(diags));
            },
        };
        let ghost d0 = diags_v(diags@);
        let ghost lm = locales_model(locales@);
        let ghost fm = files_model(file_map@);
        let mut i: usize = 0;
        assert(lm.subrange(0, 0) =~= Seq::<(Seq<char>, EntriesV)>::empty());
        assert(diags_v(diags@) =~= d0 + check_extras(fm, lm.subrange(0, 0), entries_v(*pe), primary@));
        while i < locales.len()
            invariant
                lm == locales_model(locales@),
                fm == files_model(file_map@),
                i <= locales@.len(),
                diags_v(diags@) == d0 + check_extras(fm, lm.subrange(0, i as int), entries_v(*pe), primary@),
            decreases locales@.len() - i,
        {
            proof {
                lemma_check_extras_step(fm, lm, entries_v(*pe), primary@, i as int);
                assert(lm[i as int] == (locales@[i as int].0@, entries_v(locales@[i as int].1)));
            }
            if !crate::text::str_eq(locales[i].0.as_str(), primary) {
                let ghost before = diags_v(diags@);
                push_locale_extras(&mut diags, &file_map, &locales[i].0, &locales[i].1, pe, primary);
                assert(diags_v(diags@) =~= d0 + check_extras(fm, lm.subrange(0, i + 1), entries_v(*pe), primary@));
            }
            i += 1;
        }
        assert(lm.subrange(0, i as int) =~= lm);
        let report = diagnostics_report(diags.as_slice());
        proof {
            crate::diag::lemma_counts_v(diags@);
        }
        if report.errors > 0 {
            return Err(report_abort(diags));
        }
        let resolved = match resolve_locales(&locales) {
            Ok(r) => r,
            Err(m) => {
                let e = LoadError { diags: Vec::new(), message: m };
                assert(diags_v(e.diags@) =~= Seq::<DiagV>::empty());
                return Err(e);
            },
        };
        proof {
            lemma_resolve_all_keys(lm);
            crate::keyed::lemma_gk_index_same_keys(locales_model(resolved@), lm, primary@);
        }
        let bs = copy_builtins(builtins);
        assert(keys_sorted(bs@)) by {
            assert forall|a: int, c: int| 0 <= a < c < bs@.len() implies
                crate::text::seq_less(#[trigger] bs@[a].0@, #[trigger] bs@[c].0@) by {
                assert(bs@[a].0@ == builtins@[a].0@);
                assert(bs@[c].0@ == builtins@[c].0@);
            }
        }
        Ok(Generator {
            primary: string_of(primary),
            locales: resolved,
            diags,
            mod_path: string_of(mod_path),
            builtins: bs,
        })
}

impl Generator {
    /// Loads the locale files: each file's locale must be a language
    /// identifier and its text parse; the primary locale must be present, no
    /// other locale may hold entries the primary lacks, and every locale
    /// must resolve. The files must meet all of this; `try_load` checks them
    /// first.
    pub fn load(files: &Vec<SourceFile>, primary: &str, mod_path: &str,
        builtins: &Vec<(String, BuiltInFuncDef)>) -> (g: Generator)
        requires
            keys_sorted(builtins@),
            load_spec(files@, primary@, builtins@) is Ok,
        ensures
            load_outcome(Ok::<Generator, LoadError>(g), files@, primary@, mod_path@, builtins@),
    {
        match load_files(files, primary, mod_path, builtins) {
            Ok(g) => g,
            Err(_) => {
                proof {
                    assert(false);
                }
                Generator {
                    primary: String::new(),
                    locales: Vec::new(),
                    diags: Vec::new(),
                    mod_path: String::new(),
                    builtins: Vec::new(),
                }
            },
        }
    }

    /// Checks the locale files and loads them when they pass. Otherwise
    /// gives the diagnostics and the message that loading stops with: a bad
    /// locale name, an unreadable file, a syntax error, a missing primary
    /// locale or entries the primary lacks (with all diagnostics), or a
    /// reference that does not resolve (with none).
    pub fn try_load(files: &Vec<SourceFile>, primary: &str, mod_path: &str,
        builtins: &Vec<(String, BuiltInFuncDef)>) -> (res: Result<Generator, LoadError>)
        requires
            keys_sorted(builtins@),
        ensures
            load_outcome(res, files@, primary@, mod_path@, builtins@),
    {
        match load_files(files, primary, mod_path, builtins) {
            Err(e) => Err(e),
            Ok(_) => Ok(Self::load(files, primary, mod_path, builtins)),
        }
    }
}

/// Every locale resolved.
fn resolve_locales(locales: &Vec<(String, LocaleEntries)>) -> (res: Result<Vec<(String, LocaleEntries)>, String>)
    ensures
        keys_sorted(locales@) ==> (res matches Ok(r) ==> keys_sorted(r@)),
        match res {
            Ok(r) => resolve_all(locales_model(locales@)) == Ok::<Seq<(Seq<char>, EntriesV)>, Seq<char>>(locales_model(r@)),
            Err(m) => resolve_all(locales_model(locales@)) == Err::<Seq<(Seq<char>, EntriesV)>, Seq<char>>(m@),
        },
{
    let ghost lm = locales_model(locales@);
    let mut resolved: Vec<(String, LocaleEntries)> = Vec::new();
    let mut j: usize = 0;
    assert(lm.subrange(0, 0) =~= Seq::<(Seq<char>, EntriesV)>::empty());
    assert(locales_model(resolved@) =~= Seq::<(Seq<char>, EntriesV)>::empty());
    while j < locales.len()
        invariant
            lm == locales_model(locales@),
            j <= locales@.len(),
            resolve_all(lm.subrange(0, j as int)) == Ok::<Seq<(Seq<char>, EntriesV)>, Seq<char>>(locales_model(resolved@)),
            resolved@.len() == j,
            forall|x: int| 0 <= x < j ==> (#[trigger] resolved@[x]).0@ == locales@[x].0@,
        decreases locales@.len() - j,
    {
        assert(lm.subrange(0, j + 1).drop_last() =~= lm.subrange(0, j as int));
        assert(lm[j as int] == (locales@[j as int].0@, entries_v(locales@[j as int].1)));
        match resolve_locale(&locales[j].1) {
            Ok(r) => {
                let k = copy_string_ref(&locales[j].0);
                let ghost before = resolved@;
                resolved.push((k, r));
                assert(locales_model(resolved@) =~= locales_model(before).push((k@, entries_v(r))));
            },
            Err(m) => {
                proof {
                    lemma_resolve_all_err(lm, j as int + 1, m@);
                }
                return Err(m);
            },
        }
        j += 1;
    }
    assert(lm.subrange(0, j as int) =~= lm);
    assert(keys_sorted(locales@) ==> keys_sorted(resolved@)) by {
        if keys_sorted(locales@) {
            assert forall|a: int, b: int| 0 <= a < b < resolved@.len() implies
                crate::text::seq_less(#[trigger] resolved@[a].0@, #[trigger] resolved@[b].0@) by {
                assert(resolved@[a].0@ == locales@[a].0@);
                assert(resolved@[b].0@ == locales@[b].0@);
            }
        }
    }
    Ok(resolved)
}

impl Generator {
    /// Loads the locale files with only the always-available `NUMBER` and
    /// `DATETIME` built-ins: what loading with any registry of exactly
    /// those two gives.
    pub fn load_simple(files: &Vec<SourceFile>, primary: &str, mod_path: &str) -> (res: Result<Generator, LoadError>)
        ensures
            forall|b: Seq<(String, BuiltInFuncDef)>|
                defs_model(b) == crate::config::with_defaults(Seq::empty())
                ==> #[trigger] load_outcome(res, files@, primary@, mod_path@, b),
    {
        let builtins = crate::config::generator().get_builtins();
        assert(defs_model(Seq::<(String, BuiltInFuncDef)>::empty()) =~= Seq::<(Seq<char>, crate::builtin::DefV)>::empty());
        let res = Self::try_load(files, primary, mod_path, &builtins);
        assert forall|b: Seq<(String, BuiltInFuncDef)>|
            defs_model(b) == crate::config::with_defaults(Seq::empty())
            implies #[trigger] load_outcome(res, files@, primary@, mod_path@, b) by {
            lemma_load_depends_on_builtins_model(files@, primary@, builtins@, b);
        }
        res
    }
}

proof fn lemma_resolve_all_err(locs: Seq<(Seq<char>, EntriesV)>, n: int, m: Seq<char>)
    requires
        0 <= n <= locs.len(),
        resolve_all(locs.subrange(0, n)) == Err::<Seq<(Seq<char>, EntriesV)>, Seq<char>>(m),
    ensures
        resolve_all(locs) == Err::<Seq<(Seq<char>, EntriesV)>, Seq<char>>(m),
    decreases locs.len() - n,
{
    if n == locs.len() {
        assert(locs.subrange(0, n) =~= locs);
    } else {
        assert(locs.subrange(0, n + 1).drop_last() =~= locs.subrange(0, n));
        lemma_resolve_all_err(locs, n + 1, m);
    }
}

/// A copy of a registry of built-ins.
pub fn copy_builtins(b: &Vec<(String, BuiltInFuncDef)>) -> (res: Vec<(String, BuiltInFuncDef)>)
    ensures
        defs_model(res@) == defs_model(b@),
        forall|i: int| 0 <= i < b@.len() ==> (#[trigger] res@[i]).0@ == b@[i].0@,
        res@.len() == b@.len(),
{
    let mut out: Vec<(String, BuiltInFuncDef)> = Vec::new();
    let mut i: usize = 0;
    while i < b.len()
        invariant
            i <= b@.len(),
            out@.len() == i,
            forall|j: int| 0 <= j < i ==> (#[trigger] out@[j]).0@ == b@[j].0@ && def_v(out@[j].1) == def_v(b@[j].1),
        decreases b@.len() - i,
    {
        out.push((copy_string_ref(&b[i].0), copy_def(&b[i].1)));
        i += 1;
    }
    assert(defs_model(out@) =~= defs_model(b@));
    out
}

} // verus!
