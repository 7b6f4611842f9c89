//! CLDR plural-category rules, as Rust guard expressions over an integer `n`.
use vstd::prelude::*;
use crate::text::{chars_of, dec_str, push_char, str_eq};

verus! {

/// Rules for categories other than `other`, for one language.
pub type RuleTable = Seq<(Seq<char>, Seq<char>)>;

/// `n != 0 && n % 1000000 == 0`: the CLDR `many` rule of the Romance languages.
pub open spec fn romance_many() -> Seq<char> {
    "n != 0 && n % 1000000 == 0"@
}

/// The per-language rule tables (derived from CLDR plural rules; `other`
/// needs no guard and is not listed).
pub open spec fn plural_table(lang: Seq<char>) -> Option<RuleTable> {
    if lang == "en"@ || lang == "de"@ || lang == "nl"@ || lang == "sv"@ {
        Some(seq![("one"@, "n == 1"@)])
    } else if lang == "it"@ || lang == "es"@ {
        Some(seq![("one"@, "n == 1"@), ("many"@, romance_many())])
    } else if lang == "fr"@ || lang == "pt"@ {
        Some(seq![("one"@, "n == 0 || n == 1"@), ("many"@, romance_many())])
    } else if lang == "ru"@ || lang == "uk"@ {
        Some(seq![
            ("one"@, "n % 10 == 1 && n % 100 != 11"@),
            ("few"@, "n % 10 >= 2 && n % 10 <= 4 && (n % 100 < 12 || n % 100 > 14)"@),
            ("many"@, "n % 10 == 0 || (n % 10 >= 5 && n % 10 <= 9) || (n % 100 >= 11 && n % 100 <= 14)"@),
        ])
    } else if lang == "pl"@ {
        Some(seq![
            ("one"@, "n == 1"@),
            ("few"@, "n % 10 >= 2 && n % 10 <= 4 && (n % 100 < 12 || n % 100 > 14)"@),
            ("many"@, "(n != 1 && n % 10 <= 1) || (n % 10 >= 5 && n % 10 <= 9) || (n % 100 >= 12 && n % 100 <= 14)"@),
        ])
    } else if lang == "cs"@ {
        Some(seq![("one"@, "n == 1"@), ("few"@, "n >= 2 && n <= 4"@)])
    } else if lang == "ar"@ {
        Some(seq![
            ("zero"@, "n == 0"@),
            ("one"@, "n == 1"@),
            ("two"@, "n == 2"@),
            ("few"@, "n % 100 >= 3 && n % 100 <= 10"@),
            ("many"@, "n % 100 >= 11 && n % 100 <= 99"@),
        ])
    } else if lang == "ja"@ || lang == "zh"@ || lang == "ko"@ {
        Some(Seq::empty())
    } else {
        None
    }
}

/// The rule of the first entry for category `cat`.
pub open spec fn find_rule(entries: RuleTable, cat: Seq<char>) -> Option<Seq<char>>
    decreases entries.len(),
{
    if entries.len() == 0 {
        None
    } else if entries[0].0 == cat {
        Some(entries[0].1)
    } else {
        find_rule(entries.drop_first(), cat)
    }
}

/// Index of the first `-` in `s`, if any.
pub open spec fn first_dash(s: Seq<char>) -> Option<int>
    decreases s.len(),
{
    if s.len() == 0 {
        None
    } else if s[0] == '-' {
        Some(0)
    } else {
        match first_dash(s.drop_first()) {
            Some(i) => Some(i + 1),
            None => None,
        }
    }
}

/// The base language of a tag: what precedes its first `-`.
pub open spec fn lang_base(lang: Seq<char>) -> Option<Seq<char>> {
    match first_dash(lang) {
        Some(i) => Some(lang.subrange(0, i)),
        None => None,
    }
}

/// `plural_rule`: the rule of `cat` for the full tag; when the tag has a
/// table but no rule for `cat`, the rule of its base language. A tag
/// without a table has no rules at all.
pub open spec fn plural_rule_spec(lang: Seq<char>, cat: Seq<char>) -> Option<Seq<char>> {
    match plural_table(lang) {
        None => None,
        Some(e) => match find_rule(e, cat) {
            Some(r) => Some(r),
            None => match lang_base(lang) {
                None => None,
                Some(b) => match plural_table(b) {
                    None => None,
                    Some(e2) => find_rule(e2, cat),
                },
            },
        },
    }
}

/// Guards used where no rule is known: `zero`, `one` and `two` match
/// exactly 0, 1 and 2.
pub open spec fn fallback_rule(cat: Seq<char>) -> Option<Seq<char>> {
    if cat == "zero"@ {
        Some("n == 0"@)
    } else if cat == "one"@ {
        Some("n == 1"@)
    } else if cat == "two"@ {
        Some("n == 2"@)
    } else {
        None
    }
}

pub open spec fn plural_rule_or_fallback_spec(lang: Seq<char>, cat: Seq<char>) -> Option<Seq<char>> {
    match plural_rule_spec(lang, cat) {
        Some(r) => Some(r),
        None => fallback_rule(cat),
    }
}

/// Relates an optional static string to its spec value.
pub open spec fn opt_str_is(r: Option<&'static str>, s: Option<Seq<char>>) -> bool {
    match r {
        Some(x) => s == Some(x@),
        None => s is None,
    }
}

/// Relates a list of `(category, rule)` pairs to a rule table.
pub open spec fn table_is(v: Seq<(&'static str, &'static str)>, t: RuleTable) -> bool {
    v.len() == t.len() && forall|i: int| 0 <= i < v.len() ==> (#[trigger] v[i]).0@ == t[i].0 && v[i].1@ == t[i].1
}

/// The rule table of one language tag.
pub fn lookup_rules(lang: &str) -> (res: Option<Vec<(&'static str, &'static str)>>)
    ensures
        match res {
            Some(v) => plural_table(lang@) matches Some(t) && table_is(v@, t),
            None => plural_table(lang@) is None,
        },
{
    let many = "n != 0 && n % 1000000 == 0";
    let few_slavic = "n % 10 >= 2 && n % 10 <= 4 && (n % 100 < 12 || n % 100 > 14)";
    if str_eq(lang, "en") || str_eq(lang, "de") || str_eq(lang, "nl") || str_eq(lang, "sv") {
        Some(vec![("one", "n == 1")])
    } else if str_eq(lang, "it") || str_eq(lang, "es") {
        Some(vec![("one", "n == 1"), ("many", many)])
    } else if str_eq(lang, "fr") || str_eq(lang, "pt") {
        Some(vec![("one", "n == 0 || n == 1"), ("many", many)])
    } else if str_eq(lang, "ru") || str_eq(lang, "uk") {
        Some(vec![
            ("one", "n % 10 == 1 && n % 100 != 11"),
            ("few", few_slavic),
            ("many", "n % 10 == 0 || (n % 10 >= 5 && n % 10 <= 9) || (n % 100 >= 11 && n % 100 <= 14)"),
        ])
    } else if str_eq(lang, "pl") {
        Some(vec![
            ("one", "n == 1"),
            ("few", few_slavic),
            ("many", "(n != 1 && n % 10 <= 1) || (n % 10 >= 5 && n % 10 <= 9) || (n % 100 >= 12 && n % 100 <= 14)"),
        ])
    } else if str_eq(lang, "cs") {
        Some(vec![("one", "n == 1"), ("few", "n >= 2 && n <= 4")])
    } else if str_eq(lang, "ar") {
        Some(vec![
            ("zero", "n == 0"),
            ("one", "n == 1"),
            ("two", "n == 2"),
            ("few", "n % 100 >= 3 && n % 100 <= 10"),
            ("many", "n % 100 >= 11 && n % 100 <= 99"),
        ])
    } else if str_eq(lang, "ja") || str_eq(lang, "zh") || str_eq(lang, "ko") {
        Some(Vec::new())
    } else {
        None
    }
}

fn find_in(entries: &Vec<(&'static str, &'static str)>, cat: &str) -> (res: Option<&'static str>)
    ensures
        forall|t: RuleTable| table_is(entries@, t) ==> opt_str_is(res, find_rule(t, cat@)),
{
    let mut i: usize = 0;
    assert forall|t: RuleTable| table_is(entries@, t) implies find_rule(t, cat@) == find_rule(t.skip(0), cat@) by {
        assert(t.skip(0) =~= t);
    }
    while i < entries.len()
        invariant
            i <= entries@.len(),
            forall|t: RuleTable| table_is(entries@, t) ==> find_rule(t, cat@) == find_rule(t.skip(i as int), cat@),
        decreases entries@.len() - i,
    {
        assert forall|t: RuleTable| table_is(entries@, t) implies
            find_rule(t.skip(i as int), cat@) == (if t[i as int].0 == cat@ { Some(t[i as int].1) } else { find_rule(t.skip(i + 1), cat@) }) by {
            assert(t.skip(i as int)[0] == t[i as int]);
            assert(t.skip(i as int).drop_first() =~= t.skip(i + 1));
        }
        let (c, r) = entries[i];
        if str_eq(c, cat) {
            return Some(r);
        }
        i += 1;
    }
    assert forall|t: RuleTable| table_is(entries@, t) implies find_rule(t.skip(i as int), cat@) is None by {
        assert(t.skip(i as int).len() == 0);
    }
    None
}

proof fn lemma_first_dash(s: Seq<char>, i: int)
    requires
        0 <= i <= s.len(),
        forall|j: int| 0 <= j < i ==> s[j] != '-',
    ensures
        first_dash(s) == (match first_dash(s.skip(i)) { Some(k) => Some(k + i), None => None }),
    decreases i,
{
    if i > 0 {
        assert(s.drop_first().skip(i - 1) =~= s.skip(i));
        lemma_first_dash(s.drop_first(), i - 1);
    } else {
        assert(s.skip(0) =~= s);
    }
}

/// The base language of a tag (the part before its first `-`), if it has one.
pub fn base_language(lang: &str) -> (res: Option<String>)
    ensures
        match res {
            Some(b) => lang_base(lang@) == Some(b@),
            None => lang_base(lang@) is None,
        },
{
    let cs = chars_of(lang);
    let mut prefix = String::new();
    let mut i: usize = 0;
    while i < cs.len()
        invariant
            cs@ == lang@,
            i <= cs.len(),
            prefix@ == lang@.subrange(0, i as int),
            forall|j: int| 0 <= j < i ==> lang@[j] != '-',
        decreases cs.len() - i,
    {
        if cs[i] == '-' {
            proof {
                lemma_first_dash(lang@, i as int);
                assert(lang@.skip(i as int)[0] == '-');
            }
            return Some(prefix);
        }
        push_char(&mut prefix, cs[i]);
        assert(prefix@ =~= lang@.subrange(0, i + 1));
        i += 1;
    }
    proof {
        lemma_first_dash(lang@, i as int);
    }
    None
}

/// The guard expression for plural category `cat` in language `lang`.
pub fn plural_rule(lang: &str, cat: &str) -> (res: Option<&'static str>)
    ensures
        opt_str_is(res, plural_rule_spec(lang@, cat@)),
{
    let entries = match lookup_rules(lang) {
        Some(e) => e,
        None => return None,
    };
    if let Some(r) = find_in(&entries, cat) {
        return Some(r);
    }
    let base = match base_language(lang) {
        Some(b) => b,
        None => return None,
    };
    let entries2 = match lookup_rules(base.as_str()) {
        Some(e) => e,
        None => return None,
    };
    find_in(&entries2, cat)
}

/// Like `plural_rule`, falling back to exact matches for `zero`, `one`, `two`.
pub fn plural_rule_or_fallback(lang: &str, cat: &str) -> (res: Option<&'static str>)
    ensures
        opt_str_is(res, plural_rule_or_fallback_spec(lang@, cat@)),
{
    match plural_rule(lang, cat) {
        Some(r) => Some(r),
        None => {
            if str_eq(cat, "zero") {
                Some("n == 0")
            } else if str_eq(cat, "one") {
                Some("n == 1")
            } else if str_eq(cat, "two") {
                Some("n == 2")
            } else {
                None
            }
        }
    }
}


// ---------------------------------------------------------------------
// What the rules mean
// ---------------------------------------------------------------------

/// One (`one`): `i = 1 and v = 0`.
pub open spec fn cldr_one_only(n: nat) -> Seq<char> {
    if n == 1 { "one"@ } else { "other"@ }
}

/// Italian and Spanish: one: `i = 1 and v = 0`; many: `e = 0 and i != 0
/// and i % 1000000 = 0 and v = 0`.
pub open spec fn cldr_it(n: nat) -> Seq<char> {
    if n == 1 { "one"@ } else if n != 0 && n % 1000000 == 0 { "many"@ } else { "other"@ }
}

/// French and Portuguese: one: `i = 0,1`; many: `e = 0 and i != 0 and
/// i % 1000000 = 0 and v = 0`.
pub open spec fn cldr_fr(n: nat) -> Seq<char> {
    if n == 0 || n == 1 { "one"@ } else if n != 0 && n % 1000000 == 0 { "many"@ } else { "other"@ }
}

/// Russian and Ukrainian: one: `v = 0 and i % 10 = 1 and i % 100 != 11`;
/// few: `v = 0 and i % 10 = 2..4 and i % 100 != 12..14`; many: `v = 0 and
/// i % 10 = 0 or v = 0 and i % 10 = 5..9 or v = 0 and i % 100 = 11..14`.
pub open spec fn cldr_ru(n: nat) -> Seq<char> {
    if n % 10 == 1 && n % 100 != 11 {
        "one"@
    } else if 2 <= n % 10 <= 4 && !(12 <= n % 100 <= 14) {
        "few"@
    } else if n % 10 == 0 || 5 <= n % 10 <= 9 || 11 <= n % 100 <= 14 {
        "many"@
    } else {
        "other"@
    }
}

/// Polish: one: `i = 1 and v = 0`; few: `v = 0 and i % 10 = 2..4 and
/// i % 100 != 12..14`; many: `v = 0 and i != 1 and i % 10 = 0..1 or v = 0
/// and i % 10 = 5..9 or v = 0 and i % 100 = 12..14`.
pub open spec fn cldr_pl(n: nat) -> Seq<char> {
    if n == 1 {
        "one"@
    } else if 2 <= n % 10 <= 4 && !(12 <= n % 100 <= 14) {
        "few"@
    } else if (n != 1 && n % 10 <= 1) || 5 <= n % 10 <= 9 || 12 <= n % 100 <= 14 {
        "many"@
    } else {
        "other"@
    }
}

/// Czech: one: `i = 1 and v = 0`; few: `i = 2..4 and v = 0`.
pub open spec fn cldr_cs(n: nat) -> Seq<char> {
    if n == 1 { "one"@ } else if 2 <= n <= 4 { "few"@ } else { "other"@ }
}

/// Arabic: zero: `n = 0`; one: `n = 1`; two: `n = 2`; few: `n % 100 =
/// 3..10`; many: `n % 100 = 11..99`.
pub open spec fn cldr_ar(n: nat) -> Seq<char> {
    if n == 0 {
        "zero"@
    } else if n == 1 {
        "one"@
    } else if n == 2 {
        "two"@
    } else if 3 <= n % 100 <= 10 {
        "few"@
    } else if 11 <= n % 100 <= 99 {
        "many"@
    } else {
        "other"@
    }
}

/// The CLDR plural category of a non-negative integer `n` (plural operands
/// `i = n`, `v = 0`) in each language that has a rule table, as the CLDR
/// plural rules give it; `other` where no rule applies.
pub open spec fn cldr_category(lang: Seq<char>, n: nat) -> Seq<char> {
    if lang == "en"@ || lang == "de"@ || lang == "nl"@ || lang == "sv"@ {
        cldr_one_only(n)
    } else if lang == "it"@ || lang == "es"@ {
        cldr_it(n)
    } else if lang == "fr"@ || lang == "pt"@ {
        cldr_fr(n)
    } else if lang == "ru"@ || lang == "uk"@ {
        cldr_ru(n)
    } else if lang == "pl"@ {
        cldr_pl(n)
    } else if lang == "cs"@ {
        cldr_cs(n)
    } else if lang == "ar"@ {
        cldr_ar(n)
    } else {
        "other"@
    }
}

/// The left side of a comparison in a guard: `n` or `n % m`.
pub enum GuardLhs {
    N,
    NMod(nat),
}

pub enum GuardOp {
    Eq,
    Ne,
    Lt,
    Le,
    Gt,
    Ge,
}

/// A guard over the match value `n`, as a tree.
pub enum Guard {
    Cmp(GuardLhs, GuardOp, nat),
    And(Box<Guard>, Box<Guard>),
    Or(Box<Guard>, Box<Guard>),
    Paren(Box<Guard>),
}

pub open spec fn lhs_text(l: GuardLhs) -> Seq<char> {
    match l {
        GuardLhs::N => "n"@,
        GuardLhs::NMod(m) => "n % "@ + dec_str(m),
    }
}

pub open spec fn op_text(op: GuardOp) -> Seq<char> {
    match op {
        GuardOp::Eq => "=="@,
        GuardOp::Ne => "!="@,
        GuardOp::Lt => "<"@,
        GuardOp::Le => "<="@,
        GuardOp::Gt => ">"@,
        GuardOp::Ge => ">="@,
    }
}

/// The Rust text of a guard.
pub open spec fn guard_text(g: Guard) -> Seq<char>
    decreases g,
{
    match g {
        Guard::Cmp(l, op, k) => lhs_text(l) + " "@ + op_text(op) + " "@ + dec_str(k),
        Guard::And(a, b) => guard_text(*a) + " && "@ + guard_text(*b),
        Guard::Or(a, b) => guard_text(*a) + " || "@ + guard_text(*b),
        Guard::Paren(a) => "("@ + guard_text(*a) + ")"@,
    }
}

/// A guard whose text Rust reads as the tree: no `||` directly under
/// `&&` (it would bind looser), and no `% 0`.
pub open spec fn guard_wf(g: Guard) -> bool
    decreases g,
{
    match g {
        Guard::Cmp(l, _, _) => l matches GuardLhs::NMod(m) ==> m > 0,
        Guard::And(a, b) => !(*a is Or) && !(*b is Or) && guard_wf(*a) && guard_wf(*b),
        Guard::Or(a, b) => guard_wf(*a) && guard_wf(*b),
        Guard::Paren(a) => guard_wf(*a),
    }
}

pub open spec fn lhs_value(l: GuardLhs, n: nat) -> int {
    match l {
        GuardLhs::N => n as int,
        GuardLhs::NMod(m) => (n % m) as int,
    }
}

/// Whether a guard holds for the match value `n`.
pub open spec fn guard_holds(g: Guard, n: nat) -> bool
    decreases g,
{
    match g {
        Guard::Cmp(l, op, k) => {
            let x = lhs_value(l, n);
            match op {
                GuardOp::Eq => x == k,
                GuardOp::Ne => x != k,
                GuardOp::Lt => x < k,
                GuardOp::Le => x <= k,
                GuardOp::Gt => x > k,
                GuardOp::Ge => x >= k,
            }
        },
        Guard::And(a, b) => guard_holds(*a, n) && guard_holds(*b, n),
        Guard::Or(a, b) => guard_holds(*a, n) || guard_holds(*b, n),
        Guard::Paren(a) => guard_holds(*a, n),
    }
}

/// A rule text that means category `cat` of `lang`: it is the text of a
/// well-formed guard that holds exactly for the integers CLDR puts in `cat`.
pub open spec fn rule_means(r: Seq<char>, lang: Seq<char>, cat: Seq<char>) -> bool {
    exists|g: Guard| guard_wf(g) && #[trigger] guard_text(g) == r
        && forall|n: nat| guard_holds(g, n) <==> cldr_category(lang, n) == cat
}

/// The rule of `cat` in `lang` means that category, and a category with no
/// rule has no integers.
pub open spec fn rule_sound(lang: Seq<char>, cat: Seq<char>) -> bool {
    match plural_rule_spec(lang, cat) {
        Some(r) => rule_means(r, lang, cat),
        None => forall|n: nat| cldr_category(lang, n) != cat,
    }
}

spec fn atom(l: GuardLhs, op: GuardOp, k: nat) -> Guard {
    Guard::Cmp(l, op, k)
}

spec fn and(a: Guard, b: Guard) -> Guard {
    Guard::And(Box::new(a), Box::new(b))
}

spec fn or(a: Guard, b: Guard) -> Guard {
    Guard::Or(Box::new(a), Box::new(b))
}

spec fn paren(a: Guard) -> Guard {
    Guard::Paren(Box::new(a))
}

spec fn g_n_eq(k: nat) -> Guard {
    atom(GuardLhs::N, GuardOp::Eq, k)
}

spec fn g_zero_or_one() -> Guard {
    or(g_n_eq(0), g_n_eq(1))
}

spec fn g_romance_many() -> Guard {
    and(atom(GuardLhs::N, GuardOp::Ne, 0), atom(GuardLhs::NMod(1000000), GuardOp::Eq, 0))
}

spec fn g_ru_one() -> Guard {
    and(atom(GuardLhs::NMod(10), GuardOp::Eq, 1), atom(GuardLhs::NMod(100), GuardOp::Ne, 11))
}

spec fn g_slavic_few() -> Guard {
    and(atom(GuardLhs::NMod(10), GuardOp::Ge, 2), and(atom(GuardLhs::NMod(10), GuardOp::Le, 4),
        paren(or(atom(GuardLhs::NMod(100), GuardOp::Lt, 12), atom(GuardLhs::NMod(100), GuardOp::Gt, 14)))))
}

spec fn g_mod_range(m: nat, lo: nat, hi: nat) -> Guard {
    and(atom(GuardLhs::NMod(m), GuardOp::Ge, lo), atom(GuardLhs::NMod(m), GuardOp::Le, hi))
}

spec fn g_ru_many() -> Guard {
    or(atom(GuardLhs::NMod(10), GuardOp::Eq, 0), or(paren(g_mod_range(10, 5, 9)), paren(g_mod_range(100, 11, 14))))
}

spec fn g_pl_many() -> Guard {
    or(paren(and(atom(GuardLhs::N, GuardOp::Ne, 1), atom(GuardLhs::NMod(10), GuardOp::Le, 1))),
        or(paren(g_mod_range(10, 5, 9)), paren(g_mod_range(100, 12, 14))))
}

spec fn g_cs_few() -> Guard {
    and(atom(GuardLhs::N, GuardOp::Ge, 2), atom(GuardLhs::N, GuardOp::Le, 4))
}

spec fn g_ar_few() -> Guard {
    g_mod_range(100, 3, 10)
}

spec fn g_ar_many() -> Guard {
    g_mod_range(100, 11, 99)
}

proof fn lemma_dec_strs()
    ensures
        dec_str(0) == seq!['0'],
        dec_str(1) == seq!['1'],
        dec_str(2) == seq!['2'],
        dec_str(3) == seq!['3'],
        dec_str(4) == seq!['4'],
        dec_str(5) == seq!['5'],
        dec_str(9) == seq!['9'],
        dec_str(10) == seq!['1', '0'],
        dec_str(11) == seq!['1', '1'],
        dec_str(12) == seq!['1', '2'],
        dec_str(14) == seq!['1', '4'],
        dec_str(99) == seq!['9', '9'],
        dec_str(100) == seq!['1', '0', '0'],
        dec_str(1000000) == seq!['1', '0', '0', '0', '0', '0', '0'],
{
    reveal_with_fuel(dec_str, 8);
    assert(dec_str(10) =~= seq!['1', '0']);
    assert(dec_str(11) =~= seq!['1', '1']);
    assert(dec_str(12) =~= seq!['1', '2']);
    assert(dec_str(14) =~= seq!['1', '4']);
    assert(dec_str(99) =~= seq!['9', '9']);
    assert(dec_str(100) =~= seq!['1', '0', '0']);
    assert(dec_str(1000000) =~= seq!['1', '0', '0', '0', '0', '0', '0']);
}


proof fn lemma_text_n_eq0()
    ensures
        guard_wf(g_n_eq(0)),
        guard_text(g_n_eq(0)) == "n == 0"@,
{
    reveal_strlit("n");
    reveal_strlit("n % ");
    reveal_strlit(" ");
    reveal_strlit("==");
    reveal_strlit("!=");
    reveal_strlit("<");
    reveal_strlit("<=");
    reveal_strlit(">");
    reveal_strlit(">=");
    reveal_strlit(" && ");
    reveal_strlit(" || ");
    reveal_strlit("(");
    reveal_strlit(")");
    reveal_strlit("n == 0");
    lemma_dec_strs();
    reveal_with_fuel(guard_text, 6);
    reveal_with_fuel(guard_wf, 6);
    assert(guard_text(g_n_eq(0)) =~= "n == 0"@);
}

proof fn lemma_text_n_eq1()
    ensures
        guard_wf(g_n_eq(1)),
        guard_text(g_n_eq(1)) == "n == 1"@,
{
    reveal_strlit("n");
    reveal_strlit("n % ");
    reveal_strlit(" ");
    reveal_strlit("==");
    reveal_strlit("!=");
    reveal_strlit("<");
    reveal_strlit("<=");
    reveal_strlit(">");
    reveal_strlit(">=");
    reveal_strlit(" && ");
    reveal_strlit(" || ");
    reveal_strlit("(");
    reveal_strlit(")");
    reveal_strlit("n == 1");
    lemma_dec_strs();
    reveal_with_fuel(guard_text, 6);
    reveal_with_fuel(guard_wf, 6);
    assert(guard_text(g_n_eq(1)) =~= "n == 1"@);
}

proof fn lemma_text_n_eq2()
    ensures
        guard_wf(g_n_eq(2)),
        guard_text(g_n_eq(2)) == "n == 2"@,
{
    reveal_strlit("n");
    reveal_strlit("n % ");
    reveal_strlit(" ");
    reveal_strlit("==");
    reveal_strlit("!=");
    reveal_strlit("<");
    reveal_strlit("<=");
    reveal_strlit(">");
    reveal_strlit(">=");
    reveal_strlit(" && ");
    reveal_strlit(" || ");
    reveal_strlit("(");
    reveal_strlit(")");
    reveal_strlit("n == 2");
    lemma_dec_strs();
    reveal_with_fuel(guard_text, 6);
    reveal_with_fuel(guard_wf, 6);
    assert(guard_text(g_n_eq(2)) =~= "n == 2"@);
}

proof fn lemma_text_zero_or_one()
    ensures
        guard_wf(g_zero_or_one()),
        guard_text(g_zero_or_one()) == "n == 0 || n == 1"@,
{
    reveal_strlit("n");
    reveal_strlit("n % ");
    reveal_strlit(" ");
    reveal_strlit("==");
    reveal_strlit("!=");
    reveal_strlit("<");
    reveal_strlit("<=");
    reveal_strlit(">");
    reveal_strlit(">=");
    reveal_strlit(" && ");
    reveal_strlit(" || ");
    reveal_strlit("(");
    reveal_strlit(")");
    reveal_strlit("n == 0 || n == 1");
    lemma_dec_strs();
    reveal_with_fuel(guard_text, 6);
    reveal_with_fuel(guard_wf, 6);
    assert(guard_text(g_zero_or_one()) =~= "n == 0 || n == 1"@);
}

proof fn lemma_text_romance_many()
    ensures
        guard_wf(g_romance_many()),
        guard_text(g_romance_many()) == "n != 0 && n % 1000000 == 0"@,
{
    reveal_strlit("n");
    reveal_strlit("n % ");
    reveal_strlit(" ");
    reveal_strlit("==");
    reveal_strlit("!=");
    reveal_strlit("<");
    reveal_strlit("<=");
    reveal_strlit(">");
    reveal_strlit(">=");
    reveal_strlit(" && ");
    reveal_strlit(" || ");
    reveal_strlit("(");
    reveal_strlit(")");
    reveal_strlit("n != 0 && n % 1000000 == 0");
    lemma_dec_strs();
    reveal_with_fuel(guard_text, 6);
    reveal_with_fuel(guard_wf, 6);
    assert(guard_text(g_romance_many()) =~= "n != 0 && n % 1000000 == 0"@);
}

proof fn lemma_text_ru_one()
    ensures
        guard_wf(g_ru_one()),
        guard_text(g_ru_one()) == "n % 10 == 1 && n % 100 != 11"@,
{
    reveal_strlit("n");
    reveal_strlit("n % ");
    reveal_strlit(" ");
    reveal_strlit("==");
    reveal_strlit("!=");
    reveal_strlit("<");
    reveal_strlit("<=");
    reveal_strlit(">");
    reveal_strlit(">=");
    reveal_strlit(" && ");
    reveal_strlit(" || ");
    reveal_strlit("(");
    reveal_strlit(")");
    reveal_strlit("n % 10 == 1 && n % 100 != 11");
    lemma_dec_strs();
    reveal_with_fuel(guard_text, 6);
    reveal_with_fuel(guard_wf, 6);
    assert(guard_text(g_ru_one()) =~= "n % 10 == 1 && n % 100 != 11"@);
}

proof fn lemma_text_slavic_few()
    ensures
        guard_wf(g_slavic_few()),
        guard_text(g_slavic_few()) == "n % 10 >= 2 && n % 10 <= 4 && (n % 100 < 12 || n % 100 > 14)"@,
{
    reveal_strlit("n");
    reveal_strlit("n % ");
    reveal_strlit(" ");
    reveal_strlit("==");
    reveal_strlit("!=");
    reveal_strlit("<");
    reveal_strlit("<=");
    reveal_strlit(">");
    reveal_strlit(">=");
    reveal_strlit(" && ");
    reveal_strlit(" || ");
    reveal_strlit("(");
    reveal_strlit(")");
    reveal_strlit("n % 10 >= 2 && n % 10 <= 4 && (n % 100 < 12 || n % 100 > 14)");
    lemma_dec_strs();
    reveal_with_fuel(guard_text, 6);
    reveal_with_fuel(guard_wf, 6);
    assert(guard_text(g_slavic_few()) =~= "n % 10 >= 2 && n % 10 <= 4 && (n % 100 < 12 || n % 100 > 14)"@);
}

proof fn lemma_text_ru_many()
    ensures
        guard_wf(g_ru_many()),
        guard_text(g_ru_many()) == "n % 10 == 0 || (n % 10 >= 5 && n % 10 <= 9) || (n % 100 >= 11 && n % 100 <= 14)"@,
{
    reveal_strlit("n");
    reveal_strlit("n % ");
    reveal_strlit(" ");
    reveal_strlit("==");
    reveal_strlit("!=");
    reveal_strlit("<");
    reveal_strlit("<=");
    reveal_strlit(">");
    reveal_strlit(">=");
    reveal_strlit(" && ");
    reveal_strlit(" || ");
    reveal_strlit("(");
    reveal_strlit(")");
    reveal_strlit("n % 10 == 0 || (n % 10 >= 5 && n % 10 <= 9) || (n % 100 >= 11 && n % 100 <= 14)");
    lemma_dec_strs();
    reveal_with_fuel(guard_text, 6);
    reveal_with_fuel(guard_wf, 6);
    assert(guard_text(g_ru_many()) =~= "n % 10 == 0 || (n % 10 >= 5 && n % 10 <= 9) || (n % 100 >= 11 && n % 100 <= 14)"@);
}

proof fn lemma_text_pl_many()
    ensures
        guard_wf(g_pl_many()),
        guard_text(g_pl_many()) == "(n != 1 && n % 10 <= 1) || (n % 10 >= 5 && n % 10 <= 9) || (n % 100 >= 12 && n % 100 <= 14)"@,
{
    reveal_strlit("n");
    reveal_strlit("n % ");
    reveal_strlit(" ");
    reveal_strlit("==");
    reveal_strlit("!=");
    reveal_strlit("<");
    reveal_strlit("<=");
    reveal_strlit(">");
    reveal_strlit(">=");
    reveal_strlit(" && ");
    reveal_strlit(" || ");
    reveal_strlit("(");
    reveal_strlit(")");
    reveal_strlit("(n != 1 && n % 10 <= 1) || (n % 10 >= 5 && n % 10 <= 9) || (n % 100 >= 12 && n % 100 <= 14)");
    lemma_dec_strs();
    reveal_with_fuel(guard_text, 6);
    reveal_with_fuel(guard_wf, 6);
    assert(guard_text(g_pl_many()) =~= "(n != 1 && n % 10 <= 1) || (n % 10 >= 5 && n % 10 <= 9) || (n % 100 >= 12 && n % 100 <= 14)"@);
}

proof fn lemma_text_cs_few()
    ensures
        guard_wf(g_cs_few()),
        guard_text(g_cs_few()) == "n >= 2 && n <= 4"@,
{
    reveal_strlit("n");
    reveal_strlit("n % ");
    reveal_strlit(" ");
    reveal_strlit("==");
    reveal_strlit("!=");
    reveal_strlit("<");
    reveal_strlit("<=");
    reveal_strlit(">");
    reveal_strlit(">=");
    reveal_strlit(" && ");
    reveal_strlit(" || ");
    reveal_strlit("(");
    reveal_strlit(")");
    reveal_strlit("n >= 2 && n <= 4");
    lemma_dec_strs();
    reveal_with_fuel(guard_text, 6);
    reveal_with_fuel(guard_wf, 6);
    assert(guard_text(g_cs_few()) =~= "n >= 2 && n <= 4"@);
}

proof fn lemma_text_ar_few()
    ensures
        guard_wf(g_ar_few()),
        guard_text(g_ar_few()) == "n % 100 >= 3 && n % 100 <= 10"@,
{
    reveal_strlit("n");
    reveal_strlit("n % ");
    reveal_strlit(" ");
    reveal_strlit("==");
    reveal_strlit("!=");
    reveal_strlit("<");
    reveal_strlit("<=");
    reveal_strlit(">");
    reveal_strlit(">=");
    reveal_strlit(" && ");
    reveal_strlit(" || ");
    reveal_strlit("(");
    reveal_strlit(")");
    reveal_strlit("n % 100 >= 3 && n % 100 <= 10");
    lemma_dec_strs();
    reveal_with_fuel(guard_text, 6);
    reveal_with_fuel(guard_wf, 6);
    assert(guard_text(g_ar_few()) =~= "n % 100 >= 3 && n % 100 <= 10"@);
}

proof fn lemma_text_ar_many()
    ensures
        guard_wf(g_ar_many()),
        guard_text(g_ar_many()) == "n % 100 >= 11 && n % 100 <= 99"@,
{
    reveal_strlit("n");
    reveal_strlit("n % ");
    reveal_strlit(" ");
    reveal_strlit("==");
    reveal_strlit("!=");
    reveal_strlit("<");
    reveal_strlit("<=");
    reveal_strlit(">");
    reveal_strlit(">=");
    reveal_strlit(" && ");
    reveal_strlit(" || ");
    reveal_strlit("(");
    reveal_strlit(")");
    reveal_strlit("n % 100 >= 11 && n % 100 <= 99");
    lemma_dec_strs();
    reveal_with_fuel(guard_text, 6);
    reveal_with_fuel(guard_wf, 6);
    assert(guard_text(g_ar_many()) =~= "n % 100 >= 11 && n % 100 <= 99"@);
}

proof fn lemma_literals_distinct()
    ensures
        "en"@ != "de"@,
        "en"@ != "nl"@,
        "en"@ != "sv"@,
        "en"@ != "it"@,
        "en"@ != "es"@,
        "en"@ != "fr"@,
        "en"@ != "pt"@,
        "en"@ != "ru"@,
        "en"@ != "uk"@,
        "en"@ != "pl"@,
        "en"@ != "cs"@,
        "en"@ != "ar"@,
        "en"@ != "ja"@,
        "en"@ != "zh"@,
        "en"@ != "ko"@,
        "en"@ != "zero"@,
        "en"@ != "one"@,
        "en"@ != "two"@,
        "en"@ != "few"@,
        "en"@ != "many"@,
        "en"@ != "other"@,
        "de"@ != "nl"@,
        "de"@ != "sv"@,
        "de"@ != "it"@,
        "de"@ != "es"@,
        "de"@ != "fr"@,
        "de"@ != "pt"@,
        "de"@ != "ru"@,
        "de"@ != "uk"@,
        "de"@ != "pl"@,
        "de"@ != "cs"@,
        "de"@ != "ar"@,
        "de"@ != "ja"@,
        "de"@ != "zh"@,
        "de"@ != "ko"@,
        "de"@ != "zero"@,
        "de"@ != "one"@,
        "de"@ != "two"@,
        "de"@ != "few"@,
        "de"@ != "many"@,
        "de"@ != "other"@,
        "nl"@ != "sv"@,
        "nl"@ != "it"@,
        "nl"@ != "es"@,
        "nl"@ != "fr"@,
        "nl"@ != "pt"@,
        "nl"@ != "ru"@,
        "nl"@ != "uk"@,
        "nl"@ != "pl"@,
        "nl"@ != "cs"@,
        "nl"@ != "ar"@,
        "nl"@ != "ja"@,
        "nl"@ != "zh"@,
        "nl"@ != "ko"@,
        "nl"@ != "zero"@,
        "nl"@ != "one"@,
        "nl"@ != "two"@,
        "nl"@ != "few"@,
        "nl"@ != "many"@,
        "nl"@ != "other"@,
        "sv"@ != "it"@,
        "sv"@ != "es"@,
        "sv"@ != "fr"@,
        "sv"@ != "pt"@,
        "sv"@ != "ru"@,
        "sv"@ != "uk"@,
        "sv"@ != "pl"@,
        "sv"@ != "cs"@,
        "sv"@ != "ar"@,
        "sv"@ != "ja"@,
        "sv"@ != "zh"@,
        "sv"@ != "ko"@,
        "sv"@ != "zero"@,
        "sv"@ != "one"@,
        "sv"@ != "two"@,
        "sv"@ != "few"@,
        "sv"@ != "many"@,
        "sv"@ != "other"@,
        "it"@ != "es"@,
        "it"@ != "fr"@,
        "it"@ != "pt"@,
        "it"@ != "ru"@,
        "it"@ != "uk"@,
        "it"@ != "pl"@,
        "it"@ != "cs"@,
        "it"@ != "ar"@,
        "it"@ != "ja"@,
        "it"@ != "zh"@,
        "it"@ != "ko"@,
        "it"@ != "zero"@,
        "it"@ != "one"@,
        "it"@ != "two"@,
        "it"@ != "few"@,
        "it"@ != "many"@,
        "it"@ != "other"@,
        "es"@ != "fr"@,
        "es"@ != "pt"@,
        "es"@ != "ru"@,
        "es"@ != "uk"@,
        "es"@ != "pl"@,
        "es"@ != "cs"@,
        "es"@ != "ar"@,
        "es"@ != "ja"@,
        "es"@ != "zh"@,
        "es"@ != "ko"@,
        "es"@ != "zero"@,
        "es"@ != "one"@,
        "es"@ != "two"@,
        "es"@ != "few"@,
        "es"@ != "many"@,
        "es"@ != "other"@,
        "fr"@ != "pt"@,
        "fr"@ != "ru"@,
        "fr"@ != "uk"@,
        "fr"@ != "pl"@,
        "fr"@ != "cs"@,
        "fr"@ != "ar"@,
        "fr"@ != "ja"@,
        "fr"@ != "zh"@,
        "fr"@ != "ko"@,
        "fr"@ != "zero"@,
        "fr"@ != "one"@,
        "fr"@ != "two"@,
        "fr"@ != "few"@,
        "fr"@ != "many"@,
        "fr"@ != "other"@,
        "pt"@ != "ru"@,
        "pt"@ != "uk"@,
        "pt"@ != "pl"@,
        "pt"@ != "cs"@,
        "pt"@ != "ar"@,
        "pt"@ != "ja"@,
        "pt"@ != "zh"@,
        "pt"@ != "ko"@,
        "pt"@ != "zero"@,
        "pt"@ != "one"@,
        "pt"@ != "two"@,
        "pt"@ != "few"@,
        "pt"@ != "many"@,
        "pt"@ != "other"@,
        "ru"@ != "uk"@,
        "ru"@ != "pl"@,
        "ru"@ != "cs"@,
        "ru"@ != "ar"@,
        "ru"@ != "ja"@,
        "ru"@ != "zh"@,
        "ru"@ != "ko"@,
        "ru"@ != "zero"@,
        "ru"@ != "one"@,
        "ru"@ != "two"@,
        "ru"@ != "few"@,
        "ru"@ != "many"@,
        "ru"@ != "other"@,
        "uk"@ != "pl"@,
        "uk"@ != "cs"@,
        "uk"@ != "ar"@,
        "uk"@ != "ja"@,
        "uk"@ != "zh"@,
        "uk"@ != "ko"@,
        "uk"@ != "zero"@,
        "uk"@ != "one"@,
        "uk"@ != "two"@,
        "uk"@ != "few"@,
        "uk"@ != "many"@,
        "uk"@ != "other"@,
        "pl"@ != "cs"@,
        "pl"@ != "ar"@,
        "pl"@ != "ja"@,
        "pl"@ != "zh"@,
        "pl"@ != "ko"@,
        "pl"@ != "zero"@,
        "pl"@ != "one"@,
        "pl"@ != "two"@,
        "pl"@ != "few"@,
        "pl"@ != "many"@,
        "pl"@ != "other"@,
        "cs"@ != "ar"@,
        "cs"@ != "ja"@,
        "cs"@ != "zh"@,
        "cs"@ != "ko"@,
        "cs"@ != "zero"@,
        "cs"@ != "one"@,
        "cs"@ != "two"@,
        "cs"@ != "few"@,
        "cs"@ != "many"@,
        "cs"@ != "other"@,
        "ar"@ != "ja"@,
        "ar"@ != "zh"@,
        "ar"@ != "ko"@,
        "ar"@ != "zero"@,
        "ar"@ != "one"@,
        "ar"@ != "two"@,
        "ar"@ != "few"@,
        "ar"@ != "many"@,
        "ar"@ != "other"@,
        "ja"@ != "zh"@,
        "ja"@ != "ko"@,
        "ja"@ != "zero"@,
        "ja"@ != "one"@,
        "ja"@ != "two"@,
        "ja"@ != "few"@,
        "ja"@ != "many"@,
        "ja"@ != "other"@,
        "zh"@ != "ko"@,
        "zh"@ != "zero"@,
        "zh"@ != "one"@,
        "zh"@ != "two"@,
        "zh"@ != "few"@,
        "zh"@ != "many"@,
        "zh"@ != "other"@,
        "ko"@ != "zero"@,
        "ko"@ != "one"@,
        "ko"@ != "two"@,
        "ko"@ != "few"@,
        "ko"@ != "many"@,
        "ko"@ != "other"@,
        "zero"@ != "one"@,
        "zero"@ != "two"@,
        "zero"@ != "few"@,
        "zero"@ != "many"@,
        "zero"@ != "other"@,
        "one"@ != "two"@,
        "one"@ != "few"@,
        "one"@ != "many"@,
        "one"@ != "other"@,
        "two"@ != "few"@,
        "two"@ != "many"@,
        "two"@ != "other"@,
        "few"@ != "many"@,
        "few"@ != "other"@,
        "many"@ != "other"@,
        first_dash("en"@) is None,
        first_dash("de"@) is None,
        first_dash("nl"@) is None,
        first_dash("sv"@) is None,
        first_dash("it"@) is None,
        first_dash("es"@) is None,
        first_dash("fr"@) is None,
        first_dash("pt"@) is None,
        first_dash("ru"@) is None,
        first_dash("uk"@) is None,
        first_dash("pl"@) is None,
        first_dash("cs"@) is None,
        first_dash("ar"@) is None,
        first_dash("ja"@) is None,
        first_dash("zh"@) is None,
        first_dash("ko"@) is None,
{
    reveal_strlit("en");
    reveal_strlit("de");
    reveal_strlit("nl");
    reveal_strlit("sv");
    reveal_strlit("it");
    reveal_strlit("es");
    reveal_strlit("fr");
    reveal_strlit("pt");
    reveal_strlit("ru");
    reveal_strlit("uk");
    reveal_strlit("pl");
    reveal_strlit("cs");
    reveal_strlit("ar");
    reveal_strlit("ja");
    reveal_strlit("zh");
    reveal_strlit("ko");
    reveal_strlit("zero");
    reveal_strlit("one");
    reveal_strlit("two");
    reveal_strlit("few");
    reveal_strlit("many");
    reveal_strlit("other");
    assert("en"@[0] != "de"@[0]);
    assert("en"@[0] != "nl"@[0]);
    assert("en"@[0] != "sv"@[0]);
    assert("en"@[0] != "it"@[0]);
    assert("en"@[1] != "es"@[1]);
    assert("en"@[0] != "fr"@[0]);
    assert("en"@[0] != "pt"@[0]);
    assert("en"@[0] != "ru"@[0]);
    assert("en"@[0] != "uk"@[0]);
    assert("en"@[0] != "pl"@[0]);
    assert("en"@[0] != "cs"@[0]);
    assert("en"@[0] != "ar"@[0]);
    assert("en"@[0] != "ja"@[0]);
    assert("en"@[0] != "zh"@[0]);
    assert("en"@[0] != "ko"@[0]);
    assert("en"@[0] != "zero"@[0]);
    assert("en"@[0] != "one"@[0]);
    assert("en"@[0] != "two"@[0]);
    assert("en"@[0] != "few"@[0]);
    assert("en"@[0] != "many"@[0]);
    assert("en"@[0] != "other"@[0]);
    assert("de"@[0] != "nl"@[0]);
    assert("de"@[0] != "sv"@[0]);
    assert("de"@[0] != "it"@[0]);
    assert("de"@[0] != "es"@[0]);
    assert("de"@[0] != "fr"@[0]);
    assert("de"@[0] != "pt"@[0]);
    assert("de"@[0] != "ru"@[0]);
    assert("de"@[0] != "uk"@[0]);
    assert("de"@[0] != "pl"@[0]);
    assert("de"@[0] != "cs"@[0]);
    assert("de"@[0] != "ar"@[0]);
    assert("de"@[0] != "ja"@[0]);
    assert("de"@[0] != "zh"@[0]);
    assert("de"@[0] != "ko"@[0]);
    assert("de"@[0] != "zero"@[0]);
    assert("de"@[0] != "one"@[0]);
    assert("de"@[0] != "two"@[0]);
    assert("de"@[0] != "few"@[0]);
    assert("de"@[0] != "many"@[0]);
    assert("de"@[0] != "other"@[0]);
    assert("nl"@[0] != "sv"@[0]);
    assert("nl"@[0] != "it"@[0]);
    assert("nl"@[0] != "es"@[0]);
    assert("nl"@[0] != "fr"@[0]);
    assert("nl"@[0] != "pt"@[0]);
    assert("nl"@[0] != "ru"@[0]);
    assert("nl"@[0] != "uk"@[0]);
    assert("nl"@[0] != "pl"@[0]);
    assert("nl"@[0] != "cs"@[0]);
    assert("nl"@[0] != "ar"@[0]);
    assert("nl"@[0] != "ja"@[0]);
    assert("nl"@[0] != "zh"@[0]);
    assert("nl"@[0] != "ko"@[0]);
    assert("nl"@[0] != "zero"@[0]);
    assert("nl"@[0] != "one"@[0]);
    assert("nl"@[0] != "two"@[0]);
    assert("nl"@[0] != "few"@[0]);
    assert("nl"@[0] != "many"@[0]);
    assert("nl"@[0] != "other"@[0]);
    assert("sv"@[0] != "it"@[0]);
    assert("sv"@[0] != "es"@[0]);
    assert("sv"@[0] != "fr"@[0]);
    assert("sv"@[0] != "pt"@[0]);
    assert("sv"@[0] != "ru"@[0]);
    assert("sv"@[0] != "uk"@[0]);
    assert("sv"@[0] != "pl"@[0]);
    assert("sv"@[0] != "cs"@[0]);
    assert("sv"@[0] != "ar"@[0]);
    assert("sv"@[0] != "ja"@[0]);
    assert("sv"@[0] != "zh"@[0]);
    assert("sv"@[0] != "ko"@[0]);
    assert("sv"@[0] != "zero"@[0]);
    assert("sv"@[0] != "one"@[0]);
    assert("sv"@[0] != "two"@[0]);
    assert("sv"@[0] != "few"@[0]);
    assert("sv"@[0] != "many"@[0]);
    assert("sv"@[0] != "other"@[0]);
    assert("it"@[0] != "es"@[0]);
    assert("it"@[0] != "fr"@[0]);
    assert("it"@[0] != "pt"@[0]);
    assert("it"@[0] != "ru"@[0]);
    assert("it"@[0] != "uk"@[0]);
    assert("it"@[0] != "pl"@[0]);
    assert("it"@[0] != "cs"@[0]);
    assert("it"@[0] != "ar"@[0]);
    assert("it"@[0] != "ja"@[0]);
    assert("it"@[0] != "zh"@[0]);
    assert("it"@[0] != "ko"@[0]);
    assert("it"@[0] != "zero"@[0]);
    assert("it"@[0] != "one"@[0]);
    assert("it"@[0] != "two"@[0]);
    assert("it"@[0] != "few"@[0]);
    assert("it"@[0] != "many"@[0]);
    assert("it"@[0] != "other"@[0]);
    assert("es"@[0] != "fr"@[0]);
    assert("es"@[0] != "pt"@[0]);
    assert("es"@[0] != "ru"@[0]);
    assert("es"@[0] != "uk"@[0]);
    assert("es"@[0] != "pl"@[0]);
    assert("es"@[0] != "cs"@[0]);
    assert("es"@[0] != "ar"@[0]);
    assert("es"@[0] != "ja"@[0]);
    assert("es"@[0] != "zh"@[0]);
    assert("es"@[0] != "ko"@[0]);
    assert("es"@[0] != "zero"@[0]);
    assert("es"@[0] != "one"@[0]);
    assert("es"@[0] != "two"@[0]);
    assert("es"@[0] != "few"@[0]);
    assert("es"@[0] != "many"@[0]);
    assert("es"@[0] != "other"@[0]);
    assert("fr"@[0] != "pt"@[0]);
    assert("fr"@[0] != "ru"@[0]);
    assert("fr"@[0] != "uk"@[0]);
    assert("fr"@[0] != "pl"@[0]);
    assert("fr"@[0] != "cs"@[0]);
    assert("fr"@[0] != "ar"@[0]);
    assert("fr"@[0] != "ja"@[0]);
    assert("fr"@[0] != "zh"@[0]);
    assert("fr"@[0] != "ko"@[0]);
    assert("fr"@[0] != "zero"@[0]);
    assert("fr"@[0] != "one"@[0]);
    assert("fr"@[0] != "two"@[0]);
    assert("fr"@[1] != "few"@[1]);
    assert("fr"@[0] != "many"@[0]);
    assert("fr"@[0] != "other"@[0]);
    assert("pt"@[0] != "ru"@[0]);
    assert("pt"@[0] != "uk"@[0]);
    assert("pt"@[1] != "pl"@[1]);
    assert("pt"@[0] != "cs"@[0]);
    assert("pt"@[0] != "ar"@[0]);
    assert("pt"@[0] != "ja"@[0]);
    assert("pt"@[0] != "zh"@[0]);
    assert("pt"@[0] != "ko"@[0]);
    assert("pt"@[0] != "zero"@[0]);
    assert("pt"@[0] != "one"@[0]);
    assert("pt"@[0] != "two"@[0]);
    assert("pt"@[0] != "few"@[0]);
    assert("pt"@[0] != "many"@[0]);
    assert("pt"@[0] != "other"@[0]);
    assert("ru"@[0] != "uk"@[0]);
    assert("ru"@[0] != "pl"@[0]);
    assert("ru"@[0] != "cs"@[0]);
    assert("ru"@[0] != "ar"@[0]);
    assert("ru"@[0] != "ja"@[0]);
    assert("ru"@[0] != "zh"@[0]);
    assert("ru"@[0] != "ko"@[0]);
    assert("ru"@[0] != "zero"@[0]);
    assert("ru"@[0] != "one"@[0]);
    assert("ru"@[0] != "two"@[0]);
    assert("ru"@[0] != "few"@[0]);
    assert("ru"@[0] != "many"@[0]);
    assert("ru"@[0] != "other"@[0]);
    assert("uk"@[0] != "pl"@[0]);
    assert("uk"@[0] != "cs"@[0]);
    assert("uk"@[0] != "ar"@[0]);
    assert("uk"@[0] != "ja"@[0]);
    assert("uk"@[0] != "zh"@[0]);
    assert("uk"@[0] != "ko"@[0]);
    assert("uk"@[0] != "zero"@[0]);
    assert("uk"@[0] != "one"@[0]);
    assert("uk"@[0] != "two"@[0]);
    assert("uk"@[0] != "few"@[0]);
    assert("uk"@[0] != "many"@[0]);
    assert("uk"@[0] != "other"@[0]);
    assert("pl"@[0] != "cs"@[0]);
    assert("pl"@[0] != "ar"@[0]);
    assert("pl"@[0] != "ja"@[0]);
    assert("pl"@[0] != "zh"@[0]);
    assert("pl"@[0] != "ko"@[0]);
    assert("pl"@[0] != "zero"@[0]);
    assert("pl"@[0] != "one"@[0]);
    assert("pl"@[0] != "two"@[0]);
    assert("pl"@[0] != "few"@[0]);
    assert("pl"@[0] != "many"@[0]);
    assert("pl"@[0] != "other"@[0]);
    assert("cs"@[0] != "ar"@[0]);
    assert("cs"@[0] != "ja"@[0]);
    assert("cs"@[0] != "zh"@[0]);
    assert("cs"@[0] != "ko"@[0]);
    assert("cs"@[0] != "zero"@[0]);
    assert("cs"@[0] != "one"@[0]);
    assert("cs"@[0] != "two"@[0]);
    assert("cs"@[0] != "few"@[0]);
    assert("cs"@[0] != "many"@[0]);
    assert("cs"@[0] != "other"@[0]);
    assert("ar"@[0] != "ja"@[0]);
    assert("ar"@[0] != "zh"@[0]);
    assert("ar"@[0] != "ko"@[0]);
    assert("ar"@[0] != "zero"@[0]);
    assert("ar"@[0] != "one"@[0]);
    assert("ar"@[0] != "two"@[0]);
    assert("ar"@[0] != "few"@[0]);
    assert("ar"@[0] != "many"@[0]);
    assert("ar"@[0] != "other"@[0]);
    assert("ja"@[0] != "zh"@[0]);
    assert("ja"@[0] != "ko"@[0]);
    assert("ja"@[0] != "zero"@[0]);
    assert("ja"@[0] != "one"@[0]);
    assert("ja"@[0] != "two"@[0]);
    assert("ja"@[0] != "few"@[0]);
    assert("ja"@[0] != "many"@[0]);
    assert("ja"@[0] != "other"@[0]);
    assert("zh"@[0] != "ko"@[0]);
    assert("zh"@[1] != "zero"@[1]);
    assert("zh"@[0] != "one"@[0]);
    assert("zh"@[0] != "two"@[0]);
    assert("zh"@[0] != "few"@[0]);
    assert("zh"@[0] != "many"@[0]);
    assert("zh"@[0] != "other"@[0]);
    assert("ko"@[0] != "zero"@[0]);
    assert("ko"@[0] != "one"@[0]);
    assert("ko"@[0] != "two"@[0]);
    assert("ko"@[0] != "few"@[0]);
    assert("ko"@[0] != "many"@[0]);
    assert("ko"@[0] != "other"@[0]);
    assert("zero"@[0] != "one"@[0]);
    assert("zero"@[0] != "two"@[0]);
    assert("zero"@[0] != "few"@[0]);
    assert("zero"@[0] != "many"@[0]);
    assert("zero"@[0] != "other"@[0]);
    assert("one"@[0] != "two"@[0]);
    assert("one"@[0] != "few"@[0]);
    assert("one"@[0] != "many"@[0]);
    assert("one"@[1] != "other"@[1]);
    assert("two"@[0] != "few"@[0]);
    assert("two"@[0] != "many"@[0]);
    assert("two"@[0] != "other"@[0]);
    assert("few"@[0] != "many"@[0]);
    assert("few"@[0] != "other"@[0]);
    assert("many"@[0] != "other"@[0]);
    reveal_with_fuel(first_dash, 3);
}

proof fn lemma_rules_en_group(lang: Seq<char>, cat: Seq<char>)
    requires
        lang == "en"@ || lang == "de"@ || lang == "nl"@ || lang == "sv"@,
        cat != "other"@,
    ensures
        rule_sound(lang, cat),
{
    lemma_literals_distinct();
    reveal_with_fuel(find_rule, 6);
    assert forall|n: nat| #[trigger] cldr_category(lang, n) == cldr_one_only(n) by {}
    lemma_text_n_eq1();
    if cat == "one"@ {
        assert(plural_rule_spec(lang, cat) == Some(guard_text(g_n_eq(1))));
        assert forall|n: nat| guard_holds(g_n_eq(1), n) <==> cldr_category(lang, n) == cat by {
            reveal_with_fuel(guard_holds, 6);
            assert(cldr_category(lang, n) == cldr_one_only(n));
        }
    } else {
        assert(plural_rule_spec(lang, cat) is None);
        assert forall|n: nat| cldr_category(lang, n) != cat by {
            assert(cldr_category(lang, n) == cldr_one_only(n));
        }
    }
}

proof fn lemma_rules_it_group(lang: Seq<char>, cat: Seq<char>)
    requires
        lang == "it"@ || lang == "es"@,
        cat != "other"@,
    ensures
        rule_sound(lang, cat),
{
    lemma_literals_distinct();
    reveal_with_fuel(find_rule, 6);
    assert forall|n: nat| #[trigger] cldr_category(lang, n) == cldr_it(n) by {}
    lemma_text_n_eq1();
    lemma_text_romance_many();
    if cat == "one"@ {
        assert(plural_rule_spec(lang, cat) == Some(guard_text(g_n_eq(1))));
        assert forall|n: nat| guard_holds(g_n_eq(1), n) <==> cldr_category(lang, n) == cat by {
            reveal_with_fuel(guard_holds, 6);
            assert(cldr_category(lang, n) == cldr_it(n));
        }
    } else if cat == "many"@ {
        assert(plural_rule_spec(lang, cat) == Some(guard_text(g_romance_many())));
        assert forall|n: nat| guard_holds(g_romance_many(), n) <==> cldr_category(lang, n) == cat by {
            reveal_with_fuel(guard_holds, 6);
            assert(cldr_category(lang, n) == cldr_it(n));
        }
    } else {
        assert(plural_rule_spec(lang, cat) is None);
        assert forall|n: nat| cldr_category(lang, n) != cat by {
            assert(cldr_category(lang, n) == cldr_it(n));
        }
    }
}

proof fn lemma_rules_fr_group(lang: Seq<char>, cat: Seq<char>)
    requires
        lang == "fr"@ || lang == "pt"@,
        cat != "other"@,
    ensures
        rule_sound(lang, cat),
{
    lemma_literals_distinct();
    reveal_with_fuel(find_rule, 6);
    assert forall|n: nat| #[trigger] cldr_category(lang, n) == cldr_fr(n) by {}
    lemma_text_zero_or_one();
    lemma_text_romance_many();
    if cat == "one"@ {
        assert(plural_rule_spec(lang, cat) == Some(guard_text(g_zero_or_one())));
        assert forall|n: nat| guard_holds(g_zero_or_one(), n) <==> cldr_category(lang, n) == cat by {
            reveal_with_fuel(guard_holds, 6);
            assert(cldr_category(lang, n) == cldr_fr(n));
        }
    } else if cat == "many"@ {
        assert(plural_rule_spec(lang, cat) == Some(guard_text(g_romance_many())));
        assert forall|n: nat| guard_holds(g_romance_many(), n) <==> cldr_category(lang, n) == cat by {
            reveal_with_fuel(guard_holds, 6);
            assert(cldr_category(lang, n) == cldr_fr(n));
        }
    } else {
        assert(plural_rule_spec(lang, cat) is None);
        assert forall|n: nat| cldr_category(lang, n) != cat by {
            assert(cldr_category(lang, n) == cldr_fr(n));
        }
    }
}

proof fn lemma_rules_ru_group(lang: Seq<char>, cat: Seq<char>)
    requires
        lang == "ru"@ || lang == "uk"@,
        cat != "other"@,
    ensures
        rule_sound(lang, cat),
{
    lemma_literals_distinct();
    reveal_with_fuel(find_rule, 6);
    assert forall|n: nat| #[trigger] cldr_category(lang, n) == cldr_ru(n) by {}
    lemma_text_ru_one();
    lemma_text_slavic_few();
    lemma_text_ru_many();
    if cat == "one"@ {
        assert(plural_rule_spec(lang, cat) == Some(guard_text(g_ru_one())));
        assert forall|n: nat| guard_holds(g_ru_one(), n) <==> cldr_category(lang, n) == cat by {
            reveal_with_fuel(guard_holds, 6);
            assert(cldr_category(lang, n) == cldr_ru(n));
        }
    } else if cat == "few"@ {
        assert(plural_rule_spec(lang, cat) == Some(guard_text(g_slavic_few())));
        assert forall|n: nat| guard_holds(g_slavic_few(), n) <==> cldr_category(lang, n) == cat by {
            reveal_with_fuel(guard_holds, 6);
            assert(cldr_category(lang, n) == cldr_ru(n));
        }
    } else if cat == "many"@ {
        assert(plural_rule_spec(lang, cat) == Some(guard_text(g_ru_many())));
        assert forall|n: nat| guard_holds(g_ru_many(), n) <==> cldr_category(lang, n) == cat by {
            reveal_with_fuel(guard_holds, 6);
            assert(cldr_category(lang, n) == cldr_ru(n));
        }
    } else {
        assert(plural_rule_spec(lang, cat) is None);
        assert forall|n: nat| cldr_category(lang, n) != cat by {
            assert(cldr_category(lang, n) == cldr_ru(n));
        }
    }
}

proof fn lemma_rules_pl_group(lang: Seq<char>, cat: Seq<char>)
    requires
        lang == "pl"@,
        cat != "other"@,
    ensures
        rule_sound(lang, cat),
{
    lemma_literals_distinct();
    reveal_with_fuel(find_rule, 6);
    assert forall|n: nat| #[trigger] cldr_category(lang, n) == cldr_pl(n) by {}
    lemma_text_n_eq1();
    lemma_text_slavic_few();
    lemma_text_pl_many();
    if cat == "one"@ {
        assert(plural_rule_spec(lang, cat) == Some(guard_text(g_n_eq(1))));
        assert forall|n: nat| guard_holds(g_n_eq(1), n) <==> cldr_category(lang, n) == cat by {
            reveal_with_fuel(guard_holds, 6);
            assert(cldr_category(lang, n) == cldr_pl(n));
        }
    } else if cat == "few"@ {
        assert(plural_rule_spec(lang, cat) == Some(guard_text(g_slavic_few())));
        assert forall|n: nat| guard_holds(g_slavic_few(), n) <==> cldr_category(lang, n) == cat by {
            reveal_with_fuel(guard_holds, 6);
            assert(cldr_category(lang, n) == cldr_pl(n));
        }
    } else if cat == "many"@ {
        assert(plural_rule_spec(lang, cat) == Some(guard_text(g_pl_many())));
        assert forall|n: nat| guard_holds(g_pl_many(), n) <==> cldr_category(lang, n) == cat by {
            reveal_with_fuel(guard_holds, 6);
            assert(cldr_category(lang, n) == cldr_pl(n));
        }
    } else {
        assert(plural_rule_spec(lang, cat) is None);
        assert forall|n: nat| cldr_category(lang, n) != cat by {
            assert(cldr_category(lang, n) == cldr_pl(n));
        }
    }
}

proof fn lemma_rules_cs_group(lang: Seq<char>, cat: Seq<char>)
    requires
        lang == "cs"@,
        cat != "other"@,
    ensures
        rule_sound(lang, cat),
{
    lemma_literals_distinct();
    reveal_with_fuel(find_rule, 6);
    assert forall|n: nat| #[trigger] cldr_category(lang, n) == cldr_cs(n) by {}
    lemma_text_n_eq1();
    lemma_text_cs_few();
    if cat == "one"@ {
        assert(plural_rule_spec(lang, cat) == Some(guard_text(g_n_eq(1))));
        assert forall|n: nat| guard_holds(g_n_eq(1), n) <==> cldr_category(lang, n) == cat by {
            reveal_with_fuel(guard_holds, 6);
            assert(cldr_category(lang, n) == cldr_cs(n));
        }
    } else if cat == "few"@ {
        assert(plural_rule_spec(lang, cat) == Some(guard_text(g_cs_few())));
        assert forall|n: nat| guard_holds(g_cs_few(), n) <==> cldr_category(lang, n) == cat by {
            reveal_with_fuel(guard_holds, 6);
            assert(cldr_category(lang, n) == cldr_cs(n));
        }
    } else {
        assert(plural_rule_spec(lang, cat) is None);
        assert forall|n: nat| cldr_category(lang, n) != cat by {
            assert(cldr_category(lang, n) == cldr_cs(n));
        }
    }
}

proof fn lemma_rules_ar_group(lang: Seq<char>, cat: Seq<char>)
    requires
        lang == "ar"@,
        cat != "other"@,
    ensures
        rule_sound(lang, cat),
{
    lemma_literals_distinct();
    reveal_with_fuel(find_rule, 6);
    assert forall|n: nat| #[trigger] cldr_category(lang, n) == cldr_ar(n) by {}
    lemma_text_n_eq0();
    lemma_text_n_eq1();
    lemma_text_n_eq2();
    lemma_text_ar_few();
    lemma_text_ar_many();
    if cat == "zero"@ {
        assert(plural_rule_spec(lang, cat) == Some(guard_text(g_n_eq(0))));
        assert forall|n: nat| guard_holds(g_n_eq(0), n) <==> cldr_category(lang, n) == cat by {
            reveal_with_fuel(guard_holds, 6);
            assert(cldr_category(lang, n) == cldr_ar(n));
        }
    } else if cat == "one"@ {
        assert(plural_rule_spec(lang, cat) == Some(guard_text(g_n_eq(1))));
        assert forall|n: nat| guard_holds(g_n_eq(1), n) <==> cldr_category(lang, n) == cat by {
            reveal_with_fuel(guard_holds, 6);
            assert(cldr_category(lang, n) == cldr_ar(n));
        }
    } else if cat == "two"@ {
        assert(plural_rule_spec(lang, cat) == Some(guard_text(g_n_eq(2))));
        assert forall|n: nat| guard_holds(g_n_eq(2), n) <==> cldr_category(lang, n) == cat by {
            reveal_with_fuel(guard_holds, 6);
            assert(cldr_category(lang, n) == cldr_ar(n));
        }
    } else if cat == "few"@ {
        assert(plural_rule_spec(lang, cat) == Some(guard_text(g_ar_few())));
        assert forall|n: nat| guard_holds(g_ar_few(), n) <==> cldr_category(lang, n) == cat by {
            reveal_with_fuel(guard_holds, 6);
            assert(cldr_category(lang, n) == cldr_ar(n));
        }
    } else if cat == "many"@ {
        assert(plural_rule_spec(lang, cat) == Some(guard_text(g_ar_many())));
        assert forall|n: nat| guard_holds(g_ar_many(), n) <==> cldr_category(lang, n) == cat by {
            reveal_with_fuel(guard_holds, 6);
            assert(cldr_category(lang, n) == cldr_ar(n));
        }
    } else {
        assert(plural_rule_spec(lang, cat) is None);
        assert forall|n: nat| cldr_category(lang, n) != cat by {
            assert(cldr_category(lang, n) == cldr_ar(n));
        }
    }
}

proof fn lemma_rules_cjk_group(lang: Seq<char>, cat: Seq<char>)
    requires
        lang == "ja"@ || lang == "zh"@ || lang == "ko"@,
        cat != "other"@,
    ensures
        rule_sound(lang, cat),
{
    lemma_literals_distinct();
    reveal_with_fuel(find_rule, 6);
    assert forall|n: nat| #[trigger] cldr_category(lang, n) == "other"@ by {}
    assert(plural_rule_spec(lang, cat) is None);
}

/// Every plural rule means its CLDR category: for each language with a
/// rule table and each category other than `other`, the rule is the text of
/// a guard that holds for exactly the integers CLDR puts in that category,
/// and a category without a rule holds no integer. In Russian, for
/// instance, the `one` guard is false at 11, 111 and 211.
pub proof fn lemma_plural_rules_follow_cldr(lang: Seq<char>, cat: Seq<char>)
    requires
        plural_table(lang) is Some,
        cat != "other"@,
    ensures
        rule_sound(lang, cat),
{
    lemma_literals_distinct();
    if lang == "en"@ || lang == "de"@ || lang == "nl"@ || lang == "sv"@ {
        lemma_rules_en_group(lang, cat);
    } else if lang == "it"@ || lang == "es"@ {
        lemma_rules_it_group(lang, cat);
    } else if lang == "fr"@ || lang == "pt"@ {
        lemma_rules_fr_group(lang, cat);
    } else if lang == "ru"@ || lang == "uk"@ {
        lemma_rules_ru_group(lang, cat);
    } else if lang == "pl"@ {
        lemma_rules_pl_group(lang, cat);
    } else if lang == "cs"@ {
        lemma_rules_cs_group(lang, cat);
    } else if lang == "ar"@ {
        lemma_rules_ar_group(lang, cat);
    } else if lang == "ja"@ || lang == "zh"@ || lang == "ko"@ {
        lemma_rules_cjk_group(lang, cat);
    }
}


/// Where a language has no rule for `zero`, `one` or `two`, the fallback
/// guard holds for exactly 0, 1 or 2; other categories get none.
pub proof fn lemma_fallback_rules_exact(cat: Seq<char>)
    ensures
        fallback_rule(cat) matches Some(r) ==> exists|g: Guard| guard_wf(g) && #[trigger] guard_text(g) == r
            && forall|n: nat| guard_holds(g, n) <==> (
                (cat == "zero"@ && n == 0) || (cat == "one"@ && n == 1) || (cat == "two"@ && n == 2)),
        fallback_rule(cat) is None <==> (cat != "zero"@ && cat != "one"@ && cat != "two"@),
{
    lemma_literals_distinct();
    lemma_text_n_eq0();
    lemma_text_n_eq1();
    lemma_text_n_eq2();
    reveal_with_fuel(guard_holds, 2);
    if cat == "zero"@ {
        assert(guard_text(g_n_eq(0)) == "n == 0"@);
    } else if cat == "one"@ {
        assert(guard_text(g_n_eq(1)) == "n == 1"@);
    } else if cat == "two"@ {
        assert(guard_text(g_n_eq(2)) == "n == 2"@);
    }
}

}
