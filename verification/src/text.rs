//! Character-sequence utilities used throughout the generator, with their
//! specifications over `Seq<char>`.
use vstd::prelude::*;
use vstd::string::*;

verus! {

// ---------------------------------------------------------------------
// Specifications
// ---------------------------------------------------------------------

/// The model of a `Result` of strings.
pub open spec fn str_result(r: Result<String, String>) -> Result<Seq<char>, Seq<char>> {
    match r {
        Ok(s) => Ok(s@),
        Err(e) => Err(e@),
    }
}

/// Lexicographic order on character sequences (by code point); this is the
/// order in which `BTreeMap<String, _>` walks its keys.
pub open spec fn seq_less(a: Seq<char>, b: Seq<char>) -> bool
    decreases a.len(),
{
    if b.len() == 0 {
        false
    } else if a.len() == 0 {
        true
    } else if a[0] != b[0] {
        a[0] < b[0]
    } else {
        seq_less(a.drop_first(), b.drop_first())
    }
}

/// `seq_less` is irreflexive.
pub proof fn lemma_seq_less_irreflexive(a: Seq<char>)
    ensures
        !seq_less(a, a),
    decreases a.len(),
{
    if a.len() > 0 {
        lemma_seq_less_irreflexive(a.drop_first());
    }
}

/// `seq_less` is transitive.
pub proof fn lemma_seq_less_transitive(a: Seq<char>, b: Seq<char>, c: Seq<char>)
    requires
        seq_less(a, b),
        seq_less(b, c),
    ensures
        seq_less(a, c),
    decreases a.len(),
{
    if a.len() > 0 && a[0] == b[0] && b[0] == c[0] {
        lemma_seq_less_transitive(a.drop_first(), b.drop_first(), c.drop_first());
    }
}

/// Two different sequences are ordered one way or the other.
pub proof fn lemma_seq_less_total(a: Seq<char>, b: Seq<char>)
    requires
        a != b,
    ensures
        seq_less(a, b) || seq_less(b, a),
    decreases a.len(),
{
    if a.len() > 0 && b.len() > 0 && a[0] == b[0] {
        if a.drop_first() == b.drop_first() {
            assert(a =~= seq![a[0]] + a.drop_first());
            assert(b =~= seq![b[0]] + b.drop_first());
        }
        lemma_seq_less_total(a.drop_first(), b.drop_first());
    } else if a.len() == 0 && b.len() == 0 {
        assert(a =~= b);
    }
}

/// The decimal digit character for `d < 10`.
pub open spec fn digit_char(d: nat) -> char {
    if d == 0 { '0' }
    else if d == 1 { '1' }
    else if d == 2 { '2' }
    else if d == 3 { '3' }
    else if d == 4 { '4' }
    else if d == 5 { '5' }
    else if d == 6 { '6' }
    else if d == 7 { '7' }
    else if d == 8 { '8' }
    else { '9' }
}

/// Decimal rendering of a natural number, as `usize::to_string` prints it.
pub open spec fn dec_str(n: nat) -> Seq<char>
    decreases n,
{
    if n < 10 {
        seq![digit_char(n)]
    } else {
        dec_str(n / 10).push(digit_char(n % 10))
    }
}

/// Replaces every non-overlapping occurrence of `pat` (scanning left to
/// right) by `rep`, as `str::replace` does for a non-empty pattern.
pub open spec fn replace_all(s: Seq<char>, pat: Seq<char>, rep: Seq<char>) -> Seq<char>
    decreases s.len(),
{
    if pat.len() == 0 || s.len() < pat.len() {
        s
    } else if s.subrange(0, pat.len() as int) == pat {
        rep + replace_all(s.skip(pat.len() as int), pat, rep)
    } else {
        seq![s[0]] + replace_all(s.skip(1), pat, rep)
    }
}

/// Replacing every `c` by `r` leaves no `c` behind, brings in `r` only where
/// a `c` was, and keeps every other character.
pub proof fn lemma_replace_char_contains(s: Seq<char>, c: char, r: char, x: char)
    requires
        c != r,
    ensures
        replace_all(s, seq![c], seq![r]).contains(x) <==> (x != c && s.contains(x)) || (x == r && s.contains(c)),
    decreases s.len(),
{
    if s.len() > 0 {
        let t = s.skip(1);
        lemma_replace_char_contains(t, c, r, x);
        let rest = replace_all(t, seq![c], seq![r]);
        let head = if s[0] == c { r } else { s[0] };
        assert(s.subrange(0, 1) =~= seq![s[0]]);
        assert(replace_all(s, seq![c], seq![r]) =~= seq![head] + rest);
        assert((seq![head] + rest).contains(x) <==> head == x || rest.contains(x)) by {
            if rest.contains(x) {
                let i = choose|i: int| 0 <= i < rest.len() && rest[i] == x;
                assert((seq![head] + rest)[i + 1] == x);
            }
            if (seq![head] + rest).contains(x) {
                let i = choose|i: int| 0 <= i < (seq![head] + rest).len() && (seq![head] + rest)[i] == x;
                if i > 0 {
                    assert(rest[i - 1] == x);
                }
            }
            if head == x {
                assert((seq![head] + rest)[0] == x);
            }
        }
        assert forall|y: char| s.contains(y) <==> (s[0] == y || t.contains(y)) by {
            if t.contains(y) {
                let i = choose|i: int| 0 <= i < t.len() && t[i] == y;
                assert(s[i + 1] == y);
            }
            if s.contains(y) {
                let i = choose|i: int| 0 <= i < s.len() && s[i] == y;
                if i > 0 {
                    assert(t[i - 1] == y);
                }
            }
        }
    }
}

/// `s` contains `pat` as a contiguous subsequence.
pub open spec fn seq_contains(s: Seq<char>, pat: Seq<char>) -> bool {
    exists|i: int| 0 <= i && i + pat.len() <= s.len() && #[trigger] s.subrange(i, i + pat.len()) == pat
}

/// ASCII lower-casing of one character (`char::to_ascii_lowercase`).
pub open spec fn ascii_lower(c: char) -> char {
    if 'A' <= c && c <= 'Z' { ((c as u32) + 32) as char } else { c }
}

/// ASCII upper-casing of one character (`char::to_ascii_uppercase`).
pub open spec fn ascii_upper(c: char) -> char {
    if 'a' <= c && c <= 'z' { ((c as u32) - 32) as char } else { c }
}

/// ASCII case-insensitive equality (`str::eq_ignore_ascii_case`).
pub open spec fn eq_ignore_ascii_case(a: Seq<char>, b: Seq<char>) -> bool {
    a.len() == b.len() && forall|i: int| 0 <= i < a.len() ==> ascii_lower(#[trigger] a[i]) == ascii_lower(b[i])
}

/// Lower-cased form of a string per `str::to_lowercase` (Unicode rules).
pub uninterp spec fn unicode_lower(s: Seq<char>) -> Seq<char>;

/// Upper-cased form of a string per `str::to_uppercase` (Unicode rules).
pub uninterp spec fn unicode_upper(s: Seq<char>) -> Seq<char>;

/// Characters produced by `char::to_uppercase`.
pub uninterp spec fn char_upper(c: char) -> Seq<char>;

/// Characters produced by `char::to_lowercase`.
pub uninterp spec fn char_lower(c: char) -> Seq<char>;

/// The `Debug` rendering of a string: quoted, with `char::escape_debug`
/// escapes.
pub uninterp spec fn str_debug(s: Seq<char>) -> Seq<char>;

/// The characters of `s` in order.
pub(crate) fn chars_of(s: &str) -> (res: Vec<char>)
    ensures
        res@ == s@,
{
    let n = s.unicode_len();
    let mut out: Vec<char> = Vec::new();
    let mut i: usize = 0;
    while i < n
        invariant
            n == s@.len(),
            i <= n,
            out@ == s@.subrange(0, i as int),
        decreases n - i,
    {
        let c = s.get_char(i);
        out.push(c);
        i += 1;
        assert(out@ =~= s@.subrange(0, i as int));
    }
    assert(out@ =~= s@);
    out
}

// ---------------------------------------------------------------------
// Calls into std that vstd leaves unspecified
// ---------------------------------------------------------------------


/// `format!("{:?}", s)` on a string slice; the result is named by `str_debug`.
#[verifier::external_body]
pub(crate) fn debug_str(s: &str) -> (res: String)
    ensures
        res@ == str_debug(s@),
{
    format!("{:?}", s)
}

/// `String::push`: appends one character.
#[verifier::external_body]
pub(crate) fn push_char(s: &mut String, c: char)
    ensures
        final(s)@ == old(s)@.push(c),
{
    s.push(c)
}

/// `str::to_lowercase`; the result is named by `unicode_lower`.
#[verifier::external_body]
pub(crate) fn to_lowercase(s: &str) -> (res: String)
    ensures
        res@ == unicode_lower(s@),
{
    s.to_lowercase()
}

/// `str::to_uppercase`; the result is named by `unicode_upper`.
#[verifier::external_body]
pub(crate) fn to_uppercase(s: &str) -> (res: String)
    ensures
        res@ == unicode_upper(s@),
{
    s.to_uppercase()
}

/// `char::to_uppercase`, collected; the result is named by `char_upper`.
#[verifier::external_body]
pub(crate) fn char_to_uppercase(c: char) -> (res: String)
    ensures
        res@ == char_upper(c),
{
    c.to_uppercase().collect()
}

/// `char::to_lowercase`, collected; the result is named by `char_lower`.
#[verifier::external_body]
pub(crate) fn char_to_lowercase(c: char) -> (res: String)
    ensures
        res@ == char_lower(c),
{
    c.to_lowercase().collect()
}

// ---------------------------------------------------------------------
// Verified helpers
// ---------------------------------------------------------------------

/// A new `String` holding the characters of `s`.
pub fn string_of(s: &str) -> (res: String)
    ensures
        res@ == s@,
{
    s.to_owned()
}

/// Appends `t` to `s`.
pub fn push_str(s: &mut String, t: &str)
    ensures
        final(s)@ == old(s)@ + t@,
{
    s.append(t);
}

/// Equality of two strings by their characters.
pub fn str_eq(a: &str, b: &str) -> (res: bool)
    ensures
        res == (a@ == b@),
{
    let ac = chars_of(a);
    let bc = chars_of(b);
    if ac.len() != bc.len() {
        return false;
    }
    let mut i: usize = 0;
    while i < ac.len()
        invariant
            ac@ == a@,
            bc@ == b@,
            ac.len() == bc.len(),
            i <= ac.len(),
            forall|j: int| 0 <= j < i ==> ac@[j] == bc@[j],
        decreases ac.len() - i,
    {
        if ac[i] != bc[i] {
            return false;
        }
        i += 1;
    }
    assert(a@ =~= b@);
    true
}

proof fn lemma_seq_less_step(a: Seq<char>, b: Seq<char>, i: int)
    requires
        0 <= i <= a.len(),
        i <= b.len(),
        a.subrange(0, i) == b.subrange(0, i),
    ensures
        seq_less(a, b) == seq_less(a.skip(i), b.skip(i)),
    decreases i,
{
    if i > 0 {
        assert(a[0] == a.subrange(0, i)[0]);
        assert(b[0] == b.subrange(0, i)[0]);
        assert(a.drop_first().subrange(0, i - 1) =~= a.subrange(0, i).drop_first());
        assert(b.drop_first().subrange(0, i - 1) =~= b.subrange(0, i).drop_first());
        lemma_seq_less_step(a.drop_first(), b.drop_first(), i - 1);
        assert(a.drop_first().skip(i - 1) =~= a.skip(i));
        assert(b.drop_first().skip(i - 1) =~= b.skip(i));
    } else {
        assert(a.skip(0) =~= a);
        assert(b.skip(0) =~= b);
    }
}

/// Lexicographic comparison of two strings by code point.
pub fn str_less(a: &str, b: &str) -> (res: bool)
    ensures
        res == seq_less(a@, b@),
{
    let ac = chars_of(a);
    let bc = chars_of(b);
    let mut i: usize = 0;
    while i < ac.len() && i < bc.len()
        invariant
            ac@ == a@,
            bc@ == b@,
            i <= ac.len(),
            i <= bc.len(),
            a@.subrange(0, i as int) == b@.subrange(0, i as int),
        decreases ac.len() - i,
    {
        if ac[i] != bc[i] {
            proof {
                lemma_seq_less_step(a@, b@, i as int);
            }
            return ac[i] < bc[i];
        }
        assert(a@.subrange(0, i + 1) =~= a@.subrange(0, i as int).push(ac@[i as int]));
        assert(b@.subrange(0, i + 1) =~= b@.subrange(0, i as int).push(bc@[i as int]));
        i += 1;
    }
    proof {
        lemma_seq_less_step(a@, b@, i as int);
    }
    i < bc.len()
}

/// `char::to_ascii_uppercase`.
pub fn to_ascii_upper(c: char) -> (res: char)
    ensures
        res == ascii_upper(c),
{
    if 'a' <= c && c <= 'z' {
        ((c as u8) - 32) as char
    } else {
        c
    }
}

/// `char::to_ascii_lowercase`.
pub fn to_ascii_lower(c: char) -> (res: char)
    ensures
        res == ascii_lower(c),
{
    if 'A' <= c && c <= 'Z' {
        ((c as u8) + 32) as char
    } else {
        c
    }
}

/// `str::eq_ignore_ascii_case`.
pub fn str_eq_ignore_ascii_case(a: &str, b: &str) -> (res: bool)
    ensures
        res == eq_ignore_ascii_case(a@, b@),
{
    let ac = chars_of(a);
    let bc = chars_of(b);
    if ac.len() != bc.len() {
        return false;
    }
    let mut i: usize = 0;
    while i < ac.len()
        invariant
            ac@ == a@,
            bc@ == b@,
            ac.len() == bc.len(),
            i <= ac.len(),
            forall|j: int| 0 <= j < i ==> ascii_lower(#[trigger] a@[j]) == ascii_lower(b@[j]),
        decreases ac.len() - i,
    {
        if to_ascii_lower(ac[i]) != to_ascii_lower(bc[i]) {
            return false;
        }
        i += 1;
    }
    true
}

/// The decimal digit character for `d < 10`.
pub fn digit(d: usize) -> (c: char)
    requires
        d < 10,
    ensures
        c == digit_char(d as nat),
{
    match d {
        0 => '0',
        1 => '1',
        2 => '2',
        3 => '3',
        4 => '4',
        5 => '5',
        6 => '6',
        7 => '7',
        8 => '8',
        _ => '9',
    }
}

/// Appends the decimal rendering of `n` to `out`.
pub fn push_usize(out: &mut String, n: usize)
    ensures
        final(out)@ == old(out)@ + dec_str(n as nat),
    decreases n,
{
    if n < 10 {
        push_char(out, digit(n));
        assert(dec_str(n as nat) =~= seq![digit_char(n as nat)]);
    } else {
        push_usize(out, n / 10);
        push_char(out, digit(n % 10));
    }
}

/// Decimal rendering of `n` (`usize::to_string`).
pub fn usize_to_string(n: usize) -> (res: String)
    ensures
        res@ == dec_str(n as nat),
{
    let mut s = String::new();
    push_usize(&mut s, n);
    s
}

/// `str::replace` for a non-empty pattern.
pub fn replace(s: &str, pat: &str, rep: &str) -> (res: String)
    requires
        pat@.len() > 0,
    ensures
        res@ == replace_all(s@, pat@, rep@),
{
    let sc = chars_of(s);
    let pc = chars_of(pat);
    let mut out = String::new();
    let mut i: usize = 0;
    let ghost ss = s@;
    assert(ss.skip(0) =~= ss);
    while i < sc.len()
        invariant
            sc@ == ss,
            pc@ == pat@,
            pat@.len() > 0,
            i <= sc.len(),
            out@ + replace_all(ss.skip(i as int), pat@, rep@) == replace_all(ss, pat@, rep@),
        decreases sc.len() - i,
    {
        let ghost rest = ss.skip(i as int);
        // does the pattern occur at position i?
        let mut matched = sc.len() - i >= pc.len();
        let mut k: usize = 0;
        while matched && k < pc.len()
            invariant
                sc@ == ss,
                pc@ == pat@,
                i <= sc.len(),
                k <= pc.len(),
                matched ==> sc.len() - i >= pc.len(),
                matched ==> forall|j: int| 0 <= j < k ==> ss[i + j] == pat@[j],
                !matched ==> !(sc.len() - i >= pc.len() && ss.subrange(i as int, i + pc.len()) == pat@),
            decreases pc.len() - k,
        {
            if sc[i + k] != pc[k] {
                matched = false;
                assert(ss.subrange(i as int, i + pc.len())[k as int] == ss[i + k]);
            }
            k += 1;
        }
        if matched {
            assert(ss.subrange(i as int, i + pc.len()) =~= pat@);
            assert(rest.subrange(0, pat@.len() as int) =~= pat@);
            assert(rest.skip(pat@.len() as int) =~= ss.skip(i + pc.len()));
            let ghost old_out = out@;
            push_str(&mut out, rep);
            assert(out@ + replace_all(ss.skip(i + pc.len()), pat@, rep@)
                =~= old_out + (rep@ + replace_all(rest.skip(pat@.len() as int), pat@, rep@)));
            i += pc.len();
        } else {
            assert(rest.len() >= pat@.len() ==> rest.subrange(0, pat@.len() as int) =~= ss.subrange(i as int, i + pc.len()));
            let ghost old_out = out@;
            push_char(&mut out, sc[i]);
            assert(rest.skip(1) =~= ss.skip(i + 1));
            assert(rest[0] == ss[i as int]);
            assert(out@ + replace_all(ss.skip(i + 1), pat@, rep@)
                =~= old_out + (seq![rest[0]] + replace_all(rest.skip(1), pat@, rep@)));
            i += 1;
        }
    }
    assert(ss.skip(i as int) =~= Seq::<char>::empty());
    assert(out@ + Seq::<char>::empty() =~= out@);
    out
}



/// Whether `pat` occurs in `s` (`str::contains` with a string pattern).
pub fn str_contains(s: &str, pat: &str) -> (res: bool)
    ensures
        res == seq_contains(s@, pat@),
{
    let sc = chars_of(s);
    let pc = chars_of(pat);
    if pc.len() > sc.len() {
        proof {
            assert forall|i: int| 0 <= i && i + pat@.len() <= s@.len() implies
                #[trigger] s@.subrange(i, i + pat@.len()) != pat@ by {}
        }
        return false;
    }
    let mut i: usize = 0;
    while i <= sc.len() - pc.len()
        invariant
            sc@ == s@,
            pc@ == pat@,
            pc.len() <= sc.len(),
            i <= sc.len() - pc.len() + 1,
            forall|j: int| 0 <= j < i ==> #[trigger] s@.subrange(j, j + pat@.len()) != pat@,
        decreases sc.len() - pc.len() + 1 - i,
    {
        let mut k: usize = 0;
        let mut same = true;
        while k < pc.len()
            invariant
                sc@ == s@,
                pc@ == pat@,
                i + pc.len() <= sc.len(),
                k <= pc.len(),
                same == (forall|m: int| 0 <= m < k ==> sc@[i + m] == pc@[m]),
            decreases pc.len() - k,
        {
            if sc[i + k] != pc[k] {
                same = false;
            }
            k += 1;
        }
        if same {
            assert(s@.subrange(i as int, i + pat@.len()) =~= pat@);
            return true;
        }
        proof {
            if s@.subrange(i as int, i + pat@.len()) == pat@ {
                assert forall|m: int| 0 <= m < pc@.len() implies sc@[i + m] == pc@[m] by {
                    assert(s@.subrange(i as int, i + pat@.len())[m] == s@[i + m]);
                }
            }
        }
        i += 1;
    }
    false
}


/// `char::is_whitespace`: the characters with the Unicode White_Space property.
pub open spec fn is_ws(c: char) -> bool {
    ('\u{9}' <= c && c <= '\u{d}') || c == ' ' || c == '\u{85}' || c == '\u{a0}' || c == '\u{1680}'
        || ('\u{2000}' <= c && c <= '\u{200a}') || c == '\u{2028}' || c == '\u{2029}' || c == '\u{202f}'
        || c == '\u{205f}' || c == '\u{3000}'
}

/// `str::trim_end`: trailing whitespace removed.
pub open spec fn trim_end_spec(s: Seq<char>) -> Seq<char>
    decreases s.len(),
{
    if s.len() > 0 && is_ws(s.last()) { trim_end_spec(s.drop_last()) } else { s }
}

fn char_is_ws(c: char) -> (res: bool)
    ensures
        res == is_ws(c),
{
    ('\u{9}' <= c && c <= '\u{d}') || c == ' ' || c == '\u{85}' || c == '\u{a0}' || c == '\u{1680}'
        || ('\u{2000}' <= c && c <= '\u{200a}') || c == '\u{2028}' || c == '\u{2029}' || c == '\u{202f}'
        || c == '\u{205f}' || c == '\u{3000}'
}

/// The string without its trailing whitespace.
pub fn trim_end(s: &str) -> (res: String)
    ensures
        res@ == trim_end_spec(s@),
{
    let cs = chars_of(s);
    let mut k: usize = cs.len();
    assert(s@.subrange(0, k as int) =~= s@);
    while k > 0 && char_is_ws(cs[k - 1])
        invariant
            cs@ == s@,
            k <= cs.len(),
            trim_end_spec(s@.subrange(0, k as int)) == trim_end_spec(s@),
        decreases k,
    {
        assert(s@.subrange(0, k as int).drop_last() =~= s@.subrange(0, k - 1));
        k -= 1;
    }
    let mut out = String::new();
    let mut i: usize = 0;
    while i < k
        invariant
            cs@ == s@,
            k <= cs.len(),
            i <= k,
            out@ == s@.subrange(0, i as int),
        decreases k - i,
    {
        push_char(&mut out, cs[i]);
        assert(out@ =~= s@.subrange(0, i + 1));
        i += 1;
    }
    out
}

}
