//! Escaping and identifier sanitizing for generated Rust source.
use vstd::prelude::*;
use crate::text::{chars_of, char_lower, char_to_lowercase, char_to_uppercase, char_upper, digit, digit_char, push_char, push_str, replace, replace_all, to_lowercase, to_uppercase, unicode_lower, unicode_upper};

verus! {

/// Control characters: Unicode general category Cc (`char::is_control`).
pub open spec fn is_control(c: char) -> bool {
    (c as u32) <= 0x1f || (0x7f <= (c as u32) && (c as u32) <= 0x9f)
}

/// Upper-case hexadecimal digit for `d < 16`.
pub open spec fn hex_digit(d: nat) -> char {
    if d < 10 { digit_char(d) }
    else if d == 10 { 'A' }
    else if d == 11 { 'B' }
    else if d == 12 { 'C' }
    else if d == 13 { 'D' }
    else if d == 14 { 'E' }
    else { 'F' }
}

/// How one character is written inside a Rust string literal.
pub open spec fn escape_char(c: char) -> Seq<char> {
    if c == '\\' {
        seq!['\\', '\\']
    } else if c == '"' {
        seq!['\\', '"']
    } else if c == '\n' {
        seq!['\\', 'n']
    } else if c == '\r' {
        seq!['\\', 'r']
    } else if c == '\t' {
        seq!['\\', 't']
    } else if is_control(c) {
        let v = c as u32 as nat;
        seq!['\\', 'u', '{', hex_digit((v / 4096) % 16), hex_digit((v / 256) % 16),
            hex_digit((v / 16) % 16), hex_digit(v % 16), '}']
    } else {
        seq![c]
    }
}

/// The escaped form of a whole string: each character escaped in turn.
pub open spec fn escape_seq(s: Seq<char>) -> Seq<char>
    decreases s.len(),
{
    if s.len() == 0 {
        Seq::empty()
    } else {
        escape_seq(s.drop_last()) + escape_char(s.last())
    }
}

/// `-` and `.` separate the parts of a locale or message name.
pub open spec fn is_sep(c: char) -> bool {
    c == '-' || c == '.'
}

/// The non-empty maximal runs of non-separator characters of `s`, in order
/// (`s.split(['-', '.']).filter(|p| !p.is_empty())`).
pub open spec fn name_parts(s: Seq<char>) -> Seq<Seq<char>>
    decreases s.len(),
{
    if s.len() == 0 {
        Seq::empty()
    } else {
        let p = name_parts(s.drop_last());
        let c = s.last();
        if is_sep(c) {
            p
        } else if s.len() >= 2 && !is_sep(s[s.len() - 2]) {
            p.update(p.len() - 1, p.last().push(c))
        } else {
            p.push(seq![c])
        }
    }
}

/// Concatenation of the `char_lower` images of every character of `s`.
pub open spec fn lower_each(s: Seq<char>) -> Seq<char>
    decreases s.len(),
{
    if s.len() == 0 {
        Seq::empty()
    } else {
        lower_each(s.drop_last()) + char_lower(s.last())
    }
}

/// A name part in Pascal case: first character upper-cased, the rest lower-cased.
pub open spec fn pascal_part(p: Seq<char>) -> Seq<char> {
    if p.len() == 0 { Seq::empty() } else { char_upper(p[0]) + lower_each(p.drop_first()) }
}

/// Concatenation of `pascal_part` over a sequence of parts.
pub open spec fn pascal_join(ps: Seq<Seq<char>>) -> Seq<char>
    decreases ps.len(),
{
    if ps.len() == 0 { Seq::empty() } else { pascal_join(ps.drop_last()) + pascal_part(ps.last()) }
}

/// Parts upper-cased and joined with `_`.
pub open spec fn screaming_join(ps: Seq<Seq<char>>) -> Seq<char>
    decreases ps.len(),
{
    if ps.len() == 0 {
        Seq::empty()
    } else if ps.len() == 1 {
        unicode_upper(ps[0])
    } else {
        screaming_join(ps.drop_last()) + seq!['_'] + unicode_upper(ps.last())
    }
}

/// `sanitize`: lower-cased, with `-` and `.` replaced by `_`.
pub open spec fn sanitize_spec(s: Seq<char>) -> Seq<char> {
    replace_all(replace_all(unicode_lower(s), seq!['-'], seq!['_']), seq!['.'], seq!['_'])
}

/// A sanitized name holds no `-` and no `.`, so that a locale tag can name
/// a Rust module.
pub proof fn lemma_sanitize_no_separators(s: Seq<char>)
    ensures
        !sanitize_spec(s).contains('-'),
        !sanitize_spec(s).contains('.'),
{
    let a = replace_all(unicode_lower(s), seq!['-'], seq!['_']);
    crate::text::lemma_replace_char_contains(unicode_lower(s), '-', '_', '-');
    crate::text::lemma_replace_char_contains(a, '.', '_', '-');
    crate::text::lemma_replace_char_contains(a, '.', '_', '.');
}

fn hex(d: u32) -> (c: char)
    requires
        d < 16,
    ensures
        c == hex_digit(d as nat),
{
    if d < 10 {
        digit(d as usize)
    } else if d == 10 {
        'A'
    } else if d == 11 {
        'B'
    } else if d == 12 {
        'C'
    } else if d == 13 {
        'D'
    } else if d == 14 {
        'E'
    } else {
        'F'
    }
}

fn push_escaped_char(out: &mut String, c: char)
    ensures
        final(out)@ == old(out)@ + escape_char(c),
{
    let ghost o = old(out)@;
    if c == '\\' {
        push_char(out, '\\');
        push_char(out, '\\');
    } else if c == '"' {
        push_char(out, '\\');
        push_char(out, '"');
    } else if c == '\n' {
        push_char(out, '\\');
        push_char(out, 'n');
    } else if c == '\r' {
        push_char(out, '\\');
        push_char(out, 'r');
    } else if c == '\t' {
        push_char(out, '\\');
        push_char(out, 't');
    } else if (c as u32) <= 0x1f || (0x7f <= (c as u32) && (c as u32) <= 0x9f) {
        let v = c as u32;
        push_char(out, '\\');
        push_char(out, 'u');
        push_char(out, '{');
        push_char(out, hex((v / 4096) % 16));
        push_char(out, hex((v / 256) % 16));
        push_char(out, hex((v / 16) % 16));
        push_char(out, hex(v % 16));
        push_char(out, '}');
    } else {
        push_char(out, c);
    }
    assert(out@ =~= o + escape_char(c));
}

/// Appends the escaped form of `s` to `out`.
pub fn push_escaped(out: &mut String, s: &str)
    ensures
        final(out)@ == old(out)@ + escape_seq(s@),
{
    let cs = chars_of(s);
    let ghost o = old(out)@;
    let mut i: usize = 0;
    while i < cs.len()
        invariant
            cs@ == s@,
            i <= cs.len(),
            out@ == o + escape_seq(s@.subrange(0, i as int)),
        decreases cs.len() - i,
    {
        let ghost before = out@;
        push_escaped_char(out, cs[i]);
        assert(s@.subrange(0, i + 1).drop_last() =~= s@.subrange(0, i as int));
        assert(out@ =~= o + escape_seq(s@.subrange(0, i + 1)));
        i += 1;
    }
    assert(s@.subrange(0, i as int) =~= s@);
}

/// Escapes `s` for use inside a Rust string literal.
pub fn escape_str(s: &str) -> (res: String)
    ensures
        res@ == escape_seq(s@),
{
    let mut out = String::new();
    push_escaped(&mut out, s);
    assert(out@ =~= escape_seq(s@));
    out
}

/// Snake-case identifier for a name: lower-cased, `-` and `.` become `_`.
pub fn sanitize(s: &str) -> (res: String)
    ensures
        res@ == sanitize_spec(s@),
{
    let lower = to_lowercase(s);
    proof {
        reveal_strlit("-");
        reveal_strlit(".");
        reveal_strlit("_");
    }
    let a = replace(lower.as_str(), "-", "_");
    let b = replace(a.as_str(), ".", "_");
    assert("-"@ =~= seq!['-']);
    assert("."@ =~= seq!['.']);
    assert("_"@ =~= seq!['_']);
    b
}

proof fn lemma_name_parts_nonempty(s: Seq<char>)
    ensures
        forall|i: int| 0 <= i < name_parts(s).len() ==> #[trigger] name_parts(s)[i].len() > 0,
        s.len() > 0 && !is_sep(s.last()) ==> name_parts(s).len() > 0,
    decreases s.len(),
{
    if s.len() > 0 {
        lemma_name_parts_nonempty(s.drop_last());
        let p = name_parts(s.drop_last());
        if !is_sep(s.last()) && s.len() >= 2 && !is_sep(s[s.len() - 2]) {
            assert(s.drop_last().last() == s[s.len() - 2]);
            assert(p.len() > 0);
        }
    }
}

/// Splits a name at `-` and `.`, dropping empty parts.
pub fn split_name_parts(s: &str) -> (res: Vec<String>)
    ensures
        res@.len() == name_parts(s@).len(),
        forall|i: int| 0 <= i < res@.len() ==> #[trigger] res@[i]@ == name_parts(s@)[i],
{
    let cs = chars_of(s);
    let mut parts: Vec<String> = Vec::new();
    let mut cur = String::new();
    let mut i: usize = 0;
    while i < cs.len()
        invariant
            cs@ == s@,
            i <= cs.len(),
            ({
                let np = name_parts(s@.subrange(0, i as int));
                &&& (cur@.len() > 0 ==> np.len() == parts@.len() + 1 && np.last() == cur@)
                &&& (cur@.len() == 0 ==> np.len() == parts@.len())
                &&& forall|j: int| 0 <= j < parts@.len() ==> #[trigger] parts@[j]@ == np[j]
                &&& (cur@.len() > 0 <==> (i > 0 && !is_sep(s@[i - 1])))
            }),
        decreases cs.len() - i,
    {
        let c = cs[i];
        let ghost pre = s@.subrange(0, i as int);
        let ghost next = s@.subrange(0, i + 1);
        assert(next.drop_last() =~= pre);
        assert(next.last() == c);
        if c == '-' || c == '.' {
            if !cur.as_str().is_empty() {
                parts.push(cur);
                cur = String::new();
            }
        } else {
            if i >= 1 {
                assert(next[next.len() - 2] == s@[i - 1]);
            }
            push_char(&mut cur, c);
            proof {
                lemma_name_parts_nonempty(pre);
            }
        }
        i += 1;
    }
    if !cur.as_str().is_empty() {
        parts.push(cur);
    }
    assert(s@.subrange(0, i as int) =~= s@);
    parts
}

fn push_lower_each(out: &mut String, s: &str, from: usize)
    requires
        from <= s@.len(),
    ensures
        final(out)@ == old(out)@ + lower_each(s@.skip(from as int)),
{
    let cs = chars_of(s);
    let ghost o = old(out)@;
    let mut i = from;
    assert(s@.skip(from as int).subrange(0, 0) =~= Seq::<char>::empty());
    while i < cs.len()
        invariant
            cs@ == s@,
            from <= i <= cs.len(),
            out@ == o + lower_each(s@.skip(from as int).subrange(0, i - from)),
        decreases cs.len() - i,
    {
        let l = char_to_lowercase(cs[i]);
        push_str(out, l.as_str());
        let ghost t = s@.skip(from as int);
        assert(t.subrange(0, i + 1 - from).drop_last() =~= t.subrange(0, i - from));
        assert(t.subrange(0, i + 1 - from).last() == cs@[i as int]);
        assert(out@ =~= o + lower_each(t.subrange(0, i + 1 - from)));
        i += 1;
    }
    assert(s@.skip(from as int).subrange(0, i - from) =~= s@.skip(from as int));
}

/// Pascal-case identifier for a name: parts split at `-`/`.`, each with its
/// first character upper-cased and the rest lower-cased, concatenated.
pub fn sanitize_upper(s: &str) -> (res: String)
    ensures
        res@ == pascal_join(name_parts(s@)),
{
    let parts = split_name_parts(s);
    let ghost ps = name_parts(s@);
    let mut out = String::new();
    let mut i: usize = 0;
    while i < parts.len()
        invariant
            parts@.len() == ps.len(),
            forall|j: int| 0 <= j < parts@.len() ==> #[trigger] parts@[j]@ == ps[j],
            i <= parts.len(),
            out@ == pascal_join(ps.subrange(0, i as int)),
        decreases parts.len() - i,
    {
        let part = parts[i].as_str();
        let ghost before = out@;
        let pc = chars_of(part);
        if pc.len() > 0 {
            let up = char_to_uppercase(pc[0]);
            push_str(&mut out, up.as_str());
            push_lower_each(&mut out, part, 1);
            assert(part@.skip(1) =~= part@.drop_first());
        }
        assert(ps.subrange(0, i + 1).drop_last() =~= ps.subrange(0, i as int));
        assert(out@ =~= before + pascal_part(ps[i as int]));
        i += 1;
    }
    assert(ps.subrange(0, i as int) =~= ps);
    out
}

/// Screaming-snake identifier for a name: parts split at `-`/`.`, each
/// upper-cased, joined with `_`.
pub fn sanitize_const(s: &str) -> (res: String)
    ensures
        res@ == screaming_join(name_parts(s@)),
{
    let parts = split_name_parts(s);
    let ghost ps = name_parts(s@);
    let mut out = String::new();
    let mut i: usize = 0;
    while i < parts.len()
        invariant
            parts@.len() == ps.len(),
            forall|j: int| 0 <= j < parts@.len() ==> #[trigger] parts@[j]@ == ps[j],
            i <= parts.len(),
            out@ == screaming_join(ps.subrange(0, i as int)),
        decreases parts.len() - i,
    {
        let up = to_uppercase(parts[i].as_str());
        let ghost before = out@;
        if i > 0 {
            push_char(&mut out, '_');
        }
        push_str(&mut out, up.as_str());
        assert(ps.subrange(0, i + 1).drop_last() =~= ps.subrange(0, i as int));
        if i == 0 {
            assert(out@ =~= screaming_join(ps.subrange(0, 1)));
        } else {
            assert(out@ =~= before + seq!['_'] + unicode_upper(ps[i as int]));
        }
        i += 1;
    }
    assert(ps.subrange(0, i as int) =~= ps);
    out
}

}
