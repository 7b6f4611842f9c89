//! Pattern handling of the runtime number formatter: where a currency sign
//! goes, what follows the digits of a percent pattern, and how a currency
//! label and a formatted amount are put together.
use vstd::prelude::*;
use crate::text::{chars_of, push_str, string_of};

verus! {

#[derive(Clone, Copy, Debug, PartialEq, Eq, Structural)]
pub enum CurrencyPlacement {
    Prefix,
    Suffix,
}

/// Index of the first occurrence of `c`.
pub open spec fn first_index_of(s: Seq<char>, c: char) -> Option<int>
    decreases s.len(),
{
    if s.len() == 0 {
        None
    } else if s[0] == c {
        Some(0)
    } else {
        match first_index_of(s.drop_first(), c) {
            Some(i) => Some(i + 1),
            None => None,
        }
    }
}

/// The currency sign `¤` first in the pattern means the label goes before
/// the amount, anywhere else after it; no sign, no placement.
pub open spec fn placement_spec(pattern: Seq<char>) -> Option<CurrencyPlacement> {
    match first_index_of(pattern, '\u{a4}') {
        Some(i) => Some(if i == 0 { CurrencyPlacement::Prefix } else { CurrencyPlacement::Suffix }),
        None => None,
    }
}

/// Where a currency pattern puts the currency label.
pub fn extract_currency_placement(pattern: &str) -> (res: Option<CurrencyPlacement>)
    ensures
        res == placement_spec(pattern@),
{
    let cs = chars_of(pattern);
    let mut i: usize = 0;
    let ghost s = pattern@;
    assert(s.skip(0) =~= s);
    while i < cs.len()
        invariant
            cs@ == s,
            s == pattern@,
            i <= cs.len(),
            forall|j: int| 0 <= j < i ==> s[j] != '\u{a4}',
            first_index_of(s, '\u{a4}') == (match first_index_of(s.skip(i as int), '\u{a4}') {
                Some(k) => Some(k + i),
                None => None,
            }),
        decreases cs.len() - i,
    {
        if cs[i] == '\u{a4}' {
            assert(s.skip(i as int)[0] == s[i as int]);
            if i == 0 {
                return Some(CurrencyPlacement::Prefix);
            } else {
                return Some(CurrencyPlacement::Suffix);
            }
        }
        assert(s.skip(i as int).drop_first() =~= s.skip(i + 1));
        i += 1;
    }
    assert(s.skip(i as int).len() == 0);
    None
}

/// A character of the number part of a pattern.
pub open spec fn is_digit_mark(c: char) -> bool {
    c == '0' || c == '#' || c == ',' || c == '.'
}

/// Index of the last number character.
pub open spec fn last_digit_mark(s: Seq<char>) -> Option<int>
    decreases s.len(),
{
    if s.len() == 0 {
        None
    } else if is_digit_mark(s.last()) {
        Some(s.len() - 1)
    } else {
        last_digit_mark(s.drop_last())
    }
}

/// What follows the last number character of a pattern, when anything does.
pub open spec fn suffix_spec(pattern: Seq<char>) -> Option<Seq<char>> {
    match last_digit_mark(pattern) {
        None => None,
        Some(i) => if i + 1 == pattern.len() { None } else { Some(pattern.skip(i + 1)) },
    }
}

/// The text after the digits of a pattern (the percent sign of a percent
/// pattern), or nothing when the pattern has no digits or ends with them.
pub fn extract_pattern_suffix(pattern: &str) -> (res: Option<String>)
    ensures
        match res {
            Some(r) => suffix_spec(pattern@) == Some(r@),
            None => suffix_spec(pattern@) is None,
        },
{
    let cs = chars_of(pattern);
    let ghost s = pattern@;
    let mut k: usize = cs.len();
    assert(s.subrange(0, k as int) =~= s);
    while k > 0 && !(cs[k - 1] == '0' || cs[k - 1] == '#' || cs[k - 1] == ',' || cs[k - 1] == '.')
        invariant
            cs@ == s,
            s == pattern@,
            k <= cs.len(),
            last_digit_mark(s.subrange(0, k as int)) == last_digit_mark(s),
        decreases k,
    {
        assert(s.subrange(0, k as int).drop_last() =~= s.subrange(0, k - 1));
        k -= 1;
    }
    if k == 0 || k == cs.len() {
        return None;
    }
    let mut out = String::new();
    let mut i: usize = k;
    while i < cs.len()
        invariant
            cs@ == s,
            0 < k <= i <= cs.len(),
            out@ == s.subrange(k as int, i as int),
        decreases cs.len() - i,
    {
        crate::text::push_char(&mut out, cs[i]);
        assert(out@ =~= s.subrange(k as int, i + 1));
        i += 1;
    }
    assert(out@ =~= s.skip(k as int));
    Some(out)
}

/// A label of more than one character is set off by a space; a symbol of
/// one character is written against the amount.
pub open spec fn currency_spec(label: Seq<char>, number: Seq<char>, placement: CurrencyPlacement) -> Seq<char> {
    let sep = if label.len() <= 1 { Seq::<char>::empty() } else { " "@ };
    match placement {
        CurrencyPlacement::Prefix => label + sep + number,
        CurrencyPlacement::Suffix => number + sep + label,
    }
}

/// Appends a formatted amount with its currency label.
pub fn write_currency(out: &mut String, label: &str, number: &str, placement: CurrencyPlacement)
    ensures
        final(out)@ == old(out)@ + currency_spec(label@, number@, placement),
{
    let ghost o = out@;
    let n = chars_of(label).len();
    let sep = if n <= 1 { "" } else { " " };
    proof {
        reveal_strlit("");
        reveal_strlit(" ");
    }
    match placement {
        CurrencyPlacement::Prefix => {
            push_str(out, label);
            push_str(out, sep);
            push_str(out, number);
        },
        CurrencyPlacement::Suffix => {
            push_str(out, number);
            push_str(out, sep);
            push_str(out, label);
        },
    }
    assert(out@ =~= o + currency_spec(label@, number@, placement));
}

/// The currency part of the number formatter: the label chosen by
/// `display` (`code`, `name`, or the symbol by default) from the locale's
/// entry for the currency (or the code itself when there is none), placed
/// by the locale's currency pattern (before the amount when unknown).
pub open spec fn currency_text_spec(number: Seq<char>, currency: Option<Seq<char>>, display: Option<Seq<char>>,
    entry: Option<(Seq<char>, Seq<char>)>, pattern: Option<Seq<char>>) -> Seq<char>
{
    let curr = match currency { Some(c) => c, None => Seq::empty() };
    let disp = match display { Some(d) => d, None => "symbol"@ };
    let (symbol, name) = match entry { Some(e) => e, None => (curr, curr) };
    let placement = match pattern {
        Some(p) => match placement_spec(p) { Some(pl) => pl, None => CurrencyPlacement::Prefix },
        None => CurrencyPlacement::Prefix,
    };
    let label = if disp == "code"@ { curr } else if disp == "name"@ { name } else { symbol };
    currency_spec(label, number, placement)
}

pub open spec fn opt_str_v(o: Option<&str>) -> Option<Seq<char>> {
    match o {
        Some(s) => Some(s@),
        None => None,
    }
}

/// A formatted amount with its currency label, as the number formatter
/// writes it for the `currency` style.
pub fn format_currency_text(out: &mut String, number: &str, currency: Option<&str>, currency_display: Option<&str>,
    entry: Option<(&str, &str)>, currency_format: Option<&str>)
    ensures
        final(out)@ == old(out)@ + currency_text_spec(number@, opt_str_v(currency), opt_str_v(currency_display),
            match entry { Some(e) => Some((e.0@, e.1@)), None => None }, opt_str_v(currency_format)),
{
    proof {
        reveal_strlit("");
    }
    let curr = match currency {
        Some(c) => c,
        None => "",
    };
    let (symbol, name) = match entry {
        Some(e) => e,
        None => (curr, curr),
    };
    let placement = match currency_format {
        Some(p) => match extract_currency_placement(p) {
            Some(pl) => pl,
            None => CurrencyPlacement::Prefix,
        },
        None => CurrencyPlacement::Prefix,
    };
    let display = match currency_display {
        Some(d) => d,
        None => "symbol",
    };
    if crate::text::str_eq(display, "code") {
        write_currency(out, curr, number, placement);
    } else if crate::text::str_eq(display, "name") {
        write_currency(out, name, number, placement);
    } else {
        write_currency(out, symbol, number, placement);
    }
}

/// The percent sign of a locale's percent pattern, `%` when unknown.
pub fn percent_suffix(percent_format: Option<&str>) -> (res: String)
    ensures
        res@ == (match percent_format {
            Some(p) => match suffix_spec(p@) { Some(s) => s, None => "%"@ },
            None => "%"@,
        }),
{
    match percent_format {
        Some(p) => match extract_pattern_suffix(p) {
            Some(s) => s,
            None => string_of("%"),
        },
        None => string_of("%"),
    }
}

} // verus!
