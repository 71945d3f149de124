//! Number literals in G-code text: `usize` values as `str::parse::<usize>` reads them, and
//! the shape of decimal literals that `str::parse::<f64>` accepts.
use vstd::prelude::*;
use crate::text::{ascii_lower, find_char, chars_of, eq_str, find_first, slice_vec, to_ascii_lower};

verus! {

pub open spec fn is_digit(c: char) -> bool {
    '0' <= c && c <= '9'
}

pub open spec fn all_digits(s: Seq<char>) -> bool {
    forall|i: int| 0 <= i < s.len() ==> is_digit(#[trigger] s[i])
}

pub open spec fn digit_value(c: char) -> nat {
    ((c as u32) - ('0' as u32)) as nat
}

/// The value of a string of decimal digits.
pub open spec fn digits_value(s: Seq<char>) -> nat
    decreases s.len(),
{
    if s.len() == 0 {
        0
    } else {
        digits_value(s.drop_last()) * 10 + digit_value(s.last())
    }
}

pub open spec fn unsigned_digits(s: Seq<char>) -> Seq<char> {
    if s.len() > 0 && s[0] == '+' {
        s.drop_first()
    } else {
        s
    }
}

/// `str::parse::<usize>`: an optional `+`, then one or more decimal digits whose value
/// fits in a `usize`; anything else is an error.
pub open spec fn parse_usize_spec(s: Seq<char>) -> Option<usize> {
    let d = unsigned_digits(s);
    if d.len() > 0 && all_digits(d) && digits_value(d) <= usize::MAX {
        Some(digits_value(d) as usize)
    } else {
        None
    }
}

pub open spec fn digit_char(d: nat) -> char {
    ((d + 48) as u8) as char
}

/// The decimal rendering of `n` (as `usize`'s `Display` writes it).
pub open spec fn decimal(n: nat) -> Seq<char>
    decreases n,
{
    if n < 10 {
        seq![digit_char(n)]
    } else {
        decimal(n / 10).push(digit_char(n % 10))
    }
}

proof fn lemma_digits_value_prefix(s: Seq<char>, k: int)
    requires
        0 <= k < s.len(),
    ensures
        digits_value(s.take(k + 1)) == digits_value(s.take(k)) * 10 + digit_value(s[k]),
{
    assert(s.take(k + 1).drop_last() =~= s.take(k));
}

proof fn lemma_digits_value_grows(s: Seq<char>, k: int)
    requires
        0 <= k <= s.len(),
    ensures
        digits_value(s.take(k)) <= digits_value(s),
    decreases s.len() - k,
{
    if k < s.len() {
        lemma_digits_value_prefix(s, k);
        lemma_digits_value_grows(s, k + 1);
    } else {
        assert(s.take(k) =~= s);
    }
}

/// `str::parse::<usize>` on a character vector.
pub fn parse_usize(s: &Vec<char>) -> (r: Option<usize>)
    ensures
        r == parse_usize_spec(s@),
{
    let start: usize = if s.len() > 0 && s[0] == '+' {
        1
    } else {
        0
    };
    let ghost d = unsigned_digits(s@);
    assert(d =~= s@.skip(start as int));
    if start >= s.len() {
        return None;
    }
    let mut value: usize = 0;
    let mut i = start;
    assert(d.take(0) =~= Seq::<char>::empty());
    while i < s.len()
        invariant
            start <= i <= s.len(),
            d == s@.skip(start as int),
            d == unsigned_digits(s@),
            forall|k: int| 0 <= k < i - start ==> is_digit(#[trigger] d[k]),
            value == digits_value(d.take(i - start)),
        decreases s.len() - i,
    {
        let c = s[i];
        if !('0' <= c && c <= '9') {
            assert(!is_digit(d[i - start]));
            return None;
        }
        let dv: usize = (c as u32 - '0' as u32) as usize;
        proof {
            lemma_digits_value_prefix(d, i - start);
            lemma_digits_value_grows(d, i - start + 1);
        }
        let m = value.checked_mul(10);
        match m {
            None => {
                return None;
            },
            Some(m) => {
                let a = m.checked_add(dv);
                match a {
                    None => {
                        return None;
                    },
                    Some(a) => {
                        value = a;
                    },
                }
            },
        }
        i = i + 1;
    }
    assert(d.take(i - start) =~= d);
    Some(value)
}

pub proof fn lemma_decimal_digits(n: nat)
    ensures
        all_digits(decimal(n)),
        decimal(n).len() > 0,
        decimal(n)[0] != '+',
        digits_value(decimal(n)) == n,
    decreases n,
{
    if n >= 10 {
        lemma_decimal_digits(n / 10);
        let d = decimal(n);
        assert(d.drop_last() =~= decimal(n / 10));
        let k = n % 10;
        assert((k + 48) as u8 == k + 48);
        assert(digit_char(k) as u32 == k + 48);
        assert(digit_value(d.last()) == k);
        assert(digits_value(d) == digits_value(decimal(n / 10)) * 10 + k);
        assert((n / 10) * 10 + n % 10 == n) by (nonlinear_arith);
        assert forall|i: int| 0 <= i < d.len() implies is_digit(#[trigger] d[i]) by {
            if i < d.len() - 1 {
                assert(d[i] == decimal(n / 10)[i]);
            }
        }
        assert(d[0] == decimal(n / 10)[0]);
    } else {
        assert((n + 48) as u8 == n + 48);
        assert(digit_char(n) as u32 == n + 48);
        assert(decimal(n).drop_last() =~= Seq::<char>::empty());
        assert(digit_value(decimal(n).last()) == n);
        assert(digits_value(decimal(n)) == digits_value(Seq::<char>::empty()) * 10 + n);
    }
}

/// Law: reading back the decimal rendering of any `usize` gives that value.
pub proof fn law_parse_usize_decimal(n: usize)
    ensures
        parse_usize_spec(decimal(n as nat)) == Some(n),
{
    lemma_decimal_digits(n as nat);
}

pub open spec fn lower_chars(s: Seq<char>) -> Seq<char> {
    Seq::new(s.len(), |i: int| ascii_lower(s[i]))
}

pub open spec fn without_sign(s: Seq<char>) -> Seq<char> {
    if s.len() > 0 && (s[0] == '+' || s[0] == '-') {
        s.drop_first()
    } else {
        s
    }
}

/// `Digit+ | Digit+ '.' Digit* | Digit* '.' Digit+`
pub open spec fn is_mantissa(m: Seq<char>) -> bool {
    match find_char(m, '.') {
        None => m.len() > 0 && all_digits(m),
        Some(p) => m.len() > 1 && all_digits(m.take(p)) && all_digits(m.skip(p + 1)),
    }
}

/// `Sign? Digit+`
pub open spec fn is_exponent(x: Seq<char>) -> bool {
    let y = without_sign(x);
    y.len() > 0 && all_digits(y)
}

/// `Number ::= Mantissa ('e' Exponent)?`, on lowercased text.
pub open spec fn is_number(l: Seq<char>) -> bool {
    match find_char(l, 'e') {
        None => is_mantissa(l),
        Some(e) => is_mantissa(l.take(e)) && is_exponent(l.skip(e + 1)),
    }
}

/// The literals that `str::parse::<f64>` accepts: once lowercased, an optional sign followed
/// by `inf`, `infinity`, `nan`, or a decimal number with an optional exponent.
pub open spec fn is_float_literal(s: Seq<char>) -> bool {
    let l = lower_chars(without_sign(s));
    ||| l == "inf"@
    ||| l == "infinity"@
    ||| l == "nan"@
    ||| is_number(l)
}

/// The characters that can make up a float literal once it is lowercased.
pub open spec fn literal_char(c: char) -> bool {
    ||| is_digit(c)
    ||| c == '.'
    ||| c == '+'
    ||| c == '-'
    ||| ('a' <= c && c <= 'z')
}

proof fn lemma_find_char_some(s: Seq<char>, c: char)
    ensures
        find_char(s, c) matches Some(p) ==> 0 <= p < s.len() && s[p] == c,
    decreases s.len(),
{
    if s.len() > 0 && s[0] != c {
        lemma_find_char_some(s.drop_first(), c);
    }
}

proof fn lemma_mantissa_chars(m: Seq<char>)
    requires
        is_mantissa(m),
    ensures
        forall|i: int| 0 <= i < m.len() ==> literal_char(#[trigger] m[i]),
{
    lemma_find_char_some(m, '.');
    match find_char(m, '.') {
        None => {},
        Some(p) => {
            assert forall|i: int| 0 <= i < m.len() implies literal_char(#[trigger] m[i]) by {
                if i < p {
                    assert(m.take(p)[i] == m[i]);
                } else if i > p {
                    assert(m.skip(p + 1)[i - p - 1] == m[i]);
                }
            }
        },
    }
}

proof fn lemma_number_chars(l: Seq<char>)
    requires
        is_number(l),
    ensures
        forall|i: int| 0 <= i < l.len() ==> literal_char(#[trigger] l[i]),
{
    lemma_find_char_some(l, 'e');
    match find_char(l, 'e') {
        None => {
            lemma_mantissa_chars(l);
        },
        Some(e) => {
            lemma_mantissa_chars(l.take(e));
            let x = l.skip(e + 1);
            assert forall|i: int| 0 <= i < l.len() implies literal_char(#[trigger] l[i]) by {
                if i < e {
                    assert(l.take(e)[i] == l[i]);
                } else if i > e {
                    assert(x[i - e - 1] == l[i]);
                    if !(x.len() > 0 && (x[0] == '+' || x[0] == '-')) || i - e - 1 > 0 {
                        let y = without_sign(x);
                        if x.len() > 0 && (x[0] == '+' || x[0] == '-') {
                            assert(y[i - e - 2] == x[i - e - 1]);
                        } else {
                            assert(y[i - e - 1] == x[i - e - 1]);
                        }
                    }
                }
            }
        },
    }
}

/// A float literal holds no whitespace and no `;`.
pub proof fn lemma_float_literal_plain(s: Seq<char>)
    requires
        is_float_literal(s),
    ensures
        forall|i: int| 0 <= i < s.len() ==> !crate::text::is_ws(#[trigger] s[i]) && s[i] != ';',
{
    let w = without_sign(s);
    let l = lower_chars(w);
    let off: int = if s.len() > 0 && (s[0] == '+' || s[0] == '-') {
        1
    } else {
        0
    };
    assert(forall|i: int| 0 <= i < l.len() ==> literal_char(#[trigger] l[i])) by {
        reveal_strlit("inf");
        reveal_strlit("infinity");
        reveal_strlit("nan");
        if is_number(l) {
            lemma_number_chars(l);
        }
    }
    assert forall|i: int| 0 <= i < s.len() implies !crate::text::is_ws(#[trigger] s[i]) && s[i]
        != ';' by {
        if i >= off {
            assert(w[i - off] == s[i]);
            assert(l[i - off] == ascii_lower(s[i]));
        }
    }
}

fn all_digits_between(v: &Vec<char>, lo: usize, hi: usize) -> (r: bool)
    requires
        lo <= hi <= v.len(),
    ensures
        r == all_digits(v@.subrange(lo as int, hi as int)),
{
    let mut i = lo;
    while i < hi
        invariant
            lo <= i <= hi <= v.len(),
            forall|k: int| lo <= k < i ==> is_digit(#[trigger] v@[k]),
        decreases hi - i,
    {
        if !('0' <= v[i] && v[i] <= '9') {
            assert(!is_digit(v@.subrange(lo as int, hi as int)[i - lo]));
            return false;
        }
        i = i + 1;
    }
    assert forall|k: int| 0 <= k < hi - lo implies is_digit(
        #[trigger] v@.subrange(lo as int, hi as int)[k],
    ) by {
        assert(v@.subrange(lo as int, hi as int)[k] == v@[lo + k]);
    }
    true
}

fn check_mantissa(m: &Vec<char>) -> (r: bool)
    ensures
        r == is_mantissa(m@),
{
    match find_first(m, '.') {
        None => m.len() > 0 && all_digits_between(m, 0, m.len()) && {
            assert(m@.subrange(0, m@.len() as int) =~= m@);
            true
        },
        Some(p) => {
            let a = all_digits_between(m, 0, p);
            let b = all_digits_between(m, p + 1, m.len());
            assert(m@.subrange(0, p as int) =~= m@.take(p as int));
            assert(m@.subrange(p + 1, m@.len() as int) =~= m@.skip(p + 1));
            m.len() > 1 && a && b
        },
    }
}

fn check_exponent(x: &Vec<char>) -> (r: bool)
    ensures
        r == is_exponent(x@),
{
    let start: usize = if x.len() > 0 && (x[0] == '+' || x[0] == '-') {
        1
    } else {
        0
    };
    assert(without_sign(x@) =~= x@.subrange(start as int, x@.len() as int));
    start < x.len() && all_digits_between(x, start, x.len())
}

/// Whether `str::parse::<f64>` reads `s` without error.
pub fn is_float_text(s: &Vec<char>) -> (r: bool)
    ensures
        r == is_float_literal(s@),
{
    let start: usize = if s.len() > 0 && (s[0] == '+' || s[0] == '-') {
        1
    } else {
        0
    };
    let mut l: Vec<char> = Vec::new();
    let mut i = start;
    while i < s.len()
        invariant
            start <= i <= s.len(),
            l@ == lower_chars(s@.subrange(start as int, i as int)),
        decreases s.len() - i,
    {
        l.push(to_ascii_lower(s[i]));
        i = i + 1;
        assert(l@ =~= lower_chars(s@.subrange(start as int, i as int)));
    }
    assert(without_sign(s@) =~= s@.subrange(start as int, s@.len() as int));
    if eq_str(&l, "inf") || eq_str(&l, "infinity") || eq_str(&l, "nan") {
        return true;
    }
    match find_first(&l, 'e') {
        None => check_mantissa(&l),
        Some(e) => {
            let m = slice_vec(&l, 0, e);
            let x = slice_vec(&l, e + 1, l.len());
            assert(m@ =~= l@.take(e as int));
            assert(x@ =~= l@.skip(e + 1));
            check_mantissa(&m) && check_exponent(&x)
        },
    }
}

} // verus!
