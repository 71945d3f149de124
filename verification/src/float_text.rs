//! The text that Rust's `Display` writes for the `f64` read from a float literal.
//!
//! `Display` writes an `f64` as the shortest decimal that reads back as the same value, in
//! plain notation: no exponent, no leading `+`, no superfluous zeros. Where a literal has at
//! most fifteen significant digits and its value lies in the normal range of `f64`
//! (`1e-307 ..= 9.99e307` in magnitude), that decimal is the literal's own value: no two such
//! decimals read as the same `f64`. There the text is computed from the digits alone. For a
//! literal with more digits, or one that underflows or overflows, the `f64` is rounded, and
//! the literal is kept as it was written.
use vstd::prelude::*;
use crate::number::{
    digits_value, is_digit, is_float_literal, is_number, lower_chars, without_sign,
};
use crate::text::{find_char, find_first, slice_vec, to_ascii_lower};

verus! {

/// The mantissa of a number literal: the text before its exponent.
pub open spec fn mantissa_of(l: Seq<char>) -> Seq<char> {
    match find_char(l, 'e') {
        Some(e) => l.take(e),
        None => l,
    }
}

/// The digits before the point.
pub open spec fn int_part(l: Seq<char>) -> Seq<char> {
    let m = mantissa_of(l);
    match find_char(m, '.') {
        Some(p) => m.take(p),
        None => m,
    }
}

/// The digits after the point.
pub open spec fn frac_part(l: Seq<char>) -> Seq<char> {
    let m = mantissa_of(l);
    match find_char(m, '.') {
        Some(p) => m.skip(p + 1),
        None => seq![],
    }
}

/// The value of an exponent: an optional sign, then digits.
pub open spec fn signed_value(x: Seq<char>) -> int {
    if x.len() > 0 && x[0] == '-' {
        -(digits_value(x.drop_first()) as int)
    } else {
        digits_value(without_sign(x)) as int
    }
}

/// The exponent of a number literal, 0 where it has none.
pub open spec fn exponent_value(l: Seq<char>) -> int {
    match find_char(l, 'e') {
        Some(e) => signed_value(l.skip(e + 1)),
        None => 0,
    }
}

/// The number of `0` characters that `s` starts with.
pub open spec fn leading_zeros(s: Seq<char>) -> nat
    decreases s.len(),
{
    if s.len() > 0 && s[0] == '0' {
        1 + leading_zeros(s.drop_first())
    } else {
        0
    }
}

/// The number of `0` characters that `s` ends with.
pub open spec fn trailing_zeros(s: Seq<char>) -> nat
    decreases s.len(),
{
    if s.len() > 0 && s.last() == '0' {
        1 + trailing_zeros(s.drop_last())
    } else {
        0
    }
}

/// `n` zeros.
pub open spec fn zeros(n: nat) -> Seq<char> {
    Seq::new(n, |i: int| '0')
}

/// The digits of a literal without the leading zeros.
pub open spec fn stripped(l: Seq<char>) -> Seq<char> {
    let all = int_part(l) + frac_part(l);
    all.skip(leading_zeros(all) as int)
}

/// The significant digits of a number literal: its digits without leading and trailing
/// zeros; empty for zero.
pub open spec fn significand(l: Seq<char>) -> Seq<char> {
    let r = stripped(l);
    r.take(r.len() - trailing_zeros(r))
}

/// The power of ten that the significant digits are scaled by.
pub open spec fn scale(l: Seq<char>) -> int {
    exponent_value(l) - frac_part(l).len() + trailing_zeros(stripped(l))
}

/// The digits `d` scaled by `10^q`, written in plain decimal notation.
pub open spec fn plain_decimal(d: Seq<char>, q: int) -> Seq<char> {
    if q >= 0 {
        d + zeros(q as nat)
    } else if d.len() + q > 0 {
        d.take(d.len() + q) + seq!['.'] + d.skip(d.len() + q)
    } else {
        seq!['0', '.'] + zeros((-(d.len() + q)) as nat) + d
    }
}

/// Whether the `f64` read from significant digits `d` scaled by `10^q` is written back with
/// exactly those digits: at most fifteen of them, in the normal range.
pub open spec fn exact_digits(d: Seq<char>, q: int) -> bool {
    &&& d.len() <= 15
    &&& -307 <= d.len() - 1 + q <= 307
}

/// The text that `Display` writes for the `f64` read from the float literal `s`, where the
/// digits determine it, and `s` itself otherwise.
pub open spec fn display_text(s: Seq<char>) -> Seq<char> {
    let sign: Seq<char> = if s.len() > 0 && s[0] == '-' {
        seq!['-']
    } else {
        seq![]
    };
    let l = lower_chars(without_sign(s));
    if l == "inf"@ || l == "infinity"@ {
        sign + "inf"@
    } else if l == "nan"@ {
        "NaN"@
    } else if significand(l).len() == 0 {
        sign + seq!['0']
    } else if exact_digits(significand(l), scale(l)) {
        sign + plain_decimal(significand(l), scale(l))
    } else {
        s
    }
}

/// A bound past which an exponent's digits need not be read exactly: with it, the
/// exponent leaves the normal range of `f64` whatever the length of the literal.
pub const EXPONENT_CAP: u128 = 0x4_0000_0000_0000_0000u128;

/// `n`, or [`EXPONENT_CAP`] where `n` is larger.
pub open spec fn capped(n: nat) -> nat {
    if n < EXPONENT_CAP {
        n
    } else {
        EXPONENT_CAP as nat
    }
}

/// The characters `v[lo..]`, lowercased.
fn lower_from(v: &Vec<char>, lo: usize) -> (r: Vec<char>)
    requires
        lo <= v.len(),
    ensures
        r@ == lower_chars(v@.subrange(lo as int, v@.len() as int)),
{
    let mut r: Vec<char> = Vec::new();
    let mut i = lo;
    while i < v.len()
        invariant
            lo <= i <= v.len(),
            r@ == lower_chars(v@.subrange(lo as int, i as int)),
        decreases v.len() - i,
    {
        r.push(to_ascii_lower(v[i]));
        i = i + 1;
        assert(r@ =~= lower_chars(v@.subrange(lo as int, i as int)));
    }
    r
}

/// Appends the characters of `v` to `out`.
fn extend_chars(out: &mut Vec<char>, v: &Vec<char>)
    ensures
        final(out)@ == old(out)@ + v@,
{
    let mut i: usize = 0;
    while i < v.len()
        invariant
            i <= v.len(),
            out@ == old(out)@ + v@.take(i as int),
        decreases v.len() - i,
    {
        out.push(v[i]);
        assert(v@.take(i + 1) =~= v@.take(i as int).push(v@[i as int]));
        i = i + 1;
    }
    assert(v@.take(v@.len() as int) =~= v@);
}

/// Appends `n` zeros to `out`.
fn push_zeros(out: &mut Vec<char>, n: usize)
    ensures
        final(out)@ == old(out)@ + zeros(n as nat),
{
    let mut i: usize = 0;
    while i < n
        invariant
            i <= n,
            out@ == old(out)@ + zeros(i as nat),
        decreases n - i,
    {
        out.push('0');
        assert(zeros((i + 1) as nat) =~= zeros(i as nat).push('0'));
        i = i + 1;
    }
}

/// The number of `0` characters that `v` starts with.
fn count_leading_zeros(v: &Vec<char>) -> (n: usize)
    ensures
        n == leading_zeros(v@),
        n <= v.len(),
{
    let mut i: usize = 0;
    assert(v@.skip(0) =~= v@);
    while i < v.len() && v[i] == '0'
        invariant
            i <= v.len(),
            leading_zeros(v@) == i + leading_zeros(v@.skip(i as int)),
        decreases v.len() - i,
    {
        assert(v@.skip(i as int).drop_first() =~= v@.skip(i + 1));
        i = i + 1;
    }
    i
}

/// The number of `0` characters that `v` ends with.
fn count_trailing_zeros(v: &Vec<char>) -> (n: usize)
    ensures
        n == trailing_zeros(v@),
        n <= v.len(),
{
    let mut j: usize = v.len();
    assert(v@.take(j as int) =~= v@);
    while j > 0 && v[j - 1] == '0'
        invariant
            j <= v.len(),
            trailing_zeros(v@) == (v.len() - j) + trailing_zeros(v@.take(j as int)),
        decreases j,
    {
        assert(v@.take(j as int).drop_last() =~= v@.take(j - 1));
        j = j - 1;
    }
    v.len() - j
}

/// The value of the digits `v[lo..]`, capped at [`EXPONENT_CAP`].
fn capped_digits(v: &Vec<char>, lo: usize) -> (r: u128)
    requires
        lo <= v.len(),
        forall|k: int| lo <= k < v.len() ==> is_digit(#[trigger] v@[k]),
    ensures
        r == capped(digits_value(v@.subrange(lo as int, v@.len() as int))),
{
    let mut r: u128 = 0;
    let mut i = lo;
    assert(v@.subrange(lo as int, lo as int) =~= Seq::<char>::empty());
    while i < v.len()
        invariant
            lo <= i <= v.len(),
            forall|k: int| lo <= k < v.len() ==> is_digit(#[trigger] v@[k]),
            r == capped(digits_value(v@.subrange(lo as int, i as int))),
        decreases v.len() - i,
    {
        let ghost before = digits_value(v@.subrange(lo as int, i as int));
        assert(v@.subrange(lo as int, i + 1).drop_last() =~= v@.subrange(lo as int, i as int));
        assert(is_digit(v@[i as int]));
        let d = (v[i] as u32 - '0' as u32) as u128;
        if r < EXPONENT_CAP {
            let w = r * 10 + d;
            r = if w < EXPONENT_CAP {
                w
            } else {
                EXPONENT_CAP
            };
        }
        i = i + 1;
    }
    r
}

/// The digits before and after the point of a number literal.
fn split_number(l: &Vec<char>) -> (r: (Vec<char>, Vec<char>))
    ensures
        r.0@ == int_part(l@),
        r.1@ == frac_part(l@),
{
    let e_at = find_first(l, 'e');
    let m = match e_at {
        Some(e) => slice_vec(l, 0, e),
        None => slice_vec(l, 0, l.len()),
    };
    assert(m@ =~= mantissa_of(l@));
    match find_first(&m, '.') {
        Some(p) => {
            let a = slice_vec(&m, 0, p);
            let b = slice_vec(&m, p + 1, m.len());
            assert(a@ =~= int_part(l@));
            assert(b@ =~= frac_part(l@));
            (a, b)
        },
        None => {
            let a = slice_vec(&m, 0, m.len());
            assert(a@ =~= int_part(l@));
            assert(Seq::<char>::empty() =~= frac_part(l@));
            (a, Vec::new())
        },
    }
}

/// The significant digits of a number literal, the number of digits after its point, and
/// the number of trailing zeros dropped from them.
fn significant_digits(l: &Vec<char>) -> (r: (Vec<char>, usize, usize))
    ensures
        r.0@ == significand(l@),
        r.1 == frac_part(l@).len(),
        r.2 == trailing_zeros(stripped(l@)),
        r.2 <= usize::MAX,
{
    let (a, b) = split_number(l);
    let blen = b.len();
    let mut all = a;
    extend_chars(&mut all, &b);
    let lz = count_leading_zeros(&all);
    let rest = slice_vec(&all, lz, all.len());
    assert(rest@ =~= stripped(l@));
    let tz = count_trailing_zeros(&rest);
    let d = slice_vec(&rest, 0, rest.len() - tz);
    assert(d@ =~= significand(l@));
    (d, blen, tz)
}

/// The sign and the capped magnitude of the exponent of a number literal.
fn read_exponent(l: &Vec<char>) -> (r: (bool, u128))
    requires
        is_number(l@),
    ensures
        r.1 <= EXPONENT_CAP,
        r.1 < EXPONENT_CAP ==> exponent_value(l@) == if r.0 {
            -(r.1 as int)
        } else {
            r.1 as int
        },
        r.1 == EXPONENT_CAP ==> if r.0 {
            exponent_value(l@) <= -(EXPONENT_CAP as int)
        } else {
            exponent_value(l@) >= EXPONENT_CAP as int
        },
{
    match find_first(l, 'e') {
        Some(e) => {
            let x = slice_vec(l, e + 1, l.len());
            assert(x@ =~= l@.skip(e + 1));
            assert(crate::number::is_exponent(x@));
            let xs: usize = if x.len() > 0 && (x[0] == '+' || x[0] == '-') {
                1
            } else {
                0
            };
            assert(without_sign(x@) =~= x@.subrange(xs as int, x@.len() as int));
            assert forall|k: int| xs <= k < x.len() implies is_digit(#[trigger] x@[k]) by {
                assert(without_sign(x@)[k - xs] == x@[k]);
            }
            let exp_neg = x.len() > 0 && x[0] == '-';
            if exp_neg {
                assert(x@.drop_first() =~= x@.subrange(xs as int, x@.len() as int));
            }
            let magnitude = capped_digits(&x, xs);
            (exp_neg, magnitude)
        },
        None => (false, 0),
    }
}

/// Appends the digits `d` scaled by `10^q`, in plain decimal notation, to `out`.
fn push_plain_decimal(out: &mut Vec<char>, d: &Vec<char>, q: i128)
    requires
        1 <= d.len() <= 15,
        -400 <= q <= 400,
    ensures
        final(out)@ == old(out)@ + plain_decimal(d@, q as int),
{
    let k = d.len();
    if q >= 0 {
        extend_chars(out, d);
        push_zeros(out, q as usize);
        assert(final(out)@ =~= old(out)@ + plain_decimal(d@, q as int));
    } else {
        let p: i128 = k as i128 + q;
        if p > 0 {
            let head = slice_vec(d, 0, p as usize);
            let tail = slice_vec(d, p as usize, k);
            extend_chars(out, &head);
            out.push('.');
            extend_chars(out, &tail);
            assert(final(out)@ =~= old(out)@ + plain_decimal(d@, q as int));
        } else {
            out.push('0');
            out.push('.');
            push_zeros(out, (-p) as usize);
            extend_chars(out, d);
            assert(final(out)@ =~= old(out)@ + plain_decimal(d@, q as int));
        }
    }
}

/// Deciding exactness on the capped exponent decides it as on the exponent itself: past the
/// cap, the value leaves the normal range whatever the lengths involved.
proof fn lemma_capped_exactness(k: int, blen: int, tz: int, ev: int, exp_neg: bool, magnitude: int)
    requires
        1 <= k <= usize::MAX,
        0 <= blen <= usize::MAX,
        0 <= tz <= usize::MAX,
        0 <= magnitude <= EXPONENT_CAP,
        magnitude < EXPONENT_CAP ==> ev == if exp_neg {
            -magnitude
        } else {
            magnitude
        },
        magnitude == EXPONENT_CAP ==> if exp_neg {
            ev <= -(EXPONENT_CAP as int)
        } else {
            ev >= EXPONENT_CAP as int
        },
    ensures
        ({
            let expo = if exp_neg {
                -magnitude
            } else {
                magnitude
            };
            -307 <= k - 1 + expo - blen + tz <= 307 <==> -307 <= k - 1 + ev - blen + tz <= 307
        }),
{
    assert(usize::MAX < 0x1_0000_0000_0000_0000int) by {
        assert(usize::MAX <= u64::MAX);
    }
}

/// The text that `Display` writes for the `f64` that `str::parse::<f64>` reads from the
/// float literal `s`: plain decimal notation without superfluous zeros, `inf`, `-inf` or
/// `NaN`. Where the digits do not determine that text (more than fifteen significant digits,
/// or a value outside the normal range), `s` as it is.
pub fn display_float(s: &Vec<char>) -> (r: Vec<char>)
    requires
        is_float_literal(s@),
    ensures
        r@ == display_text(s@),
{
    let neg = s.len() > 0 && s[0] == '-';
    let start: usize = if s.len() > 0 && (s[0] == '+' || s[0] == '-') {
        1
    } else {
        0
    };
    assert(without_sign(s@) =~= s@.subrange(start as int, s@.len() as int));
    let l = lower_from(s, start);
    let ghost sign: Seq<char> = if neg {
        seq!['-']
    } else {
        seq![]
    };
    let mut out: Vec<char> = Vec::new();
    if neg {
        out.push('-');
    }
    assert(out@ =~= sign);
    if crate::text::eq_str(&l, "inf") || crate::text::eq_str(&l, "infinity") {
        let inf = crate::text::chars_of("inf");
        extend_chars(&mut out, &inf);
        return out;
    }
    if crate::text::eq_str(&l, "nan") {
        return crate::text::chars_of("NaN");
    }
    assert(is_number(l@));
    let (d, blen, tz) = significant_digits(&l);
    if d.len() == 0 {
        out.push('0');
        return out;
    }
    let (exp_neg, magnitude) = read_exponent(&l);
    let expo: i128 = if exp_neg {
        -(magnitude as i128)
    } else {
        magnitude as i128
    };
    let k = d.len();
    proof {
        lemma_capped_exactness(
            k as int,
            blen as int,
            tz as int,
            exponent_value(l@),
            exp_neg,
            magnitude as int,
        );
    }
    let e10: i128 = k as i128 - 1 + expo - blen as i128 + tz as i128;
    if !(k <= 15 && -307 <= e10 && e10 <= 307) {
        return slice_vec(s, 0, s.len());
    }
    let q: i128 = expo - blen as i128 + tz as i128;
    assert(q == scale(l@));
    push_plain_decimal(&mut out, &d, q);
    out
}

} // verus!
