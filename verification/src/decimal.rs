//! Coordinates and sizes of SVG text, kept as decimals to four places: the precision in
//! which the post-processing writes coordinates back.
use vstd::prelude::*;
use crate::text::{decimal, digit_char, find, find_in, matches_at, push_decimal, lemma_find_from_bounds};
use crate::glyph_overlap::{exp_at_from, exp_mark_win, exponent_ok, exponent_ok_win, mantissa_ok, mantissa_ok_win};

verus! {

/// A decimal number `±units / 10000`. The sign is kept apart from the magnitude so that a
/// negative value that rounds to zero is still written with its sign.
#[derive(Clone, Copy, Debug, PartialEq, Eq, Structural)]
pub struct Fixed4 {
    pub negative: bool,
    pub units: u64,
}

/// The value in ten-thousandths.
pub open spec fn fixed_value(f: Fixed4) -> int {
    if f.negative {
        -(f.units as int)
    } else {
        f.units as int
    }
}

pub open spec fn is_digit(c: char) -> bool {
    0x30 <= (c as u32) && (c as u32) <= 0x39
}

pub open spec fn digit_val(c: char) -> nat {
    ((c as u32) - 0x30) as nat
}

pub open spec fn all_digits(s: Seq<char>) -> bool {
    forall|i: int| 0 <= i < s.len() ==> is_digit(#[trigger] s[i])
}

/// The value of a string of decimal digits.
pub open spec fn digits_value(s: Seq<char>) -> nat
    decreases s.len(),
{
    if s.len() == 0 {
        0
    } else {
        10 * digits_value(s.drop_last()) + digit_val(s.last())
    }
}

pub open spec fn pow10(n: nat) -> nat
    decreases n,
{
    if n == 0 {
        1
    } else {
        10 * pow10((n - 1) as nat)
    }
}

/// Fraction digit `k` (0-based), or 0 past the written digits.
pub open spec fn frac_digit(fp: Seq<char>, k: int) -> nat {
    if k < fp.len() {
        digit_val(fp[k])
    } else {
        0
    }
}

/// The fraction digits in ten-thousandths, rounded half up on the fifth digit.
pub open spec fn frac_units(fp: Seq<char>) -> nat {
    1000 * frac_digit(fp, 0) + 100 * frac_digit(fp, 1) + 10 * frac_digit(fp, 2) + frac_digit(fp, 3)
        + if fp.len() > 4 && digit_val(fp[4]) >= 5 {
        1nat
    } else {
        0nat
    }
}

/// The digits before the point.
pub open spec fn int_part(body: Seq<char>) -> Seq<char> {
    match find(body, seq!['.']) {
        Some(k) => body.take(k),
        None => body,
    }
}

/// The digits after the point.
pub open spec fn frac_part(body: Seq<char>) -> Seq<char> {
    match find(body, seq!['.']) {
        Some(k) => body.skip(k + 1),
        None => Seq::empty(),
    }
}

pub open spec fn has_sign(s: Seq<char>) -> bool {
    s.len() > 0 && (s[0] == '-' || s[0] == '+')
}

/// The value of a sign-stripped decimal `digits[.digits]` (either digit string may be empty,
/// not both), below 10^14, to four places.
pub open spec fn plain_decimal(negative: bool, body: Seq<char>) -> Option<Fixed4> {
    let ip = int_part(body);
    let fp = frac_part(body);
    if all_digits(ip) && all_digits(fp) && ip.len() + fp.len() > 0 && digits_value(ip) < pow10(14) {
        Some(
            Fixed4 {
                negative,
                units: (digits_value(ip) * 10000 + frac_units(fp)) as u64,
            },
        )
    } else {
        None
    }
}

/// `n` zero digits.
pub open spec fn zeros(n: int) -> Seq<char> {
    Seq::new(n as nat, |i: int| '0')
}

/// The signed value of an exponent `Sign? Digit+`.
pub open spec fn exp_value(e: Seq<char>) -> int {
    let d = if e.len() > 0 && (e[0] == '+' || e[0] == '-') {
        e.drop_first()
    } else {
        e
    };
    if e.len() > 0 && e[0] == '-' {
        -(digits_value(d) as int)
    } else {
        digits_value(d) as int
    }
}

/// The mantissa `m` with its point moved `e` places to the right, written without an
/// exponent.
pub open spec fn shifted_body(m: Seq<char>, e: int) -> Seq<char> {
    place_point(int_part(m) + frac_part(m), int_part(m).len() + e)
}

/// Reads a number as `f64::from_str` does: an optional sign, a mantissa `Digit+`,
/// `Digit+ '.' Digit*` or `Digit* '.' Digit+`, and an optional exponent `('e' | 'E') Sign?
/// Digit+`, of absolute value below 10^14, kept to four places. `inf`, `NaN` and larger
/// values, which a four-place decimal cannot hold, are not read.
pub open spec fn parse_decimal(s: Seq<char>) -> Option<Fixed4> {
    let negative = s.len() > 0 && s[0] == '-';
    let body = if has_sign(s) {
        s.drop_first()
    } else {
        s
    };
    match exp_at_from(body, 0) {
        None => plain_decimal(negative, body),
        Some(k) => if mantissa_ok(body.take(k)) && exponent_ok(body.skip(k + 1)) {
            plain_decimal(negative, shifted_body(body.take(k), exp_value(body.skip(k + 1))))
        } else {
            None
        },
    }
}

proof fn lemma_exp_at_bounds(b: Seq<char>, i: int)
    requires
        0 <= i,
    ensures
        exp_at_from(b, i) matches Some(k) ==> i <= k < b.len(),
    decreases b.len() - i,
{
    if i < b.len() {
        lemma_exp_at_bounds(b, i + 1);
    }
}

proof fn lemma_dv_zero_prefix(c: char, x: Seq<char>)
    requires
        c as u32 == 0x30,
    ensures
        digits_value(seq![c] + x) == digits_value(x),
    decreases x.len(),
{
    let y = seq![c] + x;
    if x.len() == 0 {
        assert(y.drop_last() =~= Seq::<char>::empty());
        assert(y.last() == c);
        assert(digits_value(Seq::<char>::empty()) == 0);
        assert(digits_value(y) == 10 * digits_value(y.drop_last()) + digit_val(y.last()));
    } else {
        assert(y.drop_last() =~= seq![c] + x.drop_last());
        assert(y.last() == x.last());
        lemma_dv_zero_prefix(c, x.drop_last());
        assert(digits_value(y) == 10 * digits_value(y.drop_last()) + digit_val(y.last()));
        assert(digits_value(x) == 10 * digits_value(x.drop_last()) + digit_val(x.last()));
    }
}

proof fn lemma_dv_zeros_suffix(x: Seq<char>, n: nat)
    ensures
        digits_value(x + zeros(n as int)) == digits_value(x) * pow10(n),
    decreases n,
{
    if n == 0 {
        assert(x + zeros(0) =~= x);
        assert(pow10(0) == 1);
    } else {
        let y = x + zeros(n as int);
        assert(y.drop_last() =~= x + zeros(n - 1));
        assert(y.last() == '0');
        assert(('0' as u32) == 0x30);
        assert(digits_value(y) == 10 * digits_value(y.drop_last()) + digit_val(y.last()));
        lemma_dv_zeros_suffix(x, (n - 1) as nat);
        assert(pow10(n) == 10 * pow10((n - 1) as nat));
        assert(digits_value(x) * pow10(n) == 10 * (digits_value(x) * pow10((n - 1) as nat)))
            by (nonlinear_arith)
            requires
                pow10(n) == 10 * pow10((n - 1) as nat),
        ;
    }
}

proof fn lemma_dv_leading(x: Seq<char>)
    requires
        x.len() > 0,
        all_digits(x),
        x[0] as u32 != 0x30,
    ensures
        digits_value(x) >= pow10((x.len() - 1) as nat),
    decreases x.len(),
{
    assert(digits_value(x) == 10 * digits_value(x.drop_last()) + digit_val(x.last()));
    assert(is_digit(x.last()));
    if x.len() == 1 {
        assert(x.drop_last() =~= Seq::<char>::empty());
        assert(digits_value(Seq::<char>::empty()) == 0);
        assert(is_digit(x[0]));
        assert(('0' as u32) == 0x30);
        assert(pow10(0) == 1);
    } else {
        assert(all_digits(x.drop_last())) by {
            assert forall|i: int| 0 <= i < x.drop_last().len() implies is_digit(
                #[trigger] x.drop_last()[i],
            ) by {
                assert(x.drop_last()[i] == x[i]);
            }
        }
        assert(x.drop_last()[0] == x[0]);
        lemma_dv_leading(x.drop_last());
        assert(pow10((x.len() - 1) as nat) == 10 * pow10((x.len() - 2) as nat));
    }
}

proof fn lemma_dv_zero_all_zero(x: Seq<char>, j: int)
    requires
        all_digits(x),
        digits_value(x) == 0,
        0 <= j < x.len(),
    ensures
        x[j] as u32 == 0x30,
    decreases x.len(),
{
    assert(is_digit(x.last()));
    assert(digits_value(x) == 10 * digits_value(x.drop_last()) + digit_val(x.last()));
    assert(('0' as u32) == 0x30);
    if j < x.len() - 1 {
        assert(all_digits(x.drop_last())) by {
            assert forall|i: int| 0 <= i < x.drop_last().len() implies is_digit(
                #[trigger] x.drop_last()[i],
            ) by {
                assert(x.drop_last()[i] == x[i]);
            }
        }
        assert(x.drop_last()[j] == x[j]);
        lemma_dv_zero_all_zero(x.drop_last(), j);
    }
}

proof fn lemma_dv_all_zero(x: Seq<char>)
    requires
        forall|i: int| 0 <= i < x.len() ==> x[i] as u32 == 0x30,
    ensures
        digits_value(x) == 0,
    decreases x.len(),
{
    if x.len() > 0 {
        assert(digits_value(x) == 10 * digits_value(x.drop_last()) + digit_val(x.last()));
        assert forall|i: int| 0 <= i < x.drop_last().len() implies x.drop_last()[i] as u32 == 0x30 by {
            assert(x.drop_last()[i] == x[i]);
        }
        lemma_dv_all_zero(x.drop_last());
    }
}

proof fn lemma_no_point_in_digits(x: Seq<char>)
    requires
        all_digits(x),
    ensures
        find(x, seq!['.']) is None,
        int_part(x) == x,
        frac_part(x) == Seq::<char>::empty(),
{
    lemma_find_from_bounds(x, seq!['.'], 0);
    if let Some(k) = find(x, seq!['.']) {
        assert(x.subrange(k, k + 1)[0] == x[k]);
        assert(x[k] == '.');
        assert(is_digit(x[k]));
        assert(false);
    }
}

proof fn lemma_digits_value_bound(s: Seq<char>)
    requires
        all_digits(s),
    ensures
        digits_value(s) < pow10(s.len()),
    decreases s.len(),
{
    if s.len() > 0 {
        assert(all_digits(s.drop_last())) by {
            assert forall|i: int| 0 <= i < s.drop_last().len() implies is_digit(
                #[trigger] s.drop_last()[i],
            ) by {
                assert(s.drop_last()[i] == s[i]);
            }
        }
        lemma_digits_value_bound(s.drop_last());
        assert(is_digit(s[s.len() - 1]));
    }
}

proof fn lemma_pow10_14()
    ensures
        pow10(14) == 100000000000000,
{
    reveal_with_fuel(pow10, 15);
}

/// The value of the digits `s[lo..hi]`, all decimal digits, at most 14 of them.
fn digits_window_value(s: &Vec<char>, lo: usize, hi: usize) -> (v: u64)
    requires
        lo <= hi <= s.len(),
        hi - lo <= 14,
        all_digits(s@.subrange(lo as int, hi as int)),
    ensures
        v == digits_value(s@.subrange(lo as int, hi as int)),
        v < 100000000000000,
{
    let mut v: u64 = 0;
    let mut i = lo;
    proof {
        lemma_pow10_14();
    }
    while i < hi
        invariant
            lo <= i <= hi <= s.len(),
            hi - lo <= 14,
            all_digits(s@.subrange(lo as int, hi as int)),
            v == digits_value(s@.subrange(lo as int, i as int)),
            v < pow10((i - lo) as nat),
            pow10(14) == 100000000000000,
        decreases hi - i,
    {
        assert(s@.subrange(lo as int, i + 1).drop_last() =~= s@.subrange(lo as int, i as int));
        assert(s@.subrange(lo as int, hi as int)[i - lo] == s@[i as int]);
        assert(is_digit(s@[i as int]));
        proof {
            lemma_pow10_mono((i + 1 - lo) as nat, 14);
        }
        let d = (s[i] as u32 - 0x30) as u64;
        v = v * 10 + d;
        i = i + 1;
    }
    proof {
        lemma_pow10_mono((hi - lo) as nat, 14);
    }
    v
}

proof fn lemma_pow10_mono(a: nat, b: nat)
    requires
        a <= b,
    ensures
        pow10(a) <= pow10(b),
    decreases b,
{
    if a < b {
        lemma_pow10_mono(a, (b - 1) as nat);
    }
}

/// Whether every character of `s[lo..hi]` is a decimal digit.
pub(crate) fn window_all_digits(s: &Vec<char>, lo: usize, hi: usize) -> (r: bool)
    requires
        lo <= hi <= s.len(),
    ensures
        r == all_digits(s@.subrange(lo as int, hi as int)),
{
    let mut i = lo;
    while i < hi
        invariant
            lo <= i <= hi <= s.len(),
            forall|k: int| lo <= k < i ==> is_digit(#[trigger] s@[k]),
        decreases hi - i,
    {
        let u = s[i] as u32;
        if !(0x30 <= u && u <= 0x39) {
            assert(s@.subrange(lo as int, hi as int)[i - lo] == s@[i as int]);
            return false;
        }
        i = i + 1;
    }
    assert forall|k: int| 0 <= k < hi - lo implies is_digit(
        #[trigger] s@.subrange(lo as int, hi as int)[k],
    ) by {
        assert(s@.subrange(lo as int, hi as int)[k] == s@[lo + k]);
    }
    true
}

fn digit_at(s: &Vec<char>, lo: usize, hi: usize, k: usize) -> (d: u64)
    requires
        lo <= hi <= s.len(),
        all_digits(s@.subrange(lo as int, hi as int)),
    ensures
        d == frac_digit(s@.subrange(lo as int, hi as int), k as int),
        d < 10,
{
    if k < hi - lo {
        assert(s@.subrange(lo as int, hi as int)[k as int] == s@[lo + k]);
        assert(is_digit(s@.subrange(lo as int, hi as int)[k as int]));
        (s[lo + k] as u32 - 0x30) as u64
    } else {
        0
    }
}

/// The windows of the digits before and after the point in `s[b..hi]`.
fn split_at_point(s: &Vec<char>, b: usize, hi: usize) -> (r: (usize, usize))
    requires
        b <= hi <= s.len(),
    ensures
        b <= r.0 <= r.1 <= hi,
        s@.subrange(b as int, r.0 as int) == int_part(s@.subrange(b as int, hi as int)),
        s@.subrange(r.1 as int, hi as int) == frac_part(s@.subrange(b as int, hi as int)),
{
    let ghost body = s@.subrange(b as int, hi as int);
    let dot: Vec<char> = vec!['.'];
    assert(dot@ =~= seq!['.']);
    match find_in(s, &dot, b, hi) {
        Some(k) => {
            proof {
                lemma_find_from_bounds(body, seq!['.'], 0);
                if let Some(j) = find(body, seq!['.']) {
                    assert(k == b + j);
                }
            }
            assert(find(body, seq!['.']) == Some((k - b) as int));
            assert(s@.subrange(b as int, k as int) =~= body.take(k - b));
            assert(s@.subrange(k + 1, hi as int) =~= body.skip(k - b + 1));
            (k, k + 1)
        },
        None => {
            assert(s@.subrange(hi as int, hi as int) =~= Seq::<char>::empty());
            (hi, hi)
        },
    }
}

/// Reads the sign-stripped plain decimal `s[b..hi]`.
fn plain_decimal_window(s: &Vec<char>, b: usize, hi: usize, negative: bool) -> (r: Option<Fixed4>)
    requires
        b <= hi <= s.len(),
    ensures
        r == plain_decimal(negative, s@.subrange(b as int, hi as int)),
{
    let (ip_hi, fp_lo) = split_at_point(s, b, hi);
    if !window_all_digits(s, b, ip_hi) || !window_all_digits(s, fp_lo, hi) {
        return None;
    }
    if (ip_hi - b) + (hi - fp_lo) == 0 {
        return None;
    }
    // Leading zeros do not change the value.
    let mut z = b;
    while z < ip_hi && s[z] as u32 == 0x30
        invariant
            b <= z <= ip_hi <= s.len(),
            all_digits(s@.subrange(b as int, ip_hi as int)),
            digits_value(s@.subrange(z as int, ip_hi as int)) == digits_value(
                s@.subrange(b as int, ip_hi as int),
            ),
        decreases ip_hi - z,
    {
        assert(s@.subrange(z as int, ip_hi as int) =~= seq![s@[z as int]] + s@.subrange(
            z + 1,
            ip_hi as int,
        ));
        proof {
            lemma_dv_zero_prefix(s@[z as int], s@.subrange(z + 1, ip_hi as int));
        }
        z = z + 1;
    }
    let ghost rest = s@.subrange(z as int, ip_hi as int);
    assert(all_digits(rest)) by {
        assert forall|i: int| 0 <= i < rest.len() implies is_digit(#[trigger] rest[i]) by {
            assert(rest[i] == s@.subrange(b as int, ip_hi as int)[z - b + i]);
        }
    }
    proof {
        lemma_pow10_14();
    }
    if ip_hi - z > 14 {
        proof {
            assert(rest[0] == s@[z as int]);
            lemma_dv_leading(rest);
            lemma_pow10_mono(14, (rest.len() - 1) as nat);
        }
        return None;
    }
    let ip = digits_window_value(s, z, ip_hi);
    proof {
        lemma_digits_value_bound(rest);
        lemma_pow10_mono(rest.len(), 14);
    }
    let f0 = digit_at(s, fp_lo, hi, 0);
    let f1 = digit_at(s, fp_lo, hi, 1);
    let f2 = digit_at(s, fp_lo, hi, 2);
    let f3 = digit_at(s, fp_lo, hi, 3);
    let round_up: u64 = if hi - fp_lo > 4 && digit_at(s, fp_lo, hi, 4) >= 5 {
        1
    } else {
        0
    };
    let units = ip * 10000 + 1000 * f0 + 100 * f1 + 10 * f2 + f3 + round_up;
    Some(Fixed4 { negative, units })
}

proof fn lemma_tiny(negative: bool, d: Seq<char>, n: int)
    requires
        all_digits(d),
        n >= 5,
    ensures
        plain_decimal(negative, seq!['0', '.'] + zeros(n) + d) == Some(Fixed4 { negative, units: 0 }),
{
    let x = seq!['0', '.'] + zeros(n) + d;
    assert(x.subrange(0, 1) =~= seq!['0']);
    assert(x.subrange(1, 2) =~= seq!['.']);
    assert(!matches_at(x, seq!['.'], 0));
    assert(matches_at(x, seq!['.'], 1));
    assert(crate::text::find_from(x, seq!['.'], 1) == Some(1int));
    assert(crate::text::find_from(x, seq!['.'], 0) == Some(1int));
    assert(find(x, seq!['.']) == Some(1int));
    let ip = x.take(1);
    let fp = x.skip(2);
    assert(ip =~= seq!['0']);
    assert(ip.drop_last() =~= Seq::<char>::empty());
    assert(('0' as u32) == 0x30);
    assert(digits_value(ip) == 10 * digits_value(ip.drop_last()) + digit_val(ip.last()));
    assert(digits_value(ip) == 0);
    assert(fp =~= zeros(n) + d);
    assert(all_digits(fp)) by {
        assert forall|i: int| 0 <= i < fp.len() implies is_digit(#[trigger] fp[i]) by {
            if i >= n {
                assert(fp[i] == d[i - n]);
            }
        }
    }
    assert(fp[0] == '0' && fp[1] == '0' && fp[2] == '0' && fp[3] == '0' && fp[4] == '0');
    assert(frac_digit(fp, 0) == 0 && frac_digit(fp, 1) == 0 && frac_digit(fp, 2) == 0
        && frac_digit(fp, 3) == 0);
    assert(frac_units(fp) == 0);
    assert(int_part(x) == ip && frac_part(x) == fp);
    lemma_pow10_14();
}

proof fn lemma_huge(negative: bool, d: Seq<char>, n: int)
    requires
        all_digits(d),
        d.len() > 0,
        n >= 14,
    ensures
        plain_decimal(negative, d + zeros(n)) == if forall|i: int| 0 <= i < d.len() ==> d[i] as u32 == 0x30 {
            Some(Fixed4 { negative, units: 0 })
        } else {
            None
        },
{
    let x = d + zeros(n);
    assert(all_digits(x)) by {
        assert forall|i: int| 0 <= i < x.len() implies is_digit(#[trigger] x[i]) by {
            if i < d.len() {
                assert(x[i] == d[i]);
            }
        }
    }
    lemma_no_point_in_digits(x);
    lemma_dv_zeros_suffix(d, n as nat);
    lemma_pow10_14();
    if forall|i: int| 0 <= i < d.len() ==> d[i] as u32 == 0x30 {
        lemma_dv_all_zero(d);
    } else {
        let j = choose|i: int| 0 <= i < d.len() && d[i] as u32 != 0x30;
        if digits_value(d) == 0 {
            lemma_dv_zero_all_zero(d, j);
        }
        lemma_pow10_mono(14, n as nat);
        assert(digits_value(d) * pow10(n as nat) >= pow10(n as nat)) by (nonlinear_arith)
            requires
                digits_value(d) >= 1,
        ;
    }
}

/// The digits of the mantissa `s[b..k]` without its point, and how many stand before it.
fn mantissa_digits(s: &Vec<char>, b: usize, k: usize) -> (r: (Vec<char>, usize))
    requires
        b <= k <= s.len(),
        mantissa_ok(s@.subrange(b as int, k as int)),
    ensures
        r.0@ == int_part(s@.subrange(b as int, k as int)) + frac_part(s@.subrange(b as int, k as int)),
        r.1 == int_part(s@.subrange(b as int, k as int)).len(),
        all_digits(r.0@),
        r.0@.len() > 0,
{
    let ghost m = s@.subrange(b as int, k as int);
    let (ip_hi, fp_lo) = split_at_point(s, b, k);
    let ghost ip = int_part(m);
    let ghost fp = frac_part(m);
    proof {
        lemma_find_from_bounds(m, seq!['.'], 0);
        if let Some(p) = find(m, seq!['.']) {
            assert(m.take(p).len() + m.skip(p + 1).len() == m.len() - 1);
        }
    }
    assert(all_digits(ip) && all_digits(fp) && ip.len() + fp.len() > 0);
    let mut d: Vec<char> = Vec::new();
    crate::svg_runs::extend_window(&mut d, s, b, ip_hi);
    crate::svg_runs::extend_window(&mut d, s, fp_lo, k);
    assert(d@ =~= ip + fp);
    let ghost dd = ip + fp;
    assert(all_digits(dd)) by {
        assert forall|i: int| 0 <= i < dd.len() implies is_digit(#[trigger] dd[i]) by {
            if i < ip.len() {
                assert(dd[i] == ip[i]);
            } else {
                assert(dd[i] == fp[i - ip.len()]);
            }
        }
    }
    (d, ip_hi - b)
}

/// Reads the exponent `s[lo..hi]`: whether it is negative, and its magnitude, read up to
/// `cap`, past which every magnitude is reported as `cap`.
fn read_exponent(s: &Vec<char>, lo: usize, hi: usize, cap: u128) -> (r: (bool, u128))
    requires
        lo < hi <= s.len(),
        exponent_ok(s@.subrange(lo as int, hi as int)),
        cap < 0x1_0000_0000_0000_0000_0000,
    ensures
        r.1 <= cap,
        r.1 < cap ==> exp_value(s@.subrange(lo as int, hi as int)) == if r.0 {
            -(r.1 as int)
        } else {
            r.1 as int
        },
        r.1 == cap ==> if r.0 {
            exp_value(s@.subrange(lo as int, hi as int)) <= -(cap as int)
        } else {
            exp_value(s@.subrange(lo as int, hi as int)) >= cap
        },
{
    let ghost ex = s@.subrange(lo as int, hi as int);
    let neg_e = s[lo] == '-';
    let es = if s[lo] == '+' || s[lo] == '-' {
        lo + 1
    } else {
        lo
    };
    let ghost ed = s@.subrange(es as int, hi as int);
    assert(ex[0] == s@[lo as int]);
    assert(ed =~= if ex.len() > 0 && (ex[0] == '+' || ex[0] == '-') {
        ex.drop_first()
    } else {
        ex
    });
    let mut v: u128 = 0;
    let mut i = es;
    while i < hi
        invariant
            es <= i <= hi <= s.len(),
            all_digits(s@.subrange(es as int, hi as int)),
            v <= cap,
            cap < 0x1_0000_0000_0000_0000_0000,
            v as int == if digits_value(s@.subrange(es as int, i as int)) >= cap {
                cap as int
            } else {
                digits_value(s@.subrange(es as int, i as int)) as int
            },
        decreases hi - i,
    {
        let ghost pre = s@.subrange(es as int, i as int);
        let ghost nxt = s@.subrange(es as int, i + 1);
        assert(nxt.drop_last() =~= pre);
        assert(s@.subrange(es as int, hi as int)[i - es] == s@[i as int]);
        assert(is_digit(s@[i as int]));
        assert(digits_value(nxt) == 10 * digits_value(pre) + digit_val(s@[i as int]));
        let dg = (s[i] as u32 - 0x30) as u128;
        if v < cap {
            let w: u128 = 10 * v + dg;
            v = if w >= cap {
                cap
            } else {
                w
            };
        }
        i = i + 1;
    }
    assert(s@.subrange(es as int, hi as int) =~= ed);
    (neg_e, v)
}

/// The digits `d` with a point placed `p` digits from their start, written without an
/// exponent: zeros fill in on the left when `p <= 0`, on the right when `p` passes the end.
pub open spec fn place_point(d: Seq<char>, p: int) -> Seq<char> {
    if p <= 0 {
        seq!['0', '.'] + zeros(-p) + d
    } else if p >= d.len() {
        d + zeros(p - d.len())
    } else {
        d.take(p) + seq!['.'] + d.skip(p)
    }
}

fn build_place_point(d: &Vec<char>, p: i128) -> (x: Vec<char>)
    requires
        -p <= 5,
        p - d.len() < 14,
    ensures
        x@ == place_point(d@, p as int),
{
    let dlen = d.len();
    let mut x: Vec<char> = Vec::new();
    if p <= 0 {
        x.push('0');
        x.push('.');
        let mut j: i128 = 0;
        while j < -p
            invariant
                0 <= j <= -p,
                -p <= 5,
                x@ == seq!['0', '.'] + zeros(j as int),
            decreases -p - j,
        {
            x.push('0');
            j = j + 1;
            assert(x@ =~= seq!['0', '.'] + zeros(j as int));
        }
        crate::svg_runs::extend_window(&mut x, d, 0, dlen);
        assert(d@.subrange(0, dlen as int) =~= d@);
    } else if p >= dlen as i128 {
        crate::svg_runs::extend_window(&mut x, d, 0, dlen);
        assert(d@.subrange(0, dlen as int) =~= d@);
        let mut j: i128 = 0;
        while j < p - dlen as i128
            invariant
                0 <= j <= p - dlen,
                p - dlen < 14,
                dlen == d@.len(),
                x@ == d@ + zeros(j as int),
            decreases p - dlen - j,
        {
            x.push('0');
            j = j + 1;
            assert(x@ =~= d@ + zeros(j as int));
        }
    } else {
        let pu = p as usize;
        crate::svg_runs::extend_window(&mut x, d, 0, pu);
        x.push('.');
        crate::svg_runs::extend_window(&mut x, d, pu, dlen);
        assert(d@.subrange(0, pu as int) =~= d@.take(p as int));
        assert(d@.subrange(pu as int, dlen as int) =~= d@.skip(p as int));
    }
    assert(x@ =~= place_point(d@, p as int));
    x
}

/// The number with mantissa `s[b..k]` and exponent `s[k + 1..hi]`.
fn exponent_form(s: &Vec<char>, b: usize, k: usize, hi: usize, negative: bool) -> (r: Option<Fixed4>)
    requires
        b <= k < hi <= s.len(),
        mantissa_ok(s@.subrange(b as int, k as int)),
        exponent_ok(s@.subrange(k + 1, hi as int)),
    ensures
        r == plain_decimal(
            negative,
            shifted_body(s@.subrange(b as int, k as int), exp_value(s@.subrange(k + 1, hi as int))),
        ),
{
    let ghost m = s@.subrange(b as int, k as int);
    let ghost ex = s@.subrange(k + 1, hi as int);
    let (d, iplen) = mantissa_digits(s, b, k);
    let dlen = d.len();
    let cap: u128 = dlen as u128 + iplen as u128 + 20;
    let (neg_e, v) = read_exponent(s, k + 1, hi, cap);
    let ghost p_true = iplen + exp_value(ex);
    assert(shifted_body(m, exp_value(ex)) == place_point(d@, p_true));
    if v == cap {
        if neg_e {
            proof {
                lemma_tiny(negative, d@, -p_true);
            }
            return Some(Fixed4 { negative, units: 0 });
        }
        proof {
            lemma_huge(negative, d@, p_true - dlen);
        }
        return huge_value(&d, negative);
    }
    let p: i128 = if neg_e {
        iplen as i128 - v as i128
    } else {
        iplen as i128 + v as i128
    };
    assert(p == p_true);
    if p <= -5 {
        proof {
            lemma_tiny(negative, d@, -p);
        }
        return Some(Fixed4 { negative, units: 0 });
    }
    if p >= dlen as i128 + 14 {
        proof {
            lemma_huge(negative, d@, p - dlen);
        }
        return huge_value(&d, negative);
    }
    let x = build_place_point(&d, p);
    assert(x@.subrange(0, x@.len() as int) =~= x@);
    plain_decimal_window(&x, 0, x.len(), negative)
}

/// The value of an exponent form whose digits stand at least 14 places before the point:
/// zero when every digit is zero, too large otherwise.
fn huge_value(d: &Vec<char>, negative: bool) -> (r: Option<Fixed4>)
    ensures
        r == if forall|i: int| 0 <= i < d@.len() ==> d@[i] as u32 == 0x30 {
            Some(Fixed4 { negative, units: 0 })
        } else {
            None
        },
{
    let mut i: usize = 0;
    while i < d.len()
        invariant
            i <= d@.len(),
            forall|j: int| 0 <= j < i ==> d@[j] as u32 == 0x30,
        decreases d@.len() - i,
    {
        if d[i] as u32 != 0x30 {
            return None;
        }
        i = i + 1;
    }
    Some(Fixed4 { negative, units: 0 })
}

/// Reads the number `s[lo..hi]`.
pub fn parse_decimal_window(s: &Vec<char>, lo: usize, hi: usize) -> (r: Option<Fixed4>)
    requires
        lo <= hi <= s.len(),
    ensures
        r == parse_decimal(s@.subrange(lo as int, hi as int)),
{
    let ghost w = s@.subrange(lo as int, hi as int);
    let signed = lo < hi && (s[lo] == '-' || s[lo] == '+');
    let negative = lo < hi && s[lo] == '-';
    let b = if signed {
        lo + 1
    } else {
        lo
    };
    let ghost body = s@.subrange(b as int, hi as int);
    assert(body =~= if has_sign(w) {
        w.drop_first()
    } else {
        w
    });
    let mark = exp_mark_win(s, b, hi);
    match mark {
        None => plain_decimal_window(s, b, hi, negative),
        Some(k) => {
            proof {
                lemma_exp_at_bounds(body, 0);
                if let Some(j) = exp_at_from(body, 0) {
                    assert(mark == Some((b + j) as usize));
                    assert(k == b + j);
                }
            }
            assert(exp_at_from(body, 0) == Some((k - b) as int));
            assert(s@.subrange(b as int, k as int) =~= body.take(k - b));
            assert(s@.subrange(k + 1, hi as int) =~= body.skip(k - b + 1));
            if !mantissa_ok_win(s, b, k) || !exponent_ok_win(s, k + 1, hi) {
                return None;
            }
            exponent_form(s, b, k, hi, negative)
        },
    }
}

/// `s` without the trailing copies of `c`.
pub open spec fn trim_trailing(s: Seq<char>, c: char) -> Seq<char>
    decreases s.len(),
{
    if s.len() > 0 && s.last() == c {
        trim_trailing(s.drop_last(), c)
    } else {
        s
    }
}

/// The number with four decimals (`{:.4}`), then without trailing zeros and point.
pub open spec fn format_fixed(f: Fixed4) -> Seq<char> {
    let ip = (f.units / 10000) as nat;
    let fr = (f.units % 10000) as nat;
    let sign = if f.negative {
        seq!['-']
    } else {
        Seq::empty()
    };
    let fd = seq![
        digit_char(fr / 1000),
        digit_char((fr / 100) % 10),
        digit_char((fr / 10) % 10),
        digit_char(fr % 10),
    ];
    trim_trailing(trim_trailing(sign + decimal(ip) + seq!['.'] + fd, '0'), '.')
}

/// Drops the trailing copies of `c` from the end of `v`.
pub fn truncate_trailing(v: &mut Vec<char>, c: char)
    ensures
        final(v)@ == trim_trailing(old(v)@, c),
{
    loop
        invariant
            trim_trailing(v@, c) == trim_trailing(old(v)@, c),
        decreases v@.len(),
    {
        let n = v.len();
        if n > 0 && v[n - 1] == c {
            assert(v@.drop_last() =~= v@.subrange(0, n - 1));
            v.pop();
        } else {
            return;
        }
    }
}

/// Appends `format_fixed(f)` to `out`.
pub fn push_fixed(out: &mut String, f: Fixed4)
    ensures
        final(out)@ == old(out)@ + format_fixed(f),
{
    let mut tmp = String::new();
    if f.negative {
        crate::text::push_char(&mut tmp, '-');
    }
    push_decimal(&mut tmp, f.units / 10000);
    let fr = f.units % 10000;
    crate::text::push_char(&mut tmp, '.');
    crate::text::push_char(&mut tmp, crate::text::digit_to_char(fr / 1000));
    crate::text::push_char(&mut tmp, crate::text::digit_to_char((fr / 100) % 10));
    crate::text::push_char(&mut tmp, crate::text::digit_to_char((fr / 10) % 10));
    crate::text::push_char(&mut tmp, crate::text::digit_to_char(fr % 10));
    let mut v = crate::text::chars_of(tmp.as_str());
    assert(v@ =~= (if f.negative {
        seq!['-']
    } else {
        Seq::empty()
    }) + decimal((f.units / 10000) as nat) + seq!['.'] + seq![
        digit_char(((f.units % 10000) as nat) / 1000),
        digit_char((((f.units % 10000) as nat) / 100) % 10),
        digit_char((((f.units % 10000) as nat) / 10) % 10),
        digit_char(((f.units % 10000) as nat) % 10),
    ]);
    truncate_trailing(&mut v, '0');
    truncate_trailing(&mut v, '.');
    crate::text::push_chars(out, &v, 0, v.len());
    assert(v@.subrange(0, v@.len() as int) =~= v@);
}

/// `v / 3` rounded to the nearest integer, as a signed decimal.
pub open spec fn div3_rounded(v: int) -> Fixed4 {
    if v >= 0 {
        Fixed4 { negative: false, units: ((v + 1) / 3) as u64 }
    } else {
        Fixed4 { negative: true, units: ((-v + 1) / 3) as u64 }
    }
}

/// Where a four-character run whose first character sits at `first` and last at `last` is
/// centred: halfway between `first` and the end of the last character, taking the last
/// character as wide as the average step, `(first + last + (last - first) / 3) / 2`.
pub open spec fn center_of_four(first: Fixed4, last: Fixed4) -> Fixed4 {
    div3_rounded(fixed_value(first) + 2 * fixed_value(last))
}

pub fn center_of_four_exec(first: Fixed4, last: Fixed4) -> (c: Fixed4)
    ensures
        c == center_of_four(first, last),
{
    let a: i128 = if first.negative {
        -(first.units as i128)
    } else {
        first.units as i128
    };
    let b: i128 = if last.negative {
        -(last.units as i128)
    } else {
        last.units as i128
    };
    let v: i128 = a + 2 * b;
    if v >= 0 {
        let q = ((v + 1) as u128) / 3;
        Fixed4 { negative: false, units: q as u64 }
    } else {
        let q = ((-v + 1) as u128) / 3;
        Fixed4 { negative: true, units: q as u64 }
    }
}

} // verus!
