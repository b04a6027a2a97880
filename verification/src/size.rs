//! Capacity strings. A value such as `"96.0G"` denotes a byte count: a
//! decimal number scaled by a binary unit. The parser computes the exact
//! rational value, rounds it to the nearest integer (halves upward), and
//! saturates at `u64::MAX`.

use vstd::prelude::*;
use vstd::string::StrSliceExecFns;
use vstd::arithmetic::div_mod::{
    lemma_fundamental_div_mod,
    lemma_fundamental_div_mod_converse,
    lemma_div_denominator,
    lemma_div_multiples_vanish,
    lemma_mod_bound,
    lemma_mod_multiples_basic,
    lemma_div_pos_is_pos,
    lemma_div_nonincreasing,
};
use crate::chars::{is_digit_char, is_alpha_char, digit_of, char_is_digit, char_is_alpha};
use crate::strutil::{trim_spec, trim_str};
use crate::digits::{
    all_digits,
    digits_val,
    pow10,
    lemma_pow10_pos,
    lemma_pow10_adds,
    lemma_pow10_le,
    lemma_pow10_20,
    lemma_pow10_21,
    lemma_digits_val_concat,
    lemma_digits_val_upper,
    lemma_digits_val_lower,
    lemma_digits_val_strip_zeros,
    parse_digits_u128,
};

verus! {

/// Number of characters before the first ASCII letter of `s` (the whole
/// length when `s` has no letter).
pub open spec fn alpha_prefix_len(s: Seq<char>) -> nat
    decreases s.len(),
{
    if s.len() == 0 {
        0
    } else if is_alpha_char(s[0]) {
        0
    } else {
        1 + alpha_prefix_len(s.subrange(1, s.len() as int))
    }
}

/// Number of characters before the first dot of `s` (the whole length when
/// `s` has no dot).
pub open spec fn dot_prefix_len(s: Seq<char>) -> nat
    decreases s.len(),
{
    if s.len() == 0 {
        0
    } else if s[0] == '.' {
        0
    } else {
        1 + dot_prefix_len(s.subrange(1, s.len() as int))
    }
}

/// The numeric prefix grammar: digit characters with at most one dot among
/// them and at least one digit.
pub open spec fn valid_decimal(s: Seq<char>) -> bool {
    &&& forall|i: int| 0 <= i < s.len() ==> is_digit_char(s[i]) || s[i] == '.'
    &&& forall|i: int, j: int|
        0 <= i < s.len() && 0 <= j < s.len() && s[i] == '.' && s[j] == '.' ==> i == j
    &&& exists|i: int| 0 <= i < s.len() && is_digit_char(s[i])
}

/// The digits before the dot.
pub open spec fn int_digits(s: Seq<char>) -> Seq<char> {
    s.subrange(0, dot_prefix_len(s) as int)
}

/// The digits after the dot; empty when there is no dot.
pub open spec fn frac_digits(s: Seq<char>) -> Seq<char> {
    if dot_prefix_len(s) < s.len() {
        s.subrange(dot_prefix_len(s) as int + 1, s.len() as int)
    } else {
        Seq::<char>::empty()
    }
}

/// The factor a unit letter denotes, case-insensitively.
pub open spec fn letter_mult(c: char) -> Option<u64> {
    if c == 'k' || c == 'K' {
        Some(1024u64)
    } else if c == 'm' || c == 'M' {
        Some(1048576u64)
    } else if c == 'g' || c == 'G' {
        Some(1073741824u64)
    } else if c == 't' || c == 'T' {
        Some(1099511627776u64)
    } else {
        None
    }
}

/// The factor a unit suffix denotes: nothing means bytes, a letter may be
/// followed by `b` or `B`, and anything else is unrecognized.
pub open spec fn unit_multiplier(u: Seq<char>) -> Option<u64> {
    if u.len() == 0 {
        Some(1u64)
    } else if u.len() == 1 {
        letter_mult(u[0])
    } else if u.len() == 2 && (u[1] == 'b' || u[1] == 'B') {
        letter_mult(u[0])
    } else {
        None
    }
}

/// `x / y` rounded to the nearest integer, halves upward.
pub open spec fn round_div(x: nat, y: nat) -> nat {
    (2 * x + y) / (2 * y)
}

/// The byte count denoted by a numeric string and a unit factor: the exact
/// decimal value times the factor, rounded, saturating at `u64::MAX`.
pub open spec fn scaled_bytes(num: Seq<char>, mult: u64) -> u64 {
    let digits = int_digits(num) + frac_digits(num);
    let k = frac_digits(num).len();
    let r = round_div(digits_val(digits) * (mult as nat), pow10(k));
    if r > u64::MAX {
        u64::MAX
    } else {
        r as u64
    }
}

/// What parsing a capacity string yields: the input is trimmed and split
/// at its first letter; the prefix must be a decimal number and the suffix
/// a recognized unit.
pub open spec fn spec_parse_size(s0: Seq<char>) -> Option<u64> {
    let s = trim_spec(s0);
    let a = alpha_prefix_len(s) as int;
    let num = s.subrange(0, a);
    let unit = s.subrange(a, s.len() as int);
    if !valid_decimal(num) {
        None
    } else {
        match unit_multiplier(unit) {
            Some(mult) => Some(scaled_bytes(num, mult)),
            None => None,
        }
    }
}

proof fn lemma_alpha_prefix(s: Seq<char>, a: int)
    requires
        0 <= a <= s.len(),
        forall|j: int| 0 <= j < a ==> !is_alpha_char(s[j]),
        a == s.len() || is_alpha_char(s[a]),
    ensures
        alpha_prefix_len(s) == a,
    decreases a,
{
    if a == 0 {
    } else {
        let t = s.subrange(1, s.len() as int);
        lemma_alpha_prefix(t, a - 1);
    }
}

proof fn lemma_dot_prefix(s: Seq<char>, a: int)
    requires
        0 <= a <= s.len(),
        forall|j: int| 0 <= j < a ==> s[j] != '.',
        a == s.len() || s[a] == '.',
    ensures
        dot_prefix_len(s) == a,
    decreases a,
{
    if a == 0 {
    } else {
        let t = s.subrange(1, s.len() as int);
        lemma_dot_prefix(t, a - 1);
    }
}

/// For positive `d` and non-negative `a`, `b`: hoist a multiple of the
/// divisor out of a quotient.
proof fn lemma_hoist_div(a: int, b: int, d: int)
    requires
        a >= 0,
        b >= 0,
        d > 0,
    ensures
        (a * d + b) / d == a + b / d,
{
    lemma_fundamental_div_mod(b, d);
    lemma_mod_bound(b, d);
    assert(a * d + b == (a + b / d) * d + b % d) by (nonlinear_arith)
        requires
            b == d * (b / d) + b % d,
    ;
    lemma_fundamental_div_mod_converse(a * d + b, d, a + b / d, b % d);
}

/// Scaling numerator and denominator by a positive factor leaves a
/// quotient unchanged.
proof fn lemma_div_mul_cancel(x: int, y: int, c: int)
    requires
        x >= 0,
        y > 0,
        c > 0,
    ensures
        (x * c) / (y * c) == x / y,
{
    lemma_div_denominator(x * c, c, y);
    assert((x * c) / c == x) by {
        lemma_div_multiples_vanish(x, c);
        assert(c * x == x * c) by (nonlinear_arith);
    }
    assert(c * y == y * c) by (nonlinear_arith);
}

/// A multiple of a number divisible by `m` is divisible by `m`.
proof fn lemma_divisible_mul(x: int, q: int, m: int)
    requires
        m > 0,
        x >= 0,
        q >= 0,
        x % m == 0,
    ensures
        (x * q) % m == 0,
{
    lemma_fundamental_div_mod(x, m);
    let c = x / m;
    assert(x * q == (c * q) * m) by (nonlinear_arith)
        requires
            x == m * c,
    ;
    lemma_mod_multiples_basic(c * q, m);
}

/// The quotient of `B / D` is unchanged by scaling both by `P` and adding
/// to the numerator any `E` smaller than `g * P`, provided `g` divides both
/// `B` and `D`. The divisibility keeps the remainder of `B / D` at least
/// `g` away from `D`, so the added term can never carry the quotient over.
proof fn lemma_quotient_stable(b: int, d: int, g: int, e: int, p: int)
    requires
        0 < g <= d,
        0 < p,
        b >= 0,
        0 <= e < g * p,
        b % g == 0,
        d % g == 0,
    ensures
        (b * p + e) / (d * p) == b / d,
{
    let q = b / d;
    let r = b % d;
    lemma_fundamental_div_mod(b, d);
    lemma_mod_bound(b, d);
    lemma_div_pos_is_pos(b, d);
    // r is a multiple of g
    lemma_divisible_mul(d, q, g);
    lemma_fundamental_div_mod(d * q, g);
    lemma_fundamental_div_mod(b, g);
    lemma_fundamental_div_mod(d, g);
    assert(r == g * ((b / g) - ((d * q) / g))) by (nonlinear_arith)
        requires
            b == d * q + r,
            b == g * (b / g) + 0,
            d * q == g * ((d * q) / g) + 0,
    ;
    // hence r <= d - g
    assert(r <= d - g) by (nonlinear_arith)
        requires
            r == g * ((b / g) - ((d * q) / g)),
            d % g == 0,
            d == g * (d / g) + 0,
            0 <= r < d,
            g > 0,
    ;
    // the scaled remainder plus e stays below the scaled divisor
    assert(0 <= r * p + e < d * p) by (nonlinear_arith)
        requires
            r <= d - g,
            0 <= e < g * p,
            r >= 0,
            p > 0,
    ;
    assert(b * p + e == q * (d * p) + (r * p + e)) by (nonlinear_arith)
        requires
            b == d * q + r,
    ;
    lemma_fundamental_div_mod_converse(b * p + e, d * p, q, r * p + e);
}

/// Split the rounded scaling of `I * pow10(k) + F` into the integer part's
/// exact contribution and the fraction's rounded one.
proof fn lemma_round_split(i: nat, f: nat, k: nat, mult: nat)
    requires
        mult >= 1,
    ensures
        round_div((i * pow10(k) + f) * mult, pow10(k)) == i * mult + round_div(
            f * mult,
            pow10(k),
        ),
{
    lemma_pow10_pos(k);
    let p = pow10(k) as int;
    let ii = i as int;
    let ff = f as int;
    let mm = mult as int;
    assert(2 * ((ii * p + ff) * mm) + p == (ii * mm) * (2 * p) + (2 * (ff * mm) + p))
        by (nonlinear_arith);
    lemma_hoist_div(ii * mm, 2 * (ff * mm) + p, 2 * p);
    assert(ii * mm >= 0) by (nonlinear_arith)
        requires
            ii >= 0,
            mm >= 0,
    ;
    assert(2 * (ff * mm) + p >= 0) by (nonlinear_arith)
        requires
            ff >= 0,
            mm >= 0,
            p > 0,
    ;
}

/// Rounding is below `u64::MAX` only if the integer part is: the scaled
/// value is at least the integer part itself.
proof fn lemma_round_ge_int(i: nat, f: nat, k: nat, mult: nat)
    requires
        mult >= 1,
    ensures
        round_div((i * pow10(k) + f) * mult, pow10(k)) >= i,
{
    lemma_round_split(i, f, k, mult);
    lemma_pow10_pos(k);
    let p = pow10(k) as int;
    lemma_div_pos_is_pos(2 * ((f * mult) as int) + p, 2 * p);
    assert(i * mult >= i * 1) by (nonlinear_arith)
        requires
            mult >= 1,
    ;
}

/// Padding the fraction with zeros to 41 digits does not change its
/// rounded contribution.
proof fn lemma_frac_round_pad(f: nat, k: nat, mult: nat)
    requires
        k <= 41,
        mult >= 1,
    ensures
        round_div(f * mult, pow10(k)) == round_div((f * pow10((41 - k) as nat)) * mult, pow10(41)),
{
    let c = pow10((41 - k) as nat) as int;
    let p = pow10(k) as int;
    lemma_pow10_pos(k);
    lemma_pow10_pos((41 - k) as nat);
    lemma_pow10_adds(k, (41 - k) as nat);
    let x = 2 * ((f * mult) as int) + p;
    let y = 2 * p;
    lemma_div_mul_cancel(x, y, c);
    assert(x * c == 2 * (((f * pow10((41 - k) as nat)) * mult) as int) + pow10(41))
        by (nonlinear_arith)
        requires
            x == 2 * ((f * mult) as int) + p,
            pow10(41) == pow10(k) * pow10((41 - k) as nat),
            c == pow10((41 - k) as nat),
            p == pow10(k),
    ;
    assert(y * c == 2 * (pow10(41) as int)) by (nonlinear_arith)
        requires
            y == 2 * p,
            pow10(41) == pow10(k) * pow10((41 - k) as nat),
            c == pow10((41 - k) as nat),
            p == pow10(k),
    ;
}

/// Digits beyond the 41st of the fraction cannot move the rounded value:
/// the unit factor is a power of two no greater than `2^40`, so the
/// remainder of the 41-digit quotient sits at least `2 * mult` below the
/// divisor while the tail contributes less than that.
proof fn lemma_frac_round_trunc(f41: nat, f2: nat, t: nat, mult: nat)
    requires
        mult == 1 || mult == 1024 || mult == 1048576 || mult == 1073741824 || mult
            == 1099511627776,
        f2 < pow10(t),
    ensures
        round_div((f41 * pow10(t) + f2) * mult, pow10((41 + t) as nat)) == round_div(
            f41 * mult,
            pow10(41),
        ),
{
    let g = 2 * (mult as int);
    let b = 2 * ((f41 * mult) as int) + pow10(41);
    let d = 2 * (pow10(41) as int);
    let p = pow10(t) as int;
    let e = 2 * ((f2 * mult) as int);
    lemma_pow10_pos(t);
    lemma_pow10_pos(41);
    lemma_pow10_adds(41, t);
    // pow10(41) is divisible by 2 * mult for every admitted mult
    assert(pow10(41) == 100000000000000000000000000000000000000000) by {
        lemma_pow10_adds(20, 21);
        lemma_pow10_20();
        lemma_pow10_21();
    }
    assert((pow10(41) as int) % g == 0) by {
        if mult == 1 {
            assert((pow10(41) as int) % 2 == 0);
        } else if mult == 1024 {
            assert((pow10(41) as int) % 2048 == 0);
        } else if mult == 1048576 {
            assert((pow10(41) as int) % 2097152 == 0);
        } else if mult == 1073741824 {
            assert((pow10(41) as int) % 2147483648 == 0);
        } else {
            assert((pow10(41) as int) % 2199023255552 == 0);
        }
    }
    assert((2 * ((f41 * mult) as int)) % g == 0) by {
        lemma_mod_multiples_basic(f41 as int, g);
        assert(2 * ((f41 * mult) as int) == (f41 as int) * g) by (nonlinear_arith)
            requires
                g == 2 * (mult as int),
        ;
    }
    assert(b % g == 0) by {
        lemma_fundamental_div_mod(2 * ((f41 * mult) as int), g);
        let c = (2 * ((f41 * mult) as int)) / g;
        lemma_fundamental_div_mod(pow10(41) as int, g);
        let h = (pow10(41) as int) / g;
        assert(b == (c + h) * g + 0) by (nonlinear_arith)
            requires
                2 * ((f41 * mult) as int) == g * c + 0,
                pow10(41) as int == g * h + 0,
                b == 2 * ((f41 * mult) as int) + pow10(41),
        ;
        lemma_fundamental_div_mod_converse(b, g, c + h, 0);
    }
    assert(d % g == 0) by {
        lemma_fundamental_div_mod(pow10(41) as int, g);
        let h = (pow10(41) as int) / g;
        assert(d == (2 * h) * g + 0) by (nonlinear_arith)
            requires
                pow10(41) as int == g * h + 0,
                d == 2 * (pow10(41) as int),
        ;
        lemma_fundamental_div_mod_converse(d, g, 2 * h, 0);
    }
    assert(e < g * p) by (nonlinear_arith)
        requires
            e == 2 * ((f2 * mult) as int),
            f2 < pow10(t),
            g == 2 * (mult as int),
            p == pow10(t),
            mult >= 1,
    ;
    assert(e >= 0) by (nonlinear_arith)
        requires
            e == 2 * ((f2 * mult) as int),
    ;
    assert(b >= 0);
    lemma_quotient_stable(b, d, g, e, p);
    // identify the two quotients with the round_div expressions
    assert(b * p + e == 2 * (((f41 * pow10(t) + f2) * mult) as int) + pow10((41 + t) as nat))
        by (nonlinear_arith)
        requires
            b == 2 * ((f41 * mult) as int) + pow10(41),
            e == 2 * ((f2 * mult) as int),
            p == pow10(t),
            pow10((41 + t) as nat) == pow10(41) * pow10(t),
    ;
    assert(d * p == 2 * (pow10((41 + t) as nat) as int)) by (nonlinear_arith)
        requires
            d == 2 * (pow10(41) as int),
            p == pow10(t),
            pow10((41 + t) as nat) == pow10(41) * pow10(t),
    ;
}

/// Evaluate the 41-digit rounded contribution from its two chunks: the
/// first twenty digits and the next twenty-one.
proof fn lemma_round_chunks(g1: nat, g2: nat, mult: nat)
    requires
        mult >= 1,
    ensures
        round_div((g1 * pow10(21) + g2) * mult, pow10(41)) == (g1 * mult + 5 * pow10(19) + (g2
            * mult) / pow10(21)) / pow10(20),
{
    lemma_pow10_pos(19);
    lemma_pow10_pos(20);
    lemma_pow10_pos(21);
    lemma_pow10_pos(40);
    lemma_pow10_pos(41);
    lemma_pow10_adds(19, 21);
    lemma_pow10_adds(21, 20);
    let f41 = (g1 * pow10(21) + g2) as int;
    let mm = mult as int;
    let x = f41 * mm + 5 * (pow10(40) as int);
    // halve numerator and denominator
    assert(2 * ((g1 * pow10(21) + g2) * mult) as int + pow10(41) == x * 2) by (nonlinear_arith)
        requires
            x == f41 * mm + 5 * (pow10(40) as int),
            f41 == (g1 * pow10(21) + g2) as int,
            mm == mult as int,
            pow10(41) == 10 * pow10(40),
    ;
    assert(2 * (pow10(41) as int) == (pow10(41) as int) * 2);
    lemma_div_mul_cancel(x, pow10(41) as int, 2);
    assert(x >= 0) by (nonlinear_arith)
        requires
            x == f41 * mm + 5 * (pow10(40) as int),
            f41 >= 0,
            mm >= 1,
            pow10(40) >= 1,
    ;
    // split off the low chunk
    let a = (g1 * mult + 5 * pow10(19)) as int;
    let blow = (g2 * mult) as int;
    assert(x == a * (pow10(21) as int) + blow) by (nonlinear_arith)
        requires
            x == f41 * mm + 5 * (pow10(40) as int),
            f41 == (g1 * pow10(21) + g2) as int,
            a == (g1 * mult + 5 * pow10(19)) as int,
            blow == (g2 * mult) as int,
            mm == mult as int,
            pow10(40) == pow10(19) * pow10(21),
    ;
    assert(blow >= 0);
    assert(a >= 0);
    lemma_hoist_div(a, blow, pow10(21) as int);
    lemma_div_denominator(x, pow10(21) as int, pow10(20) as int);
    assert(pow10(21) as int * (pow10(20) as int) == pow10(41) as int);
}

/// Ten to the `k`, computed executably.
fn pow10_u128(k: usize) -> (r: u128)
    requires
        k <= 21,
    ensures
        r == pow10(k as nat),
{
    let mut r: u128 = 1;
    let mut i: usize = 0;
    while i < k
        invariant
            0 <= i <= k <= 21,
            r == pow10(i as nat),
        decreases k - i,
    {
        proof {
            lemma_pow10_le(((i + 1) as usize) as nat, 21);
            lemma_pow10_21();
        }
        r = r * 10;
        i += 1;
    }
    r
}

/// Parse a capacity string such as `"96.0G"` into bytes. The string is
/// trimmed and split at its first letter; the numeric prefix times the
/// unit factor is rounded to the nearest byte count, saturating at
/// `u64::MAX`. Returns nothing when the prefix is not a decimal number or
/// the unit is unrecognized.
#[verifier::rlimit(100)]
pub fn parse_size_string(size_str: &str) -> (r: Option<u64>)
    ensures
        r == spec_parse_size(size_str@),
{
    let t = trim_str(size_str);
    let n = t.unicode_len();
    // split at the first letter
    let mut a: usize = 0;
    while a < n && !char_is_alpha(t.get_char(a))
        invariant
            0 <= a <= n,
            n == t@.len(),
            forall|j: int| 0 <= j < a ==> !is_alpha_char(t@[j]),
        decreases n - a,
    {
        a += 1;
    }
    proof {
        lemma_alpha_prefix(t@, a as int);
    }
    let ghost num = t@.subrange(0, a as int);
    let ghost unit = t@.subrange(a as int, n as int);
    // scan the numeric prefix
    let mut seen_dot: bool = false;
    let mut dotpos: usize = 0;
    let mut seen_digit: bool = false;
    let mut ok: bool = true;
    let mut i: usize = 0;
    while i < a
        invariant
            0 <= i <= a <= n,
            n == t@.len(),
            seen_digit <==> exists|j: int| 0 <= j < i && is_digit_char(t@[j]),
            seen_dot <==> exists|j: int| 0 <= j < i && t@[j] == '.',
            seen_dot ==> 0 <= dotpos < i && t@[dotpos as int] == '.' && (forall|j: int|
                0 <= j < dotpos ==> t@[j] != '.'),
            ok <==> (forall|j: int| 0 <= j < i ==> is_digit_char(t@[j]) || t@[j] == '.')
                && (forall|j1: int, j2: int|
                0 <= j1 < j2 < i && t@[j1] == '.' && t@[j2] == '.' ==> false),
        decreases a - i,
    {
        let c = t.get_char(i);
        if char_is_digit(c) {
            seen_digit = true;
        } else if c == '.' {
            if seen_dot {
                ok = false;
            } else {
                seen_dot = true;
                dotpos = i;
            }
        } else {
            ok = false;
        }
        i += 1;
    }
    proof {
        assert(num.len() == a);
        assert(forall|j: int| 0 <= j < num.len() ==> num[j] == t@[j]);
    }
    if !ok || !seen_digit {
        proof {
            if valid_decimal(num) {
                assert forall|j: int| 0 <= j < a implies is_digit_char(t@[j]) || t@[j]
                    == '.' by {
                    assert(num[j] == t@[j]);
                }
                assert forall|j1: int, j2: int|
                    0 <= j1 < j2 < a && t@[j1] == '.' && t@[j2] == '.' implies false by {
                    assert(num[j1] == '.' && num[j2] == '.');
                }
                let w = choose|j: int| 0 <= j < a && is_digit_char(num[j]);
                assert(is_digit_char(t@[w]));
                assert(ok && seen_digit);
            }
            assert(!valid_decimal(num));
        }
        return None;
    }
    proof {
        assert forall|j: int| 0 <= j < num.len() implies is_digit_char(num[j]) || num[j]
            == '.' by {
            assert(num[j] == t@[j]);
        }
        assert forall|j1: int, j2: int|
            0 <= j1 < num.len() && 0 <= j2 < num.len() && num[j1] == '.' && num[j2]
            == '.' implies j1 == j2 by {
            assert(t@[j1] == '.' && t@[j2] == '.');
            if j1 < j2 || j2 < j1 {
                assert(false);
            }
        }
        let w = choose|j: int| 0 <= j < a && is_digit_char(t@[j]);
        assert(is_digit_char(num[w]));
        assert(valid_decimal(num));
    }
    // the unit suffix
    let mult: u64 = if a == n {
        proof {
            assert(unit.len() == 0);
        }
        1
    } else if n - a == 1 {
        let c0 = t.get_char(a);
        proof {
            assert(unit.len() == 1 && unit[0] == t@[a as int]);
        }
        if c0 == 'k' || c0 == 'K' {
            1024
        } else if c0 == 'm' || c0 == 'M' {
            1048576
        } else if c0 == 'g' || c0 == 'G' {
            1073741824
        } else if c0 == 't' || c0 == 'T' {
            1099511627776
        } else {
            return None;
        }
    } else if n - a == 2 {
        let c0 = t.get_char(a);
        let c1 = t.get_char(a + 1);
        proof {
            assert(unit.len() == 2 && unit[0] == t@[a as int] && unit[1] == t@[a + 1]);
        }
        if !(c1 == 'b' || c1 == 'B') {
            return None;
        }
        if c0 == 'k' || c0 == 'K' {
            1024
        } else if c0 == 'm' || c0 == 'M' {
            1048576
        } else if c0 == 'g' || c0 == 'G' {
            1073741824
        } else if c0 == 't' || c0 == 'T' {
            1099511627776
        } else {
            return None;
        }
    } else {
        proof {
            assert(unit.len() > 2);
        }
        return None;
    };
    assert(unit_multiplier(unit) == Some(mult));
    // locate integer and fraction digit ranges
    let ip_end: usize = if seen_dot {
        dotpos
    } else {
        a
    };
    let fs: usize = if seen_dot {
        dotpos + 1
    } else {
        a
    };
    let fe: usize = a;
    let k: usize = fe - fs;
    proof {
        if seen_dot {
            lemma_dot_prefix(num, dotpos as int);
        } else {
            lemma_dot_prefix(num, a as int);
        }
        assert(int_digits(num) =~= t@.subrange(0, ip_end as int));
        assert(frac_digits(num) =~= t@.subrange(fs as int, fe as int));
    }
    let ghost ip = t@.subrange(0, ip_end as int);
    let ghost fp = t@.subrange(fs as int, fe as int);
    proof {
        assert(all_digits(ip));
        assert(all_digits(fp));
    }
    let b = scale_number(t, ip_end, fs, fe, mult);
    proof {
        assert(int_digits(num) + frac_digits(num) =~= ip + fp);
        assert(frac_digits(num).len() == k);
    }
    Some(b)
}

/// Scale the number written with integer digits `t[..ip_end]` and fraction
/// digits `t[fs..fe]` by the unit factor, rounding to the nearest integer
/// and saturating at `u64::MAX`.
#[verifier::rlimit(100)]
fn scale_number(t: &str, ip_end: usize, fs: usize, fe: usize, mult: u64) -> (r: u64)
    requires
        ip_end <= fs <= fe <= t@.len(),
        forall|j: int| 0 <= j < ip_end ==> is_digit_char(t@[j]),
        forall|j: int| fs <= j < fe ==> is_digit_char(t@[j]),
        mult == 1 || mult == 1024 || mult == 1048576 || mult == 1073741824 || mult
            == 1099511627776,
    ensures
        ({
            let r0 = round_div(
                digits_val(t@.subrange(0, ip_end as int) + t@.subrange(fs as int, fe as int))
                    * (mult as nat),
                pow10((fe - fs) as nat),
            );
            r == if r0 > u64::MAX {
                u64::MAX
            } else {
                r0 as u64
            }
        }),
{
    let n = t.unicode_len();
    let k: usize = fe - fs;
    let ghost ip = t@.subrange(0, ip_end as int);
    let ghost fp = t@.subrange(fs as int, fe as int);
    // strip leading zeros of the integer part
    let mut z: usize = 0;
    while z < ip_end && t.get_char(z) as u32 == 48
        invariant
            0 <= z <= ip_end,
            ip_end <= n == t@.len(),
            forall|j: int| 0 <= j < z ==> digit_of(t@[j]) == 0,
        decreases ip_end - z,
    {
        z += 1;
    }
    proof {
        lemma_digits_val_strip_zeros(ip, z as int);
        assert(ip.subrange(z as int, ip_end as int) =~= t@.subrange(z as int, ip_end as int));
    }
    let ghost ips = t@.subrange(z as int, ip_end as int);
    let ghost ival = digits_val(ip);
    let ghost fval = digits_val(fp);
    proof {
        lemma_digits_val_concat(ip, fp);
    }
    if ip_end - z > 20 {
        // the integer part alone exceeds u64::MAX: the result saturates
        proof {
            lemma_digits_val_lower(ips);
            lemma_pow10_le(20, (ips.len() - 1) as nat);
            lemma_pow10_20();
            lemma_round_ge_int(ival, fval, k as nat, mult as nat);
            assert(ival >= pow10(20));
        }
        return u64::MAX;
    }
    let iv: u128 = parse_digits_u128(t, z, ip_end);
    proof {
        lemma_digits_val_upper(ips);
        lemma_pow10_le(ips.len(), 20);
        lemma_pow10_20();
        assert(iv == ival && iv < pow10(20));
    }
    // the first twenty fraction digits, padded with zeros on the right
    let len1: usize = if k > 20 {
        20
    } else {
        k
    };
    let v1: u128 = parse_digits_u128(t, fs, fs + len1);
    proof {
        lemma_digits_val_upper(t@.subrange(fs as int, (fs + len1) as int));
        lemma_pow10_le(len1 as nat, 20);
        lemma_pow10_20();
    }
    let p1: u128 = pow10_u128(20 - len1);
    proof {
        let l1 = len1 as nat;
        lemma_pow10_adds(l1, (20 - l1) as nat);
        lemma_pow10_pos((20 - l1) as nat);
        assert(v1 * p1 < pow10(20)) by (nonlinear_arith)
            requires
                p1 == pow10((20 - l1) as nat),
                v1 < pow10(l1),
                pow10(20) == pow10(l1) * pow10((20 - l1) as nat),
                p1 >= 1,
        ;
        lemma_pow10_20();
    }
    let g1: u128 = v1 * p1;
    // the next twenty-one fraction digits, likewise padded
    let len2: usize = if k > 41 {
        21
    } else if k > 20 {
        k - 20
    } else {
        0
    };
    let v2: u128 = if k > 20 {
        parse_digits_u128(t, fs + 20, fs + 20 + len2)
    } else {
        0
    };
    proof {
        if k > 20 {
            lemma_digits_val_upper(t@.subrange((fs + 20) as int, (fs + 20 + len2) as int));
        }
        lemma_pow10_le(len2 as nat, 21);
        lemma_pow10_21();
        assert(v2 < pow10(len2 as nat) || v2 == 0);
    }
    let g2: u128 = if k > 20 {
        let p2: u128 = pow10_u128(21 - len2);
        proof {
            let l2 = len2 as nat;
            lemma_pow10_adds(l2, (21 - l2) as nat);
            lemma_pow10_pos((21 - l2) as nat);
            assert(v2 * p2 < pow10(21)) by (nonlinear_arith)
                requires
                    p2 == pow10((21 - l2) as nat),
                    v2 < pow10(l2),
                    pow10(21) == pow10(l2) * pow10((21 - l2) as nat),
                    p2 >= 1,
            ;
            lemma_pow10_21();
        }
        v2 * p2
    } else {
        proof {
            lemma_pow10_pos(21);
        }
        0
    };
    proof {
        assert(g2 < pow10(21));
    }
    // assemble: the value of the first 41 padded fraction digits
    proof {
        lemma_scale_correct(
            t@,
            ip_end as nat,
            fs as nat,
            fe as nat,
            len1 as nat,
            len2 as nat,
            v1 as nat,
            v2 as nat,
            g1 as nat,
            g2 as nat,
            mult as nat,
        );
    }
    // compute the rounded fraction contribution
    let mm: u128 = mult as u128;
    proof {
        lemma_pow10_20();
        lemma_pow10_21();
        lemma_pow10_le(19, 20);
        assert(g1 * mm < 110000000000000000000000000000000) by (nonlinear_arith)
            requires
                g1 < 100000000000000000000,
                mm <= 1099511627776,
        ;
        assert(g2 * mm < 1100000000000000000000000000000000) by (nonlinear_arith)
            requires
                g2 < 1000000000000000000000,
                mm <= 1099511627776,
        ;
        assert(iv * mm < 110000000000000000000000000000000) by (nonlinear_arith)
            requires
                iv < 100000000000000000000,
                mm <= 1099511627776,
        ;
    }
    let half: u128 = 5 * pow10_u128(19);
    let q2: u128 = (g2 * mm) / pow10_u128(21);
    proof {
        lemma_pow10_pos(21);
        lemma_div_nonincreasing((g2 * mm) as int, pow10(21) as int);
    }
    let u: u128 = (g1 * mm + half + q2) / pow10_u128(20);
    proof {
        lemma_pow10_pos(20);
        lemma_div_nonincreasing((g1 * mm + half + q2) as int, pow10(20) as int);
    }
    let total: u128 = iv * mm + u;
    let ghost rounded = round_div(digits_val(ip + fp) * (mult as nat), pow10(k as nat));
    proof {
        assert(total == rounded);
    }
    if total > 0xffff_ffff_ffff_ffff {
        u64::MAX
    } else {
        total as u64
    }
}

/// The rounded scaling of the number written with integer digits
/// `s[..ip_end]` and fraction digits `s[fs..fe]` equals the integer part's
/// exact contribution plus the fraction contribution computed from the two
/// padded chunk values `g1` and `g2`.
proof fn lemma_scale_correct(
    s: Seq<char>,
    ip_end: nat,
    fs: nat,
    fe: nat,
    len1: nat,
    len2: nat,
    v1: nat,
    v2: nat,
    g1: nat,
    g2: nat,
    mult: nat,
)
    requires
        ip_end <= fs <= fe <= s.len(),
        forall|j: int| fs <= j < fe ==> is_digit_char(s[j]),
        len1 == if fe - fs > 20 {
            20nat
        } else {
            (fe - fs) as nat
        },
        len2 == if fe - fs > 41 {
            21nat
        } else if fe - fs > 20 {
            (fe - fs - 20) as nat
        } else {
            0nat
        },
        v1 == digits_val(s.subrange(fs as int, fs as int + len1 as int)),
        fe - fs > 20 ==> v2 == digits_val(
            s.subrange(fs as int + 20, fs as int + 20 + len2 as int),
        ),
        fe - fs <= 20 ==> v2 == 0,
        g1 == v1 * pow10((20 - len1) as nat),
        fe - fs > 20 ==> g2 == v2 * pow10((21 - len2) as nat),
        fe - fs <= 20 ==> g2 == 0,
        mult == 1 || mult == 1024 || mult == 1048576 || mult == 1073741824 || mult
            == 1099511627776,
    ensures
        round_div(
            digits_val(s.subrange(0, ip_end as int) + s.subrange(fs as int, fe as int)) * mult,
            pow10((fe - fs) as nat),
        ) == digits_val(s.subrange(0, ip_end as int)) * mult + (g1 * mult + 5 * pow10(19) + (g2
            * mult) / pow10(21)) / pow10(20),
{
    let ip = s.subrange(0, ip_end as int);
    let fp = s.subrange(fs as int, fe as int);
    let k = (fe - fs) as nat;
    let ival = digits_val(ip);
    let fval = digits_val(fp);
    lemma_digits_val_concat(ip, fp);
    lemma_frac41_value(s, fs, fe, len1, len2, v1, v2, g1, g2);
    let f41: nat = g1 * pow10(21) + g2;
    lemma_round_split(ival, fval, k, mult);
    if k <= 41 {
        lemma_frac_round_pad(fval, k, mult);
        assert(f41 == fval * pow10((41 - k) as nat));
    } else {
        let t41 = (k - 41) as nat;
        let fhead = digits_val(fp.subrange(0, 41));
        let ftail = digits_val(fp.subrange(41, fp.len() as int));
        lemma_digits_val_concat(fp.subrange(0, 41), fp.subrange(41, fp.len() as int));
        assert(fp.subrange(0, 41) + fp.subrange(41, fp.len() as int) =~= fp);
        lemma_digits_val_upper(fp.subrange(41, fp.len() as int));
        assert(fp.subrange(0, 41) =~= s.subrange(fs as int, fs as int + 41));
        assert(fp.subrange(41, fp.len() as int) =~= s.subrange(fs as int + 41, fe as int));
        lemma_frac_round_trunc(fhead, ftail, t41, mult);
        assert(f41 == fhead);
        assert(fval == fhead * pow10(t41) + ftail);
    }
    lemma_round_chunks(g1, g2, mult);
}

/// The number formed by the first forty-one fraction digits, zero-padded
/// on the right, equals the padded chunk values the parser computes.
proof fn lemma_frac41_value(
    s: Seq<char>,
    fs: nat,
    fe: nat,
    len1: nat,
    len2: nat,
    v1: nat,
    v2: nat,
    g1: nat,
    g2: nat,
)
    requires
        fs <= fe <= s.len(),
        len1 == if fe - fs > 20 {
            20nat
        } else {
            (fe - fs) as nat
        },
        len2 == if fe - fs > 41 {
            21nat
        } else if fe - fs > 20 {
            (fe - fs - 20) as nat
        } else {
            0nat
        },
        v1 == digits_val(s.subrange(fs as int, fs as int + len1 as int)),
        fe - fs > 20 ==> v2 == digits_val(
            s.subrange(fs as int + 20, fs as int + 20 + len2 as int),
        ),
        fe - fs <= 20 ==> v2 == 0,
        g1 == v1 * pow10((20 - len1) as nat),
        fe - fs > 20 ==> g2 == v2 * pow10((21 - len2) as nat),
        fe - fs <= 20 ==> g2 == 0,
    ensures
        fe - fs <= 41 ==> g1 * pow10(21) + g2 == digits_val(s.subrange(fs as int, fe as int))
            * pow10((41 - (fe - fs)) as nat),
        fe - fs > 41 ==> g1 * pow10(21) + g2 == digits_val(s.subrange(fs as int, fs as int + 41)),
{
    let k = (fe - fs) as nat;
    let fp = s.subrange(fs as int, fe as int);
    if k <= 20 {
        // g2 == 0 and the whole fraction sits in the first chunk
        assert(fp =~= s.subrange(fs as int, fs as int + len1 as int));
        lemma_pow10_adds((20 - k) as nat, 21);
        assert(g1 * pow10(21) + g2 == digits_val(fp) * pow10((41 - k) as nat)) by (nonlinear_arith)
            requires
                g1 == digits_val(fp) * pow10((20 - k) as nat),
                g2 == 0nat,
                pow10((41 - k) as nat) == pow10((20 - k) as nat) * pow10(21),
        ;
    } else if k <= 41 {
        let head = s.subrange(fs as int, fs as int + 20);
        let tail = s.subrange(fs as int + 20, fe as int);
        assert(head + tail =~= fp);
        lemma_digits_val_concat(head, tail);
        // v1 is the first twenty digits, v2 the remaining k - 20
        assert(head =~= s.subrange(fs as int, fs as int + len1 as int));
        assert(tail =~= s.subrange(fs as int + 20, fs as int + 20 + len2 as int));
        lemma_pow10_adds((k - 20) as nat, (41 - k) as nat);
        assert(g1 == v1) by {
            assert(len1 == 20nat);
            assert((20 - len1) as nat == 0nat);
            assert(pow10(0) == 1);
            assert(g1 == v1 * 1);
        }
        assert(g1 * pow10(21) + g2 == digits_val(fp) * pow10((41 - k) as nat)) by (nonlinear_arith)
            requires
                g1 == v1,
                g2 == v2 * pow10((41 - k) as nat),
                digits_val(fp) == v1 * pow10((k - 20) as nat) + v2,
                pow10(21) == pow10((k - 20) as nat) * pow10((41 - k) as nat),
        ;
    } else {
        let head = s.subrange(fs as int, fs as int + 20);
        let tail = s.subrange(fs as int + 20, fs as int + 41);
        assert(head + tail =~= s.subrange(fs as int, fs as int + 41));
        lemma_digits_val_concat(head, tail);
        assert(head =~= s.subrange(fs as int, fs as int + len1 as int));
        assert(tail =~= s.subrange(fs as int + 20, fs as int + 20 + len2 as int));
        assert(g1 == v1 && g2 == v2) by {
            assert(len1 == 20nat && len2 == 21nat);
            assert((20 - len1) as nat == 0nat && (21 - len2) as nat == 0nat);
            assert(pow10(0) == 1);
            assert(g1 == v1 * 1 && g2 == v2 * 1);
        }
        assert(pow10(21) >= 1) by {
            lemma_pow10_pos(21);
        }
        assert(digits_val(s.subrange(fs as int, fs as int + 41)) == v1 * pow10(21) + v2);
    }
}

} // verus!
