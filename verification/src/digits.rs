//! Decimal digit sequences and their numeric values.

use vstd::prelude::*;
use vstd::string::StrSliceExecFns;
use crate::chars::{is_digit_char, digit_of};

verus! {

/// Every character of `s` is a decimal digit.
pub open spec fn all_digits(s: Seq<char>) -> bool {
    forall|i: int| 0 <= i < s.len() ==> is_digit_char(s[i])
}

/// The numeric value of a digit string, most significant digit first.
pub open spec fn digits_val(s: Seq<char>) -> nat
    decreases s.len(),
{
    if s.len() == 0 {
        0
    } else {
        digits_val(s.drop_last()) * 10 + digit_of(s.last())
    }
}

/// Ten to the `k`.
pub open spec fn pow10(k: nat) -> nat
    decreases k,
{
    if k == 0 {
        1
    } else {
        10 * pow10((k - 1) as nat)
    }
}

pub proof fn lemma_pow10_pos(k: nat)
    ensures
        pow10(k) >= 1,
    decreases k,
{
    if k > 0 {
        lemma_pow10_pos((k - 1) as nat);
    }
}

pub proof fn lemma_pow10_adds(a: nat, b: nat)
    ensures
        pow10(a + b) == pow10(a) * pow10(b),
    decreases a,
{
    if a == 0 {
        assert(pow10(b) == 1 * pow10(b));
    } else {
        lemma_pow10_adds((a - 1) as nat, b);
        assert(pow10(a + b) == 10 * pow10((a - 1) as nat + b));
        assert(10 * (pow10((a - 1) as nat) * pow10(b)) == (10 * pow10((a - 1) as nat)) * pow10(
            b,
        )) by (nonlinear_arith);
    }
}

/// Concatenation shifts the left digits by the length of the right ones.
pub proof fn lemma_digits_val_concat(a: Seq<char>, b: Seq<char>)
    ensures
        digits_val(a + b) == digits_val(a) * pow10(b.len()) + digits_val(b),
    decreases b.len(),
{
    if b.len() == 0 {
        assert(a + b =~= a);
        assert(pow10(0) == 1);
        assert(digits_val(b) == 0);
        assert(digits_val(a + b) == digits_val(a) * pow10(b.len()) + digits_val(b));
    } else {
        lemma_digits_val_concat(a, b.drop_last());
        assert((a + b).drop_last() =~= a + b.drop_last());
        assert((a + b).last() == b.last());
        assert((a + b).len() == a.len() + b.len());
        let va = digits_val(a);
        let vd = digits_val(b.drop_last());
        let p = pow10((b.len() - 1) as nat);
        assert(digits_val(a + b) == digits_val((a + b).drop_last()) * 10 + digit_of(
            (a + b).last(),
        ));
        assert(digits_val(a + b) == (va * p + vd) * 10 + digit_of(b.last()));
        assert(pow10(b.len()) == 10 * p);
        assert(digits_val(b) == vd * 10 + digit_of(b.last()));
        assert(digits_val(a + b) == va * pow10(b.len()) + digits_val(b)) by (nonlinear_arith)
            requires
                digits_val(a + b) == (va * p + vd) * 10 + digit_of(b.last()),
                pow10(b.len()) == 10 * p,
                digits_val(b) == vd * 10 + digit_of(b.last()),
        ;
    }
}

/// A digit string's value stays under ten to its length.
pub proof fn lemma_digits_val_upper(s: Seq<char>)
    requires
        all_digits(s),
    ensures
        digits_val(s) < pow10(s.len()),
    decreases s.len(),
{
    if s.len() > 0 {
        lemma_digits_val_upper(s.drop_last());
        assert(is_digit_char(s.last()));
        assert(digit_of(s.last()) <= 9);
        assert(digits_val(s.drop_last()) <= pow10((s.len() - 1) as nat) - 1);
        assert(digits_val(s.drop_last()) * 10 <= (pow10((s.len() - 1) as nat) - 1) * 10)
            by (nonlinear_arith)
            requires digits_val(s.drop_last()) <= pow10((s.len() - 1) as nat) - 1,
        ;
    }
}

/// A digit string that does not start with zero reaches ten to one less
/// than its length.
pub proof fn lemma_digits_val_lower(s: Seq<char>)
    requires
        s.len() > 0,
        all_digits(s),
        digit_of(s[0]) >= 1,
    ensures
        digits_val(s) >= pow10((s.len() - 1) as nat),
    decreases s.len(),
{
    if s.len() == 1 {
        assert(digits_val(s) == digits_val(s.drop_last()) * 10 + digit_of(s.last()));
    } else {
        lemma_digits_val_lower(s.drop_last());
        assert(digits_val(s.drop_last()) * 10 >= pow10((s.len() - 2) as nat) * 10)
            by (nonlinear_arith)
            requires digits_val(s.drop_last()) >= pow10((s.len() - 2) as nat),
        ;
        assert(pow10((s.len() - 2) as nat) * 10 == pow10((s.len() - 1) as nat));
    }
}

/// A string of zero digits has value zero.
pub proof fn lemma_digits_val_zeros(s: Seq<char>)
    requires
        forall|i: int| 0 <= i < s.len() ==> digit_of(s[i]) == 0,
    ensures
        digits_val(s) == 0,
    decreases s.len(),
{
    if s.len() > 0 {
        lemma_digits_val_zeros(s.drop_last());
    }
}

/// Leading zeros do not change a digit string's value.
pub proof fn lemma_digits_val_strip_zeros(s: Seq<char>, a: int)
    requires
        0 <= a <= s.len(),
        forall|i: int| 0 <= i < a ==> digit_of(s[i]) == 0,
    ensures
        digits_val(s) == digits_val(s.subrange(a, s.len() as int)),
{
    let z = s.subrange(0, a);
    let r = s.subrange(a, s.len() as int);
    assert(s =~= z + r);
    lemma_digits_val_concat(z, r);
    lemma_digits_val_zeros(z);
}

/// Parse the digit characters of `s` between `from` and `to` (at most 21 of
/// them) into their value.
pub fn parse_digits_u128(s: &str, from: usize, to: usize) -> (v: u128)
    requires
        from <= to <= s@.len(),
        to - from <= 21,
        forall|j: int| from <= j < to ==> is_digit_char(s@[j]),
    ensures
        v == digits_val(s@.subrange(from as int, to as int)),
{
    let mut v: u128 = 0;
    let mut i: usize = from;
    proof {
        assert(s@.subrange(from as int, from as int) =~= Seq::<char>::empty());
    }
    while i < to
        invariant
            from <= i <= to <= s@.len(),
            to - from <= 21,
            forall|j: int| from <= j < to ==> is_digit_char(s@[j]),
            v == digits_val(s@.subrange(from as int, i as int)),
            v < pow10((i - from) as nat),
        decreases to - i,
    {
        let c = s.get_char(i);
        assert(is_digit_char(s@[i as int]));
        let d: u128 = (c as u32 - 48) as u128;
        proof {
            let prefix = s@.subrange(from as int, i as int);
            lemma_pow10_le((i - from) as nat, 20);
            lemma_pow10_20();
            assert(v * 10 + d < pow10(((i + 1) - from) as nat));
            assert(s@.subrange(from as int, i + 1).drop_last() =~= prefix);
            assert(s@.subrange(from as int, i + 1).last() == s@[i as int]);
        }
        v = v * 10 + d;
        i += 1;
    }
    v
}

pub proof fn lemma_pow10_le(a: nat, b: nat)
    requires
        a <= b,
    ensures
        pow10(a) <= pow10(b),
    decreases b,
{
    if a < b {
        lemma_pow10_le(a, (b - 1) as nat);
        lemma_pow10_pos((b - 1) as nat);
    }
}

pub proof fn lemma_pow10_20()
    ensures
        pow10(20) == 100_000_000_000_000_000_000,
{
    reveal_with_fuel(pow10, 21);
}

pub proof fn lemma_pow10_21()
    ensures
        pow10(21) == 1_000_000_000_000_000_000_000,
{
    reveal_with_fuel(pow10, 22);
}

} // verus!
