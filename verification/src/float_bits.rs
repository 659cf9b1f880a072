use vstd::prelude::*;

verus! {

/// `2` raised to `e`.
pub open spec fn two_pow(e: nat) -> nat
    decreases e,
{
    if e == 0 {
        1
    } else {
        2 * two_pow((e - 1) as nat)
    }
}

/// The position of the highest set bit of `m` (for `m >= 1`): the largest `e`
/// with `2^e <= m`.
pub open spec fn highest_bit(m: nat) -> nat
    decreases m,
{
    if m <= 1 {
        0
    } else {
        1 + highest_bit(m / 2)
    }
}

/// The IEEE-754 single-precision bit pattern of the integer `v`, for
/// `|v| < 2^24`, where every such integer is exactly representable:
/// sign bit, biased exponent `127 + e` with `e` the highest set bit of `|v|`,
/// and the bits of `|v|` below the leading one, shifted to the top of the
/// 23-bit fraction.
pub open spec fn f32_bits_of_int(v: int) -> u32 {
    if v == 0 {
        0
    } else {
        let m: nat = if v < 0 { (-v) as nat } else { v as nat };
        let e = highest_bit(m);
        let sign: int = if v < 0 { 2147483648 } else { 0 };
        (sign + (127 + e) * 8388608 + (m - two_pow(e)) * two_pow((23 - e) as nat)) as u32
    }
}

/// `e` is the highest set bit of every `m` in `[2^e, 2^(e+1))`.
pub proof fn lemma_highest_bit(m: nat, e: nat)
    requires
        two_pow(e) <= m < 2 * two_pow(e),
    ensures
        highest_bit(m) == e,
    decreases e,
{
    if e == 0 {
    } else {
        let h = (e - 1) as nat;
        assert(two_pow(e) == 2 * two_pow(h));
        assert(two_pow(h) <= m / 2 < 2 * two_pow(h));
        lemma_highest_bit(m / 2, h);
    }
}

/// The single-precision bit pattern of `v`, the value that `v as f32`
/// has, computed with integer arithmetic.
pub fn int_to_f32_bits(v: i32) -> (r: u32)
    requires
        -16777216 < v < 16777216,
    ensures
        r == f32_bits_of_int(v as int),
{
    if v == 0 {
        return 0;
    }
    let m: u32 = if v < 0 { (-v) as u32 } else { v as u32 };
    let mut e: u32 = 0;
    let mut p: u32 = 1;
    let mut q: u32 = 8388608;
    assert(two_pow(23) == 8388608) by {
        reveal_with_fuel(two_pow, 24);
    }
    while p <= m / 2
        invariant
            1 <= m < 16777216,
            1 <= p <= m,
            e <= 23,
            p == two_pow(e as nat),
            q == two_pow((23 - e) as nat),
            1 <= q,
            p * q == 8388608,
        decreases m - p,
    {
        assert(q > 1) by (nonlinear_arith)
            requires
                p * q == 8388608,
                2 * p <= m,
                m < 16777216,
                p >= 1,
        ;
        assert(23 - e >= 1) by {
            if e == 23 {
                assert(two_pow(0) == 1);
            }
        }
        let ghost old_e = e;
        assert(two_pow((23 - e) as nat) == 2 * two_pow((22 - e) as nat));
        p = p * 2;
        q = q / 2;
        e = e + 1;
        assert(two_pow(e as nat) == 2 * two_pow(old_e as nat));
        assert(p * q == 8388608) by (nonlinear_arith)
            requires
                p == 2 * (p / 2),
                (p / 2) * (2 * q) == 8388608,
        ;
    }
    proof {
        lemma_highest_bit(m as nat, e as nat);
    }
    assert((m - p) * q < 8388608) by (nonlinear_arith)
        requires
            m < 2 * p,
            p <= m,
            p * q == 8388608,
            q >= 1,
    ;
    let sign: u32 = if v < 0 { 2147483648 } else { 0 };
    sign + (127 + e) * 8388608 + (m - p) * q
}

} // verus!

verus! {

/// `2^(a + b) == 2^a * 2^b`.
pub proof fn lemma_two_pow_add(a: nat, b: nat)
    ensures
        two_pow(a + b) == two_pow(a) * two_pow(b),
    decreases a,
{
    if a > 0 {
        let c = (a - 1) as nat;
        lemma_two_pow_add(c, b);
        assert(two_pow(a + b) == 2 * two_pow(c + b));
        let x = two_pow(c);
        let y = two_pow(b);
        assert(two_pow(a) == 2 * x);
        assert(2 * (x * y) == (2 * x) * y) by (nonlinear_arith);
    } else {
        assert(two_pow(a) == 1);
        assert(a + b == b);
    }
}

/// The highest set bit `e` of `m >= 1` satisfies `2^e <= m < 2^(e+1)`.
pub proof fn lemma_highest_bit_bounds(m: nat)
    requires
        m >= 1,
    ensures
        two_pow(highest_bit(m)) <= m < 2 * two_pow(highest_bit(m)),
    decreases m,
{
    if m > 1 {
        lemma_highest_bit_bounds(m / 2);
        let h = highest_bit(m / 2);
        assert(highest_bit(m) == 1 + h);
        assert(two_pow(1 + h) == 2 * two_pow(h));
    }
}

/// What the bit pattern of a nonzero integer `v` with `|v| < 2^24` says,
/// read as an IEEE-754 single: the sign bit is set exactly for negative `v`,
/// the biased exponent `exp` lies in `[127, 150]`, and
/// `|v| = (2^23 + fraction) * 2^(exp - 127) / 2^23`, so the pattern denotes
/// `v` exactly. Zero is the all-zero pattern.
pub proof fn law_f32_bits_value(v: int)
    requires
        -16777216 < v < 16777216,
    ensures
        v == 0 ==> f32_bits_of_int(v) == 0,
        v != 0 ==> ({
            let b = f32_bits_of_int(v) as int;
            let m = if v < 0 { -v } else { v };
            let exp = (b / 8388608) % 256;
            let frac = b % 8388608;
            &&& b / 2147483648 == (if v < 0 { 1int } else { 0int })
            &&& 127 <= exp <= 150
            &&& m * 8388608 == (8388608 + frac) * two_pow((exp - 127) as nat)
        }),
{
    if v != 0 {
        let m: nat = if v < 0 { (-v) as nat } else { v as nat };
        let e = highest_bit(m);
        lemma_highest_bit_bounds(m);
        assert(two_pow(24) == 16777216) by {
            reveal_with_fuel(two_pow, 25);
        }
        assert(two_pow(23) == 8388608) by {
            reveal_with_fuel(two_pow, 24);
        }
        if e > 23 {
            lemma_two_pow_add(24, (e - 24) as nat);
            assert(two_pow((e - 24) as nat) >= 1) by {
                lemma_two_pow_positive((e - 24) as nat);
            }
            assert(two_pow(e) >= 16777216) by (nonlinear_arith)
                requires
                    two_pow(e) == 16777216 * two_pow((e - 24) as nat),
                    two_pow((e - 24) as nat) >= 1,
            ;
            assert(false);
        }
        let q = two_pow((23 - e) as nat);
        let p = two_pow(e);
        lemma_two_pow_add(e, (23 - e) as nat);
        assert(p * q == 8388608);
        let frac = (m - p) * q;
        assert(0 <= frac < 8388608) by (nonlinear_arith)
            requires
                p <= m < 2 * p,
                p * q == 8388608,
                q >= 0,
                frac == (m - p) * q,
        ;
        assert(m * 8388608 == (8388608 + frac) * p) by (nonlinear_arith)
            requires
                p * q == 8388608,
                frac == (m - p) * q,
        ;
        let sign: int = if v < 0 { 1 } else { 0 };
        let inner = (127 + e) * 8388608 + frac;
        let b = f32_bits_of_int(v) as int;
        assert(b == sign * 2147483648 + inner);
        assert(b / 2147483648 == sign && b % 2147483648 == inner) by {
            vstd::arithmetic::div_mod::lemma_fundamental_div_mod_converse(b, 2147483648, sign, inner as int);
        }
        assert(b / 8388608 == sign * 256 + 127 + e && b % 8388608 == frac) by {
            vstd::arithmetic::div_mod::lemma_fundamental_div_mod_converse(
                b,
                8388608,
                sign * 256 + 127 + e as int,
                frac as int,
            );
        }
        assert((b / 8388608) % 256 == 127 + e) by {
            vstd::arithmetic::div_mod::lemma_fundamental_div_mod_converse(
                b / 8388608,
                256,
                sign,
                127 + e as int,
            );
        }
    }
}

/// Every power of two is positive.
pub proof fn lemma_two_pow_positive(e: nat)
    ensures
        two_pow(e) >= 1,
    decreases e,
{
    if e > 0 {
        lemma_two_pow_positive((e - 1) as nat);
    }
}

} // verus!
