//! Numbers with fifty-three significant bits.
use vstd::arithmetic::div_mod::{
    lemma_div_denominator, lemma_fundamental_div_mod, lemma_fundamental_div_mod_converse,
};
use vstd::arithmetic::power2::{lemma2_to64, lemma_pow2_adds, lemma_pow2_pos, lemma_pow2_strictly_increases, pow2};
use vstd::prelude::*;

verus! {

/// Two to the power fifty-three.
pub const SIGNIFICAND_SPAN: u128 = 0x20_0000_0000_0000;

/// The integer nearest to `n / d`; of two equally near ones the even one.
pub open spec fn nearest_even(n: int, d: int) -> int {
    let q = n / d;
    let r = n % d;
    if 2 * r < d || (2 * r == d && q % 2 == 0) {
        q
    } else {
        q + 1
    }
}

/// The smallest integer not below `n / d`.
pub open spec fn rounded_up(n: int, d: int) -> int {
    if n % d == 0 {
        n / d
    } else {
        n / d + 1
    }
}

/// Whether `n / d` has fifty-three bits before the point once it is divided by
/// two to the power `e`; a smaller number is not divided.
pub open spec fn is_exponent(n: int, d: int, e: nat) -> bool {
    let scaled = n / (d * pow2(e));
    scaled < SIGNIFICAND_SPAN && (e == 0 || 2 * scaled >= SIGNIFICAND_SPAN)
}

/// The number with fifty-three significant bits nearest to `n / d`; of two
/// equally near ones the one whose last bit is zero. It is always an integer.
pub open spec fn double(n: int, d: int) -> int {
    let e = choose|e: nat| is_exponent(n, d, e);
    nearest_even(n, d * pow2(e)) * pow2(e)
}

proof fn lemma_exponents_do_not_differ(n: int, d: int, low: nat, high: nat)
    requires
        0 <= n,
        0 < d,
        is_exponent(n, d, low),
        is_exponent(n, d, high),
    ensures
        low >= high,
{
    if low < high {
        let a = d * pow2(low);
        let between = (high - low) as nat;
        lemma_pow2_pos(low);
        lemma_pow2_pos(between);
        lemma_pow2_adds(low, between);
        lemma2_to64();
        if between > 1 {
            lemma_pow2_strictly_increases(1, between);
        }
        let p = pow2(between) as int;
        assert(a > 0 && d * pow2(high) == a * p) by (nonlinear_arith)
            requires
                a == d * pow2(low),
                d > 0,
                pow2(low) > 0,
                pow2(high) == pow2(low) * p,
        ;
        lemma_div_denominator(n, a, p);
        let x = n / a;
        lemma_fundamental_div_mod(x, p);
        vstd::arithmetic::div_mod::lemma_div_pos_is_pos(n, a);
        assert(2 * (x / p) <= x) by (nonlinear_arith)
            requires
                x == p * (x / p) + x % p,
                x % p >= 0,
                p >= 2,
                x / p >= 0 || x / p < 0,
                x >= 0,
        ;
    }
}

/// The exponent determines the rounded number.
pub proof fn lemma_double(n: int, d: int, e: nat)
    requires
        0 <= n,
        0 < d,
        is_exponent(n, d, e),
    ensures
        double(n, d) == nearest_even(n, d * pow2(e)) * pow2(e),
{
    let chosen = choose|e: nat| is_exponent(n, d, e);
    lemma_exponents_do_not_differ(n, d, e, chosen);
    lemma_exponents_do_not_differ(n, d, chosen, e);
}

/// A common factor does not affect a quotient.
pub proof fn lemma_common_factor(n: int, d: int, p: int)
    requires
        0 <= n,
        0 < d,
        0 < p,
    ensures
        (n * p) / (d * p) == n / d,
        (n * p) % (d * p) == (n % d) * p,
        nearest_even(n * p, d * p) == nearest_even(n, d),
{
    let q = n / d;
    let r = n % d;
    lemma_fundamental_div_mod(n, d);
    assert(n * p == q * (d * p) + r * p) by (nonlinear_arith)
        requires
            n == d * q + r,
    ;
    assert(0 <= r * p < d * p) by (nonlinear_arith)
        requires
            0 <= r < d,
            0 < p,
    ;
    lemma_fundamental_div_mod_converse(n * p, d * p, q, r * p);
    assert(2 * (r * p) < d * p <==> 2 * r < d) by (nonlinear_arith)
        requires
            0 < p,
    ;
    assert(2 * (r * p) == d * p <==> 2 * r == d) by (nonlinear_arith)
        requires
            0 < p,
    ;
}

/// A factor that is a power of two does not affect the rounding of a number
/// that has all its bits.
pub proof fn lemma_double_scales(n: int, e: nat)
    requires
        SIGNIFICAND_SPAN <= n,
    ensures
        double(n * pow2(e), 1) == double(n, 1) * pow2(e),
{
    let f = choose|f: nat| is_exponent(n, 1, f);
    lemma_exponent_exists(n, 1);
    lemma_double(n, 1, f);
    lemma_pow2_pos(e);
    lemma_pow2_pos(f);
    lemma_pow2_adds(f, e);
    lemma2_to64();
    let pe = pow2(e) as int;
    let pf = pow2(f) as int;
    assert(1 * pow2(f) == pf);
    assert(1 * pow2(f + e) == pf * pe);
    lemma_common_factor(n, pf, pe);
    assert(f > 0) by {
        if f == 0 {
            assert(n / 1 == n);
        }
    }
    assert(is_exponent(n * pe, 1, f + e));
    assert(0 <= n * pe) by (nonlinear_arith)
        requires
            n >= 0,
            pe > 0,
    ;
    lemma_double(n * pe, 1, f + e);
    let q = nearest_even(n, pf);
    assert(q * (pf * pe) == (q * pf) * pe) by (nonlinear_arith);
}

/// Every number can be rounded.
pub proof fn lemma_exponent_exists(n: int, d: int)
    requires
        0 <= n,
        0 < d,
    ensures
        exists|e: nat| is_exponent(n, d, e),
{
    lemma2_to64();
    lemma_exponent_from(n, d, 0);
}

proof fn lemma_exponent_from(n: int, d: int, e: nat)
    requires
        0 <= n,
        0 < d,
        e == 0 || 2 * (n / (d * pow2(e))) >= SIGNIFICAND_SPAN,
    ensures
        exists|e: nat| is_exponent(n, d, e),
    decreases n / (d * pow2(e)),
{
    lemma_pow2_pos(e);
    let a = d * pow2(e);
    assert(a > 0) by (nonlinear_arith)
        requires
            a == d * pow2(e),
            d > 0,
            pow2(e) > 0,
    ;
    let x = n / a;
    vstd::arithmetic::div_mod::lemma_div_pos_is_pos(n, a);
    if x < SIGNIFICAND_SPAN {
        assert(is_exponent(n, d, e));
    } else {
        lemma2_to64();
        lemma_pow2_adds(e, 1);
        assert(d * pow2(e + 1) == a * 2) by (nonlinear_arith)
            requires
                a == d * pow2(e),
                pow2(e + 1) == pow2(e) * 2,
        ;
        lemma_div_denominator(n, a, 2);
        assert(n / (d * pow2(e + 1)) == x / 2);
        lemma_exponent_from(n, d, e + 1);
    }
}

/// A number of at most fifty-three bits, times a power of two, is not rounded.
pub proof fn lemma_double_is_exact(m: int, k: nat)
    requires
        0 <= m < SIGNIFICAND_SPAN,
    ensures
        double(m * pow2(k), 1) == m * pow2(k),
{
    let pk = pow2(k) as int;
    let n = m * pk;
    lemma_pow2_pos(k);
    assert(0 <= n) by (nonlinear_arith)
        requires
            n == m * pk,
            m >= 0,
            pk > 0,
    ;
    lemma_exponent_exists(n, 1);
    let e = choose|e: nat| is_exponent(n, 1, e);
    lemma_double(n, 1, e);
    let pe = pow2(e) as int;
    lemma_pow2_pos(e);
    assert(1 * pow2(e) == pe);
    lemma_fundamental_div_mod_converse(n, pk, m, 0);
    if e > k {
        let f = (e - k) as nat;
        lemma_pow2_adds(k, f);
        lemma_pow2_pos(f);
        lemma2_to64();
        if f > 1 {
            lemma_pow2_strictly_increases(1, f);
        }
        let pf = pow2(f) as int;
        lemma_div_denominator(n, pk, pf);
        assert(n / pe == m / pf);
        lemma_fundamental_div_mod(m, pf);
        assert(2 * (m / pf) <= m) by (nonlinear_arith)
            requires
                m == pf * (m / pf) + m % pf,
                m % pf >= 0,
                pf >= 2,
                m >= 0,
        ;
        assert(false);
    }
    let f = (k - e) as nat;
    lemma_pow2_adds(e, f);
    let pf = pow2(f) as int;
    assert(n == (m * pf) * pe + 0) by (nonlinear_arith)
        requires
            n == m * pk,
            pk == pe * pf,
    ;
    lemma_fundamental_div_mod_converse(n, pe, m * pf, 0);
}

/// Rounds `n / d`: the significand and the exponent of the result.
pub fn round_to_double(n: u128, d: u64) -> (r: (u64, u32))
    requires
        0 < d,
    ensures
        is_exponent(n as int, d as int, r.1 as nat),
        double(n as int, d as int) == r.0 * pow2(r.1 as nat),
        r.0 <= SIGNIFICAND_SPAN,
        2 * (n / (d as u128)) >= SIGNIFICAND_SPAN ==> 2 * r.0 >= SIGNIFICAND_SPAN,
        r.0 * pow2(r.1 as nat) <= 2 * n + 1,
        r.1 <= 75,
{
    let mut p: u128 = d as u128;
    let mut e: u32 = 0;
    proof {
        lemma2_to64();
        assert(d * pow2(0) == d) by (nonlinear_arith)
            requires
                pow2(0) == 1,
        ;
    }
    while n / p >= SIGNIFICAND_SPAN
        invariant
            0 < d,
            p == d * pow2(e as nat),
            0 < p,
            e == 0 || 2 * (n / p) >= SIGNIFICAND_SPAN,
            e <= 75,
            e == 0 || p < 0x1000_0000_0000_0000_0000,
            e == 0 ==> p == d,
        decreases n / p,
    {
        proof {
            let x = n as int / p as int;
            lemma_fundamental_div_mod(n as int, p as int);
            assert(p * SIGNIFICAND_SPAN <= n) by (nonlinear_arith)
                requires
                    n == p * x + n as int % p as int,
                    n as int % p as int >= 0,
                    x >= SIGNIFICAND_SPAN,
                    p > 0,
            ;
            lemma_div_denominator(n as int, p as int, 2);
            lemma_pow2_adds(e as nat, 1);
            lemma2_to64();
            assert(d * pow2((e + 1) as nat) == p * 2) by (nonlinear_arith)
                requires
                    p == d * pow2(e as nat),
                    pow2((e + 1) as nat) == pow2(e as nat) * 2,
            ;
            if e >= 75 {
                lemma_pow2_adds(64, 11);
                assert(p >= pow2(75)) by (nonlinear_arith)
                    requires
                        p == d * pow2(75),
                        d >= 1,
                ;
            }
        }
        p = p * 2;
        e = e + 1;
    }
    let q: u128 = n / p;
    let rest: u128 = n % p;
    proof {
        lemma_double(n as int, d as int, e as nat);
        lemma_pow2_pos(e as nat);
        lemma_fundamental_div_mod(n as int, p as int);
        let pe = pow2(e as nat) as int;
        assert(q * pe <= n) by (nonlinear_arith)
            requires
                n == p * q + rest,
                rest >= 0,
                p == d * pe,
                d >= 1,
                q >= 0,
                pe > 0,
        ;
        if e > 0 {
            assert(pe <= n) by (nonlinear_arith)
                requires
                    n == p * q + rest,
                    rest >= 0,
                    p == d * pe,
                    d >= 1,
                    q >= 1,
                    pe > 0,
            ;
        }
        assert((q + 1) * pe == q * pe + pe) by (nonlinear_arith);
        if e == 0 {
            assert(pe == 1);
            lemma2_to64();
        }
    }
    if 2 * rest < p || (2 * rest == p && q % 2 == 0) {
        (q as u64, e)
    } else {
        ((q + 1) as u64, e)
    }
}

} // verus!
