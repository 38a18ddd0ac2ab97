//! Numbers written without decimals.
use crate::arithmetic::{lemma_scaled_remainder, lemma_whole_is_exact, power_of_two, size, whole};
use crate::binary32::{unit_value, Binary32, SIGN_BIT};
use crate::text::{decimal, wide_decimal_text};
use vstd::arithmetic::div_mod::{lemma_basic_div, lemma_div_multiples_vanish, lemma_mod_multiples_basic, lemma_small_mod};
use vstd::arithmetic::power2::{lemma2_to64, lemma_pow2_adds, lemma_pow2_pos, lemma_pow2_strictly_increases, pow2};
use vstd::prelude::*;
use vstd::string::*;

verus! {

/// The integer nearest to the size of a finite number; of two equally near
/// ones the even one.
pub open spec fn rounded_size(x: Binary32) -> int {
    let below = size(x.value()) / unit_value();
    let rest = size(x.value()) % unit_value();
    if 2 * rest < unit_value() || (2 * rest == unit_value() && below % 2 == 0) {
        below
    } else {
        below + 1
    }
}

/// The size of a number without decimals.
pub open spec fn unsigned_numeral(x: Binary32) -> Seq<char> {
    if x.infinite() {
        "inf"@
    } else {
        decimal(rounded_size(x) as nat)
    }
}

/// A number without decimals, with a minus sign when its sign is negative.
pub open spec fn numeral(x: Binary32) -> Seq<char> {
    if x.nan() {
        "NaN"@
    } else if x.negative() {
        "-"@ + unsigned_numeral(x)
    } else {
        unsigned_numeral(x)
    }
}

/// A number without decimals, always with its sign.
pub open spec fn signed_numeral(x: Binary32) -> Seq<char> {
    if x.nan() {
        "NaN"@
    } else if x.negative() {
        "-"@ + unsigned_numeral(x)
    } else {
        "+"@ + unsigned_numeral(x)
    }
}

impl Binary32 {
    fn rounded(self) -> (r: u128)
        requires
            self.finite(),
        ensures
            r == rounded_size(self),
    {
        let (s, e): (u32, u32) = self.parts();
        let ghost v = size(self.value());
        let ghost u = unit_value();
        proof {
            self.lemma_parts();
            lemma2_to64();
            lemma_pow2_pos(149);
        }
        if e >= 149 {
            let k: u32 = e - 149;
            proof {
                lemma_pow2_adds(k as nat, 149);
                lemma_pow2_adds(24, 104);
                lemma_pow2_adds(64, 64);
                let pk = pow2(k as nat) as int;
                if k < 104 {
                    lemma_pow2_strictly_increases(k as nat, 104);
                }
                assert(v == (s * pk) * u) by (nonlinear_arith)
                    requires
                        v == s * pow2(e as nat),
                        pow2(e as nat) == pk * u,
                ;
                assert(v == u * (s * pk)) by (nonlinear_arith)
                    requires
                        v == (s * pk) * u,
                ;
                lemma_div_multiples_vanish(s * pk, u);
                lemma_mod_multiples_basic(s * pk, u);
                let p104 = pow2(104) as int;
                assert(pow2(24) * p104 == pow2(128));
                assert(0 <= s * pk < pow2(24) * p104) by (nonlinear_arith)
                    requires
                        0 <= s < pow2(24),
                        0 <= pk <= p104,
                        0 < p104,
                ;
            }
            (s as u128) * power_of_two(k)
        } else {
            let k: u32 = 149 - e;
            let ghost pe = pow2(e as nat) as int;
            let ghost pk = pow2(k as nat) as int;
            proof {
                lemma_scaled_remainder(s as int, e as nat, k as nat);
                lemma_pow2_adds(k as nat, e as nat);
                lemma_pow2_pos(e as nat);
                lemma_pow2_pos(k as nat);
                assert(u == pk * pe);
                let rest = s as int % pk;
                assert(2 * (rest * pe) < pk * pe <==> 2 * rest < pk) by (nonlinear_arith)
                    requires
                        pe > 0,
                ;
                assert(2 * (rest * pe) == pk * pe <==> 2 * rest == pk) by (nonlinear_arith)
                    requires
                        pe > 0,
                ;
                if k >= 25 {
                    if k > 25 {
                        lemma_pow2_strictly_increases(25, k as nat);
                    }
                    lemma_basic_div(s as int, pk);
                    lemma_small_mod(s as nat, pk as nat);
                }
            }
            if k >= 26 {
                return 0;
            }
            let p: u128 = power_of_two(k);
            let whole: u128 = (s as u128) / p;
            let rest: u128 = (s as u128) % p;
            proof {
                lemma_pow2_strictly_increases(k as nat, 26);
            }
            if 2 * rest < p || (2 * rest == p && whole % 2 == 0) {
                whole
            } else {
                whole + 1
            }
        }
    }

    fn unsigned_text(self) -> (r: String)
        requires
            !self.nan(),
        ensures
            r@ == unsigned_numeral(self),
    {
        if self.is_finite() {
            wide_decimal_text(self.rounded())
        } else {
            "inf".to_owned()
        }
    }

    /// Writes the number without decimals.
    pub fn to_text(self) -> (r: String)
        ensures
            r@ == numeral(self),
    {
        if self.is_nan() {
            "NaN".to_owned()
        } else if self.bits >= SIGN_BIT {
            let mut text = "-".to_owned();
            text.append(self.unsigned_text().as_str());
            text
        } else {
            self.unsigned_text()
        }
    }

    /// Writes the number without decimals but with its sign.
    pub fn to_signed_text(self) -> (r: String)
        ensures
            r@ == signed_numeral(self),
    {
        if self.is_nan() {
            "NaN".to_owned()
        } else {
            let mut text = if self.bits >= SIGN_BIT {
                "-".to_owned()
            } else {
                "+".to_owned()
            };
            text.append(self.unsigned_text().as_str());
            text
        }
    }
}

/// A whole number that is represented exactly is written as its decimal
/// numeral.
pub proof fn law_whole_numbers_are_written_exactly(n: nat)
    requires
        n < 0x100_0000,
    ensures
        numeral(whole(n)) == decimal(n),
{
    lemma_whole_is_exact(n);
    lemma_pow2_pos(149);
    let u = unit_value();
    assert(n * u == u * n) by (nonlinear_arith);
    lemma_div_multiples_vanish(n as int, u);
    lemma_mod_multiples_basic(n as int, u);
    assert(0 <= n * u) by (nonlinear_arith)
        requires
            u > 0,
    ;
}

} // verus!
