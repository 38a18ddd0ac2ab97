//! What holds of spans of time in seconds.
use crate::arithmetic::{
    lemma_exact_value_is_kept, lemma_one_is_unit, lemma_results_are_numbers, lemma_rounding_exists,
    lemma_rounding_keeps_order, lemma_whole_is_exact, nearest, size, whole,
};
use crate::binary32::{
    lemma_magnitude_value_increases, magnitude_value, unit_value, Binary32, FRACTION_SPAN, ONE_BITS,
};
use crate::direction::{lemma_ratio_between, lemma_relative_error, lemma_sum_error};
use crate::exactness::{
    lemma_common_scale, lemma_plain, lemma_sum_is_at_least, lemma_sum_is_plain, lemma_sums_keep_order, plain,
};
use crate::time::{elapsed_between, in_seconds, GIGA_BITS};
use vstd::arithmetic::power2::{lemma2_to64, lemma_pow2_adds, lemma_pow2_strictly_increases, pow2};
use vstd::prelude::*;

verus! {

/// Sixteen million seconds in nanoseconds: about half a year.
pub const LONG_SPAN_NANOS: u64 = 16_000_000_000_000_000;

/// The time between two moments leads from the earlier to the later one; it is
/// zero if there is none.
pub proof fn law_elapsed_leads_to_the_later_moment(earlier: nat, later: nat)
    ensures
        earlier <= later ==> earlier + elapsed_between(earlier, later) == later,
        later <= earlier ==> elapsed_between(earlier, later) == 0,
{
}

proof fn lemma_giga()
    ensures
        plain((Binary32 { bits: GIGA_BITS })),
        (Binary32 { bits: GIGA_BITS }).value() == 1_000_000_000 * unit_value(),
        unit_value() > 0x1_0000_0000,
{
    let giga = Binary32 { bits: GIGA_BITS };
    giga.lemma_parts();
    lemma_plain(giga);
    lemma2_to64();
    lemma_pow2_adds(6, 149);
    lemma_pow2_strictly_increases(32, 149);
    assert(giga.value() == 15_625_000 * pow2(155));
}

/// The part of a second, as a number.
spec fn rest_of(rest: nat) -> Binary32 {
    whole(rest).quotient((Binary32 { bits: GIGA_BITS }))
}

/// A part of a second is a plain number of at most one, near the exact part.
proof fn lemma_rest(rest: nat)
    requires
        rest < 1_000_000_000,
    ensures
        plain(rest_of(rest)),
        rest_of(rest).value() <= unit_value(),
        rest_of(rest).magnitude() == nearest(whole(rest).value(), 1_000_000_000),
        plain(whole(rest)),
        0x100_0000 * size(whole(rest).value() - rest * unit_value()) <= whole(rest).value(),
        0x100_0000 * size(rest_of(rest).value() * 1_000_000_000 - whole(rest).value()) <= rest_of(rest).value()
            * 1_000_000_000,
{
    let giga = Binary32 { bits: GIGA_BITS };
    let unit = unit_value();
    lemma_giga();
    lemma_plain(giga);
    lemma2_to64();
    let n = rest * unit;
    assert(0 <= n <= 1_000_000_000 * unit && (rest >= 1 ==> unit <= n)) by (nonlinear_arith)
        requires
            n == rest * unit,
            0 <= rest < 1_000_000_000,
            unit > 0,
    ;
    assert(magnitude_value(FRACTION_SPAN as int) == FRACTION_SPAN * pow2(0));
    lemma_magnitude_value_increases(giga.magnitude(), FRACTION_SPAN as int);
    if rest > 0 {
        lemma_ratio_between(n, 1, FRACTION_SPAN as int, giga.magnitude());
    }
    lemma_relative_error(n, 1);
    let w = whole(rest);
    assert(plain(w));
    lemma_plain(w);
    lemma_magnitude_value_increases(w.magnitude(), giga.magnitude());
    assert(w.value() <= 1_000_000_000 * unit);
    // The quotient.
    let v = w.value();
    assert(v * unit >= 0 && (1_000_000_000 * unit) > 0) by (nonlinear_arith)
        requires
            v >= 0,
            unit > 0,
    ;
    lemma_common_scale(v, 1_000_000_000, unit);
    let q = rest_of(rest);
    lemma_one_is_unit();
    if rest > 0 {
        assert(v * 0x200_0000 >= unit) by {
            assert(0x100_0000 * size(v - n) <= v);
        }
        let low = lemma_small_number();
        lemma_magnitude_value_increases(ONE_BITS as int, low);
        lemma_ratio_between(v, 1_000_000_000, FRACTION_SPAN as int, ONE_BITS as int);
    } else {
        lemma_relative_error(0, 1_000_000_000);
    }
    lemma_relative_error(v, 1_000_000_000);
    lemma_results_are_numbers(w, giga);
    assert(q.magnitude() == nearest(v, 1_000_000_000));
    lemma_rounding_exists(v, 1_000_000_000);
    lemma_plain(q);
    lemma_magnitude_value_increases(q.magnitude(), ONE_BITS as int);
}

/// The smallest normal number is far below a billionth.
proof fn lemma_small_number() -> (m: int)
    ensures
        m == FRACTION_SPAN,
        magnitude_value(m) * 0x4000_0000_0000_0000 <= unit_value(),
{
    lemma2_to64();
    lemma_pow2_strictly_increases(96, 149);
    lemma_pow2_adds(64, 32);
    assert(magnitude_value(FRACTION_SPAN as int) == FRACTION_SPAN * pow2(0));
    FRACTION_SPAN as int
}

/// A span in seconds is the span in nanoseconds over a billion, up to one part
/// in two to the power 22.
pub proof fn law_seconds_are_billions_of_nanoseconds(nanos: nat)
    requires
        nanos < LONG_SPAN_NANOS,
    ensures
        plain(in_seconds(nanos)),
        0x40_0000 * size(in_seconds(nanos).value() * 1_000_000_000 - nanos * unit_value()) <= nanos * unit_value(),
{
    let secs = nanos / 1_000_000_000;
    let rest = nanos % 1_000_000_000;
    lemma_whole_is_exact(secs);
    lemma_rest(rest);
    let unit = unit_value();
    lemma_giga();
    let (a, q) = (whole(secs), rest_of(rest));
    lemma_plain(a);
    lemma_plain(q);
    lemma_whole_is_exact(secs + 1);
    assert((secs + 1) * unit == secs * unit + unit && nanos * unit == 1_000_000_000 * (secs * unit) + rest * unit)
        by (nonlinear_arith)
        requires
            nanos == 1_000_000_000 * secs + rest,
    ;
    lemma_sum_is_plain(a, q, whole(secs + 1));
    lemma_sum_error(a, q);
    lemma_plain(in_seconds(nanos));
}

/// Longer spans are not shorter in seconds.
pub proof fn law_seconds_grow_with_nanoseconds(shorter: nat, longer: nat)
    requires
        shorter <= longer < LONG_SPAN_NANOS,
    ensures
        in_seconds(shorter).at_most(in_seconds(longer)),
        plain(in_seconds(shorter)),
        plain(in_seconds(longer)),
        in_seconds(0) == (Binary32 { bits: 0 }),
{
    let unit = unit_value();
    lemma_giga();
    let (sa, ra) = (shorter / 1_000_000_000, shorter % 1_000_000_000);
    let (sb, rb) = (longer / 1_000_000_000, longer % 1_000_000_000);
    lemma_whole_is_exact(sa);
    lemma_whole_is_exact(sb);
    lemma_rest(ra);
    lemma_rest(rb);
    let (a, b, p, q) = (whole(sa), whole(sb), rest_of(ra), rest_of(rb));
    law_seconds_are_billions_of_nanoseconds(shorter);
    law_seconds_are_billions_of_nanoseconds(longer);
    lemma_plain(a);
    lemma_plain(b);
    lemma_plain(p);
    lemma_plain(q);
    lemma_plain(whole(ra));
    lemma_plain(whole(rb));
    assert(sa <= sb);
    if sa == sb {
        assert(ra <= rb);
        assert(ra * unit <= rb * unit) by (nonlinear_arith)
            requires
                ra <= rb,
                unit > 0,
        ;
        assert(0 <= ra * unit) by (nonlinear_arith)
            requires
                0 <= ra,
                unit > 0,
        ;
        lemma_rounding_keeps_order(ra * unit, rb * unit, 1);
        lemma_rounding_exists(ra * unit, 1);
        lemma_rounding_exists(rb * unit, 1);
        assert(whole(ra).magnitude() <= whole(rb).magnitude());
        lemma_magnitude_value_increases(whole(ra).magnitude(), whole(rb).magnitude());
        lemma_rounding_keeps_order(whole(ra).value(), whole(rb).value(), 1_000_000_000);
        lemma_magnitude_value_increases(p.magnitude(), q.magnitude());
        lemma_sums_keep_order(a, p, b, q);
    } else {
        lemma_whole_is_exact(sa + 1);
        assert((sa + 1) * unit == sa * unit + unit && (sa + 1) * unit <= sb * unit) by (nonlinear_arith)
            requires
                sa + 1 <= sb,
                unit > 0,
        ;
        lemma_sum_is_plain(a, p, whole(sa + 1));
        lemma_sum_is_at_least(b, q, b);
    }
    in_seconds(shorter).lemma_rank_orders_values(in_seconds(longer));
    in_seconds(longer).lemma_rank_orders_values(in_seconds(shorter));
    lemma_no_time();
}

proof fn lemma_no_time()
    ensures
        in_seconds(0) == (Binary32 { bits: 0 }),
{
    lemma_rest(0);
    lemma_whole_is_exact(0);
    lemma_giga();
    assert(magnitude_value(0) == 0);
    assert(0 * unit_value() == 0);
    lemma_relative_error(0, 1_000_000_000);
    lemma_exact_value_is_kept(0, 1, 0);
    assert(whole(0) == (Binary32 { bits: 0 }));
    assert(rest_of(0) == (Binary32 { bits: 0 }));
}

} // verus!
