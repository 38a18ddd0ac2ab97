//! What holds of the history for all points: its runs and its energy.
use crate::arithmetic::{
    lemma_exact_value_is_kept, lemma_product_with_zero, lemma_representable, lemma_rounding_exists,
    lemma_rounding_keeps_order, lemma_sum_with_zero, lemma_whole_is_exact, nearest, signed, whole,
};
use crate::binary32::{lemma_magnitude_value_increases, magnitude_value, num, unit_value, Binary32, ONE_BITS, ZERO_BITS};
use crate::exactness::{
    lemma_difference_is_exact, lemma_plain, lemma_product_is_at_least, lemma_product_is_plain,
    lemma_products_keep_order, lemma_scaled_pair, lemma_sum_is_at_least, lemma_sum_is_plain, lemma_sums_keep_order,
    plain,
};
use crate::renderer::geometry::Pos2;
use crate::renderer::history::{
    band_response, counts_as_lock, energy_at, energy_of_band, run_state, runs_of, BAND_COUNT_BITS, ENERGY_FLOOR_BITS,
    ENERGY_RANGE_BITS, HISTORY_BANDS,
};
use vstd::arithmetic::div_mod::{
    lemma_div_is_ordered, lemma_div_multiples_vanish, lemma_div_pos_is_pos, lemma_fundamental_div_mod,
};
use vstd::arithmetic::power2::{lemma2_to64, lemma_pow2_adds, lemma_pow2_pos, pow2};
use vstd::prelude::*;

verus! {

/// Whether a point is of the wanted kind.
pub open spec fn wanted(locks: Seq<Binary32>, threshold: Binary32, want_locked: bool, index: int) -> bool {
    counts_as_lock(locks, index, threshold) == want_locked
}

/// The finished blocks of wanted indices below `count`, each with its start
/// and its end, and the start of the block that reaches up to `count`.
pub open spec fn block_state(
    locks: Seq<Binary32>,
    threshold: Binary32,
    want_locked: bool,
    count: int,
) -> (Seq<(int, int)>, int)
    decreases count,
{
    if count <= 0 {
        (Seq::empty(), 0)
    } else {
        let (blocks, start) = block_state(locks, threshold, want_locked, count - 1);
        if wanted(locks, threshold, want_locked, count - 1) {
            (blocks, start)
        } else if start < count - 1 {
            (blocks.push((start, count - 1)), count)
        } else {
            (blocks, count)
        }
    }
}

/// The blocks of wanted indices below `count`.
pub open spec fn blocks_of(locks: Seq<Binary32>, threshold: Binary32, want_locked: bool, count: int) -> Seq<
    (int, int),
> {
    let (blocks, start) = block_state(locks, threshold, want_locked, count);
    if start < count {
        blocks.push((start, count))
    } else {
        blocks
    }
}

/// Whether a block is not empty, holds wanted indices only, and can be
/// extended to neither side.
pub open spec fn is_maximal(
    block: (int, int),
    locks: Seq<Binary32>,
    threshold: Binary32,
    want_locked: bool,
    count: int,
) -> bool {
    &&& 0 <= block.0 < block.1 <= count
    &&& forall|k: int| block.0 <= k < block.1 ==> #[trigger] wanted(locks, threshold, want_locked, k)
    &&& block.0 > 0 ==> !wanted(locks, threshold, want_locked, block.0 - 1)
    &&& block.1 < count ==> !wanted(locks, threshold, want_locked, block.1)
}

/// Whether an index lies in one of the blocks.
pub open spec fn is_covered(blocks: Seq<(int, int)>, index: int) -> bool {
    exists|i: int| 0 <= i < blocks.len() && (#[trigger] blocks[i]).0 <= index < blocks[i].1
}

proof fn lemma_blocks(locks: Seq<Binary32>, threshold: Binary32, want_locked: bool, count: int)
    requires
        0 <= count,
    ensures
        ({
            let (blocks, start) = block_state(locks, threshold, want_locked, count);
            &&& 0 <= start <= count
            &&& forall|k: int| start <= k < count ==> #[trigger] wanted(locks, threshold, want_locked, k)
            &&& start > 0 ==> !wanted(locks, threshold, want_locked, start - 1)
            &&& forall|i: int|
                0 <= i < blocks.len() ==> is_maximal(#[trigger] blocks[i], locks, threshold, want_locked, count)
                    && blocks[i].1 < start
            &&& forall|i: int, j: int| 0 <= i < j < blocks.len() ==> (#[trigger] blocks[i]).1 < (#[trigger] blocks[j]).0
            &&& forall|k: int|
                0 <= k < start && #[trigger] wanted(locks, threshold, want_locked, k) ==> is_covered(blocks, k)
        }),
    decreases count,
{
    if count > 0 {
        lemma_blocks(locks, threshold, want_locked, count - 1);
        let (before, earlier) = block_state(locks, threshold, want_locked, count - 1);
        let (blocks, start) = block_state(locks, threshold, want_locked, count);
        assert forall|i: int| 0 <= i < blocks.len() implies is_maximal(
            #[trigger] blocks[i],
            locks,
            threshold,
            want_locked,
            count,
        ) && blocks[i].1 < start by {
            if i < before.len() {
                assert(is_maximal(before[i], locks, threshold, want_locked, count - 1));
            }
        }
        assert forall|i: int, j: int| 0 <= i < j < blocks.len() implies (#[trigger] blocks[i]).1 < (
        #[trigger] blocks[j]).0 by {
            assert(before[i] == blocks[i]);
            if j < before.len() {
                assert(before[j] == blocks[j]);
            }
        }
        assert forall|k: int| 0 <= k < start && #[trigger] wanted(locks, threshold, want_locked, k) implies is_covered(
            blocks,
            k,
        ) by {
            if k < earlier {
                assert(is_covered(before, k));
                let i = choose|i: int| 0 <= i < before.len() && (#[trigger] before[i]).0 <= k < before[i].1;
                assert(blocks[i] == before[i]);
            } else {
                assert(blocks[before.len() as int] == (earlier, count - 1));
            }
        }
    }
}

proof fn lemma_runs_are_blocks(
    points: Seq<Pos2>,
    locks: Seq<Binary32>,
    threshold: Binary32,
    want_locked: bool,
    count: int,
)
    requires
        0 <= count <= points.len(),
    ensures
        ({
            let (runs, current) = run_state(points, locks, threshold, want_locked, count);
            let (blocks, start) = block_state(locks, threshold, want_locked, count);
            &&& runs == blocks.map_values(|block: (int, int)| points.subrange(block.0, block.1))
            &&& 0 <= start <= count
            &&& current == points.subrange(start, count)
        }),
    decreases count,
{
    lemma_blocks(locks, threshold, want_locked, count);
    let (runs, current) = run_state(points, locks, threshold, want_locked, count);
    let (blocks, start) = block_state(locks, threshold, want_locked, count);
    if count > 0 {
        lemma_runs_are_blocks(points, locks, threshold, want_locked, count - 1);
    }
    assert(current =~= points.subrange(start, count));
    assert(runs =~= blocks.map_values(|block: (int, int)| points.subrange(block.0, block.1)));
}

/// The runs are exactly the maximal contiguous blocks of wanted points, in
/// order: none is empty, none can be extended, between two of them lies an
/// unwanted point, and every wanted point lies in one.
pub proof fn law_runs_are_maximal_blocks(
    points: Seq<Pos2>,
    locks: Seq<Binary32>,
    threshold: Binary32,
    want_locked: bool,
)
    ensures
        ({
            let count = points.len() as int;
            let blocks = blocks_of(locks, threshold, want_locked, count);
            &&& runs_of(points, locks, threshold, want_locked) == blocks.map_values(
                |block: (int, int)| points.subrange(block.0, block.1),
            )
            &&& forall|i: int|
                0 <= i < blocks.len() ==> is_maximal(#[trigger] blocks[i], locks, threshold, want_locked, count)
            &&& forall|i: int, j: int| 0 <= i < j < blocks.len() ==> (#[trigger] blocks[i]).1 < (#[trigger] blocks[j]).0
            &&& forall|k: int|
                0 <= k < count ==> (#[trigger] wanted(locks, threshold, want_locked, k) <==> is_covered(blocks, k))
        }),
{
    let count = points.len() as int;
    lemma_blocks(locks, threshold, want_locked, count);
    lemma_runs_are_blocks(points, locks, threshold, want_locked, count);
    let (finished, start) = block_state(locks, threshold, want_locked, count);
    let blocks = blocks_of(locks, threshold, want_locked, count);
    assert(runs_of(points, locks, threshold, want_locked) =~= blocks.map_values(
        |block: (int, int)| points.subrange(block.0, block.1),
    ));
    assert forall|i: int, j: int| 0 <= i < j < blocks.len() implies (#[trigger] blocks[i]).1 < (#[trigger] blocks[j]).0 by {
        assert(finished[i] == blocks[i]);
        if j < finished.len() {
            assert(finished[j] == blocks[j]);
        }
    }
    assert forall|k: int| 0 <= k < count implies (#[trigger] wanted(locks, threshold, want_locked, k) <==> is_covered(
        blocks,
        k,
    )) by {
        if wanted(locks, threshold, want_locked, k) {
            if k < start {
                let i = choose|i: int| 0 <= i < finished.len() && (#[trigger] finished[i]).0 <= k < finished[i].1;
                assert(blocks[i] == finished[i]);
            } else {
                assert(blocks[finished.len() as int] == (start, count));
            }
        } else if is_covered(blocks, k) {
            let i = choose|i: int| 0 <= i < blocks.len() && (#[trigger] blocks[i]).0 <= k < blocks[i].1;
            assert(is_maximal(blocks[i], locks, threshold, want_locked, count));
        }
    }
}

/// The energy of a band before the opacity.
spec fn full_energy(band: int) -> Binary32 {
    num(ENERGY_FLOOR_BITS).sum(num(ENERGY_RANGE_BITS).product(band_response(band)))
}

/// A multiple of one 256th that is not above the full energy of a band.
spec fn energy_low(band: int) -> int {
    if band == 0 {
        28
    } else if band == 1 {
        45
    } else if band == 2 {
        69
    } else if band == 3 {
        97
    } else if band == 4 {
        131
    } else if band == 5 {
        168
    } else if band == 6 {
        210
    } else {
        255
    }
}

/// A multiple of one 256th.
proof fn lemma_grid(k: int) -> (x: Binary32)
    requires
        0 <= k < 0x1000,
    ensures
        plain(x),
        x.value() == k * pow2(141),
{
    let m = lemma_representable(k, 141);
    let x = signed(false, m);
    x
}

proof fn lemma_grid_times_unit(k: int, small: int, grid: int, unit: int)
    requires
        grid == 0x10_0000 * small,
        unit == 0x1000_0000 * small,
    ensures
        (k * grid) * unit == (k * 0x1_0000_0000_0000) * (small * small),
{
    assert((k * (0x10_0000 * small)) * (0x1000_0000 * small) == (k * 0x1_0000_0000_0000) * (small * small))
        by (nonlinear_arith);
}

/// The value of a constant by its significand and exponent.
proof fn lemma_constant(x: Binary32, significand: int, k: nat, n: int)
    requires
        plain(x),
        k <= 5,
        x.magnitude() == (122 + k) * 0x80_0000 + significand - 0x80_0000,
        0x80_0000 <= significand < 0x100_0000,
        n == significand * pow2(k),
    ensures
        x.value() == n * pow2(121),
{
    let small = pow2(121) as int;
    lemma_pow2_adds(121, k);
    assert(x.value() == significand * pow2(121 + k));
    let p = pow2(k) as int;
    assert(significand * (small * p) == (significand * p) * small) by (nonlinear_arith);
}

/// Each band with its position among the 256ths.
proof fn lemma_full_energy(band: int)
    requires
        0 <= band,
    ensures
        plain(full_energy(band)),
        energy_low(band) * pow2(141) <= full_energy(band).value() <= (energy_low(band) + 2) * pow2(141),
{
    let small = pow2(121) as int;
    let grid = pow2(141) as int;
    let unit = unit_value();
    lemma2_to64();
    lemma_pow2_pos(121);
    lemma_pow2_adds(121, 20);
    lemma_pow2_adds(121, 28);
    assert(grid == 0x10_0000 * small && unit == 0x1000_0000 * small);
    let floor = num(ENERGY_FLOOR_BITS);
    let range = num(ENERGY_RANGE_BITS);
    let response = band_response(band);
    lemma_constant(floor, 0xa3_d70a, 1, 21_474_836);
    lemma_constant(range, 0xeb_851f, 4, 246_960_624);
    let n: int = if band == 0 {
        9_635_980
    } else if band == 1 {
        29_210_828
    } else if band == 2 {
        55_884_312
    } else if band == 3 {
        88_550_672
    } else if band == 4 {
        126_545_848
    } else if band == 5 {
        169_409_552
    } else if band == 6 {
        216_796_752
    } else {
        268_435_456
    };
    if band == 0 {
        lemma_constant(response, 0x93_088c, 0, n);
    } else if band == 1 {
        lemma_constant(response, 0xde_dc66, 1, n);
    } else if band == 2 {
        lemma_constant(response, 0xd5_2e86, 2, n);
    } else if band == 3 {
        lemma_constant(response, 0xa8_e5a2, 3, n);
    } else if band == 4 {
        lemma_constant(response, 0xf1_5df7, 3, n);
    } else if band == 5 {
        lemma_constant(response, 0xa1_8fc1, 4, n);
    } else if band == 6 {
        lemma_constant(response, 0xce_c0e5, 4, n);
    } else {
        lemma_constant(response, 0x80_0000, 5, n);
    }
    let low = energy_low(band) - 20;
    assert(low * 0x1_0000_0000_0000 <= 246_960_624 * n <= (low + 1) * 0x1_0000_0000_0000);
    let below = lemma_grid(low);
    let above = lemma_grid(low + 1);
    let square = small * small;
    assert(square >= 0) by (nonlinear_arith)
        requires
            square == small * small,
    ;
    lemma_grid_times_unit(low, small, grid, unit);
    lemma_grid_times_unit(low + 1, small, grid, unit);
    let product = 246_960_624 * n;
    assert(range.value() * response.value() == product * square) by (nonlinear_arith)
        requires
            range.value() == 246_960_624 * small,
            response.value() == n * small,
            product == 246_960_624 * n,
            square == small * small,
    ;
    assert((low * 0x1_0000_0000_0000) * square <= product * square <= ((low + 1) * 0x1_0000_0000_0000) * square)
        by (nonlinear_arith)
        requires
            low * 0x1_0000_0000_0000 <= product <= (low + 1) * 0x1_0000_0000_0000,
            square >= 0,
    ;
    lemma_product_is_plain(range, response, above);
    lemma_product_is_at_least(range, response, below);
    let fading = range.product(response);
    let bottom = lemma_grid(low + 20);
    let top = lemma_grid(low + 22);
    assert(20 * grid <= floor.value() <= 21 * grid);
    assert((low + 22) * grid == (low + 1) * grid + 21 * grid && (low + 20) * grid == low * grid + 20 * grid)
        by (nonlinear_arith);
    lemma_sum_is_plain(floor, fading, top);
    lemma_sum_is_at_least(floor, fading, bottom);
}

/// The energies of neighbouring bands grow, but less than twofold, or are
/// equal.
proof fn lemma_neighbouring_energies(band: int)
    requires
        0 <= band,
    ensures
        plain(full_energy(band)),
        plain(full_energy(band + 1)),
        full_energy(band).value() <= full_energy(band + 1).value() < 2 * full_energy(band).value(),
{
    lemma_full_energy(band);
    lemma_full_energy(band + 1);
    lemma_pow2_pos(141);
    let grid = pow2(141) as int;
    let (low, next) = (energy_low(band), energy_low(band + 1));
    if band < 7 {
        assert((low + 2) * grid <= next * grid && (next + 2) * grid < 2 * (low * grid)) by (nonlinear_arith)
            requires
                low + 2 <= next,
                next + 2 < 2 * low,
                grid > 0,
        ;
    } else {
        assert(255 * grid > 0);
    }
}

/// The opacity of a display is a share: between zero and one.
pub open spec fn is_opacity(opacity: Binary32) -> bool {
    num(ZERO_BITS).at_most(opacity) && opacity.at_most(num(ONE_BITS))
}

/// For a plain opacity the energies of two neighbouring bands, and what lies
/// between them.
proof fn lemma_between_bands(band: int, opacity: Binary32, t: Binary32)
    requires
        0 <= band,
        plain(opacity),
        opacity.value() <= unit_value(),
        plain(t),
        t.value() <= unit_value(),
    ensures
        ({
            let current = energy_of_band(band, opacity);
            let next = energy_of_band(band + 1, opacity);
            let rise = next.difference(current);
            let energy = current.sum(rise.product(t));
            &&& plain(current) && plain(next) && plain(rise) && plain(rise.product(t)) && plain(energy)
            &&& current.value() <= energy.value() <= next.value()
        }),
{
    lemma_neighbouring_energies(band);
    lemma_scaled_pair(full_energy(band), full_energy(band + 1), opacity);
    let current = energy_of_band(band, opacity);
    let next = energy_of_band(band + 1, opacity);
    let rise = next.difference(current);
    lemma_difference_is_exact(current, next);
    lemma_plain(rise);
    lemma_plain(t);
    let (x, y, unit) = (rise.value(), t.value(), unit_value());
    assert(x * y <= x * unit) by (nonlinear_arith)
        requires
            0 <= x,
            0 <= y <= unit,
    ;
    lemma_product_is_plain(rise, t, rise);
    let part = rise.product(t);
    lemma_plain(part);
    lemma_sum_is_plain(current, part, next);
    lemma_sum_is_at_least(current, part, current);
}

/// The energies of all bands grow with the band.
proof fn lemma_energies_grow(low: int, high: int, opacity: Binary32)
    requires
        0 <= low <= high,
        plain(opacity),
        opacity.value() <= unit_value(),
    ensures
        plain(energy_of_band(low, opacity)),
        plain(energy_of_band(high, opacity)),
        energy_of_band(low, opacity).value() <= energy_of_band(high, opacity).value(),
    decreases high - low,
{
    lemma_neighbouring_energies(low);
    lemma_scaled_pair(full_energy(low), full_energy(low + 1), opacity);
    if low < high {
        lemma_energies_grow(low + 1, high, opacity);
    }
}

/// The position of a recency among the bands.
pub open spec fn band_position(recency: Binary32) -> Binary32 {
    recency.unit().product(num(BAND_COUNT_BITS)).smaller(num(BAND_COUNT_BITS))
}

proof fn lemma_eight()
    ensures
        num(BAND_COUNT_BITS).value() == 8 * unit_value(),
        num(ONE_BITS).value() == unit_value(),
        unit_value() > 0,
{
    lemma2_to64();
    lemma_pow2_pos(149);
    lemma_pow2_adds(23, 129);
    lemma_pow2_adds(149, 3);
    lemma_pow2_adds(23, 126);
    assert(magnitude_value(BAND_COUNT_BITS as int) == 0x80_0000 * pow2(129));
    assert(magnitude_value(ONE_BITS as int) == 0x80_0000 * pow2(126));
}

/// The number without its sign, if it is a zero.
pub open spec fn unsigned_zero(x: Binary32) -> Binary32 {
    if x.magnitude() == 0 {
        num(ZERO_BITS)
    } else {
        x
    }
}

/// Every recency has a position from zero to eight, which grows with it.
proof fn lemma_positions(a: Binary32, b: Binary32)
    requires
        a.at_most(b),
    ensures
        ({
            let (x, y) = (band_position(a), band_position(b));
            &&& x.finite() && y.finite()
            &&& 0 <= x.value() <= y.value() <= 8 * unit_value()
        }),
{
    let eight = num(BAND_COUNT_BITS);
    lemma_eight();
    let (p, q) = (unsigned_zero(a.unit()), unsigned_zero(b.unit()));
    let unit = unit_value();
    assert(plain(p) && plain(q) && plain(eight));
    p.lemma_rank_orders_values(q);
    p.lemma_rank_orders_values(num(ONE_BITS));
    q.lemma_rank_orders_values(num(ONE_BITS));
    lemma_plain(p);
    lemma_plain(q);
    assert(p.value() <= q.value() <= unit);
    assert(p.value() * eight.value() <= eight.value() * unit && q.value() * eight.value() <= eight.value() * unit)
        by (nonlinear_arith)
        requires
            0 <= p.value() <= q.value() <= unit,
            eight.value() >= 0,
    ;
    lemma_product_is_plain(p, eight, eight);
    lemma_product_is_plain(q, eight, eight);
    lemma_products_keep_order(p, eight, q, eight);
    lemma_position(a);
    lemma_position(b);
}

/// The position of a zero is zero, and any other one is the product itself.
proof fn lemma_position(a: Binary32)
    requires
        !a.nan(),
    ensures
        band_position(a).finite(),
        band_position(a).value() == unsigned_zero(a.unit()).product(num(BAND_COUNT_BITS)).value(),
        plain(unsigned_zero(a.unit()).product(num(BAND_COUNT_BITS))),
        unsigned_zero(a.unit()).product(num(BAND_COUNT_BITS)).value() <= 8 * unit_value(),
{
    let eight = num(BAND_COUNT_BITS);
    let p = unsigned_zero(a.unit());
    let unit = unit_value();
    lemma_eight();
    assert(plain(p) && plain(eight));
    p.lemma_rank_orders_values(num(ONE_BITS));
    lemma_plain(p);
    assert(p.value() * eight.value() <= eight.value() * unit) by (nonlinear_arith)
        requires
            0 <= p.value() <= unit,
            eight.value() >= 0,
    ;
    lemma_product_is_plain(p, eight, eight);
    let product = p.product(eight);
    product.lemma_rank_orders_values(eight);
    assert(magnitude_value(0) == 0);
    if a.unit().magnitude() == 0 {
        lemma_product_with_zero(a.unit(), eight);
        lemma_product_with_zero(p, eight);
    }
}

/// Where a position lies within its band.
pub proof fn lemma_offset(x: Binary32, band: int)
    requires
        x.finite(),
        0 <= x.value() <= 8 * unit_value(),
        band == x.whole_part(),
    ensures
        0 <= band <= 8,
        band * unit_value() <= x.value() < (band + 1) * unit_value(),
        plain(unsigned_zero(x.difference(whole(band as nat)).unit())),
        unsigned_zero(x.difference(whole(band as nat)).unit()).value() <= unit_value(),
        x.difference(whole(band as nat)).unit().finite(),
        x.difference(whole(band as nat)).magnitude() == nearest(x.value() - band * unit_value(), 1),
        !x.difference(whole(band as nat)).nan(),
        x.difference(whole(band as nat)).magnitude() == 0 || !x.difference(whole(band as nat)).negative(),
        x.difference(whole(band as nat)).magnitude() <= ONE_BITS,
{
    let unit = unit_value();
    lemma_eight();
    let v = x.value();
    lemma_fundamental_div_mod(v, unit);
    lemma_div_is_ordered(v, 8 * unit, unit);
    lemma_div_multiples_vanish(8, unit);
    lemma_div_pos_is_pos(v, unit);
    assert(magnitude_value(0) == 0);
    if x.negative() {
        x.lemma_parts();
        lemma_magnitude_value_increases(0, x.magnitude());
        assert(v == 0);
        assert(band == 0);
    } else {
        assert(band == v / unit);
    }
    assert(band * unit <= v < (band + 1) * unit) by (nonlinear_arith)
        requires
            v == unit * (v / unit) + v % unit,
            0 <= v % unit < unit,
            band == v / unit || (band == 0 && v == 0),
            unit > 0,
    ;
    lemma_whole_is_exact(band as nat);
    let start = whole(band as nat);
    let t = x.difference(start);
    let exact = v - band * unit;
    lemma_plain(start);
    assert(start.opposite().value() == -start.value());
    lemma_rounding_exists(exact, 1);
    assert((band + 1) * unit == band * unit + unit) by (nonlinear_arith);
    lemma_exact_value_is_kept(unit, 1, ONE_BITS as int);
    lemma_rounding_keeps_order(exact, unit, 1);
    assert(t.magnitude() <= ONE_BITS);
    if exact == 0 {
        lemma_exact_value_is_kept(0, 1, 0);
    }
    let shown = unsigned_zero(t.unit());
    assert(plain(shown));
    shown.lemma_rank_orders_values(num(ONE_BITS));
    lemma_plain(shown);
}

/// The energy at a recency, with its band and its place in the band.
proof fn lemma_energy(recency: Binary32, opacity: Binary32)
    requires
        !recency.nan(),
        plain(opacity),
        opacity.value() <= unit_value(),
    ensures
        ({
            let x = band_position(recency);
            let band = x.whole_part();
            let t = unsigned_zero(x.difference(whole(band as nat)).unit());
            let current = energy_of_band(band, opacity);
            let next = energy_of_band(band + 1, opacity);
            let energy = current.sum(next.difference(current).product(t));
            &&& 0 <= band <= 8
            &&& plain(current) && plain(next) && plain(energy)
            &&& energy_at(recency, opacity).finite()
            &&& energy_at(recency, opacity).value() == energy.value()
            &&& current.value() <= energy.value() <= next.value()
        }),
{
    lemma_positions(recency, recency);
    let x = band_position(recency);
    let band = x.whole_part();
    lemma_offset(x, band);
    let t = x.difference(whole(band as nat)).unit();
    let shown = unsigned_zero(t);
    lemma_between_bands(band, opacity, shown);
    let current = energy_of_band(band, opacity);
    let next = energy_of_band(band + 1, opacity);
    let rise = next.difference(current);
    if t.magnitude() == 0 {
        lemma_adding_nothing(current, rise, t);
        lemma_adding_nothing(current, rise, shown);
    }
}

/// Adding a product with zero keeps the value.
proof fn lemma_adding_nothing(current: Binary32, rise: Binary32, zero: Binary32)
    requires
        plain(current),
        rise.finite(),
        zero.magnitude() == 0,
    ensures
        current.sum(rise.product(zero)).finite(),
        current.sum(rise.product(zero)).value() == current.value(),
{
    lemma_product_with_zero(zero, rise);
    assert(magnitude_value(0) == 0);
    lemma_plain(current);
    if current.magnitude() != 0 {
        lemma_sum_with_zero(current, rise.product(zero));
    }
}

/// Without opacity there is no energy.
proof fn lemma_no_energy(recency: Binary32, opacity: Binary32)
    requires
        !recency.nan(),
        opacity.magnitude() == 0,
    ensures
        energy_at(recency, opacity).magnitude() == 0,
        forall|band: int| 0 <= band ==> (#[trigger] energy_of_band(band, opacity)).magnitude() == 0,
{
    assert forall|band: int| 0 <= band implies (#[trigger] energy_of_band(band, opacity)).magnitude() == 0 by {
        lemma_full_energy(band);
        lemma_product_with_zero(opacity, full_energy(band));
    }
    lemma_positions(recency, recency);
    let x = band_position(recency);
    let band = x.whole_part();
    lemma_offset(x, band);
    let t = x.difference(whole(band as nat)).unit();
    let current = energy_of_band(band, opacity);
    let next = energy_of_band(band + 1, opacity);
    assert(current.magnitude() == 0 && next.magnitude() == 0);
    assert(magnitude_value(0) == 0);
    let rise = next.difference(current);
    assert(rise.magnitude() == 0);
    lemma_product_with_zero(rise, t);
}

/// An opacity is zero or plain.
proof fn lemma_opacity(opacity: Binary32)
    requires
        is_opacity(opacity),
    ensures
        opacity.magnitude() == 0 || plain(opacity) && opacity.value() <= unit_value(),
{
    lemma_eight();
    opacity.lemma_rank_orders_values(num(ONE_BITS));
}

proof fn lemma_order(a: Binary32, b: Binary32)
    requires
        a.finite(),
        b.finite(),
        a.value() <= b.value(),
    ensures
        a.at_most(b),
{
    a.lemma_rank_orders_values(b);
    b.lemma_rank_orders_values(a);
}

/// The energy never decreases with recency.
pub proof fn law_energy_grows_with_recency(older: Binary32, newer: Binary32, opacity: Binary32)
    requires
        older.at_most(newer),
        is_opacity(opacity),
    ensures
        energy_at(older, opacity).at_most(energy_at(newer, opacity)),
{
    lemma_opacity(opacity);
    if opacity.magnitude() == 0 {
        lemma_no_energy(older, opacity);
        lemma_no_energy(newer, opacity);
    } else {
        lemma_positions(older, newer);
        lemma_energy(older, opacity);
        lemma_energy(newer, opacity);
        let (x, y) = (band_position(older), band_position(newer));
        let (a, b) = (x.whole_part(), y.whole_part());
        lemma_offset(x, a);
        lemma_offset(y, b);
        let unit = unit_value();
        assert(a <= b) by (nonlinear_arith)
            requires
                a * unit <= x.value(),
                y.value() < (b + 1) * unit,
                x.value() <= y.value(),
                unit > 0,
        ;
        if a < b {
            lemma_energies_grow(a + 1, b, opacity);
        } else {
            lemma_same_band(x, y, a, opacity);
        }
        lemma_order(energy_at(older, opacity), energy_at(newer, opacity));
    }
}

/// Within a band the energy grows with the position.
proof fn lemma_same_band(x: Binary32, y: Binary32, band: int, opacity: Binary32)
    requires
        x.finite(),
        y.finite(),
        0 <= x.value() <= y.value() <= 8 * unit_value(),
        band == x.whole_part(),
        band == y.whole_part(),
        plain(opacity),
        opacity.value() <= unit_value(),
    ensures
        ({
            let s = unsigned_zero(x.difference(whole(band as nat)).unit());
            let t = unsigned_zero(y.difference(whole(band as nat)).unit());
            let current = energy_of_band(band, opacity);
            let rise = energy_of_band(band + 1, opacity).difference(current);
            current.sum(rise.product(s)).value() <= current.sum(rise.product(t)).value()
        }),
{
    lemma_offset(x, band);
    lemma_offset(y, band);
    let s = unsigned_zero(x.difference(whole(band as nat)).unit());
    let t = unsigned_zero(y.difference(whole(band as nat)).unit());
    lemma_between_bands(band, opacity, s);
    lemma_between_bands(band, opacity, t);
    let start = band * unit_value();
    lemma_rounding_keeps_order(x.value() - start, y.value() - start, 1);
    s.lemma_rank_orders_values(t);
    assert(s.value() <= t.value());
    let current = energy_of_band(band, opacity);
    let rise = energy_of_band(band + 1, opacity).difference(current);
    lemma_products_keep_order(rise, s, rise, t);
    lemma_sums_keep_order(current, rise.product(s), current, rise.product(t));
}

/// Within a band the energy lies between that of the band and that of the
/// next: it takes no value outside and never jumps.
pub proof fn law_energy_stays_between_bands(recency: Binary32, opacity: Binary32)
    requires
        !recency.nan(),
        is_opacity(opacity),
    ensures
        ({
            let band = band_position(recency).whole_part();
            &&& 0 <= band <= HISTORY_BANDS
            &&& energy_of_band(band, opacity).at_most(energy_at(recency, opacity))
            &&& energy_at(recency, opacity).at_most(energy_of_band(band + 1, opacity))
        }),
{
    lemma_opacity(opacity);
    let band = band_position(recency).whole_part();
    if opacity.magnitude() == 0 {
        lemma_positions(recency, recency);
        lemma_offset(band_position(recency), band);
        lemma_no_energy(recency, opacity);
        assert(energy_of_band(band, opacity).magnitude() == 0);
        assert(energy_of_band(band + 1, opacity).magnitude() == 0);
    } else {
        lemma_energy(recency, opacity);
        lemma_order(energy_of_band(band, opacity), energy_at(recency, opacity));
        lemma_order(energy_at(recency, opacity), energy_of_band(band + 1, opacity));
    }
}

/// A recency beyond either end acts as that end.
pub proof fn law_energy_beyond_the_ends(recency: Binary32, opacity: Binary32)
    ensures
        energy_at(recency, opacity) == energy_at(recency.unit(), opacity),
{
    assert(recency.unit().unit() == recency.unit());
}

/// At each boundary of the bands the energy is exactly that of the band: for
/// every opacity, `k` eighths give the energy of band `k`, and one gives that
/// of the newest.
pub proof fn law_energy_at_the_boundaries(k: nat, opacity: Binary32)
    requires
        k <= HISTORY_BANDS,
        is_opacity(opacity),
    ensures
        ({
            let energy = energy_at(whole(k).quotient(num(BAND_COUNT_BITS)), opacity);
            let band = energy_of_band(if k < HISTORY_BANDS { k as int } else { HISTORY_BANDS - 1 }, opacity);
            energy.at_most(band) && band.at_most(energy)
        }),
{
    let recency = whole(k).quotient(num(BAND_COUNT_BITS));
    lemma_boundary(k);
    let x = band_position(recency);
    lemma_opacity(opacity);
    if opacity.magnitude() == 0 {
        lemma_no_energy(recency, opacity);
    } else {
        lemma_energy(recency, opacity);
        lemma_offset(x, k as int);
        lemma_exact_value_is_kept(0, 1, 0);
        let t = x.difference(whole(k)).unit();
        assert(x.value() - k * unit_value() == 0);
        assert(magnitude_value(0) == 0);
        assert(t.magnitude() == 0);
        let current = energy_of_band(k as int, opacity);
        let next = energy_of_band(k as int + 1, opacity);
        lemma_between_bands(k as int, opacity, num(ZERO_BITS));
        lemma_adding_nothing(current, next.difference(current), num(ZERO_BITS));
        lemma_order(energy_at(recency, opacity), current);
        lemma_order(current, energy_at(recency, opacity));
    }
}

/// The position of `k` eighths is `k`.
proof fn lemma_boundary(k: nat)
    requires
        k <= HISTORY_BANDS,
    ensures
        ({
            let recency = whole(k).quotient(num(BAND_COUNT_BITS));
            &&& !recency.nan()
            &&& band_position(recency).finite()
            &&& 0 <= band_position(recency).value() <= 8 * unit_value()
            &&& band_position(recency).value() == k * unit_value()
            &&& band_position(recency).whole_part() == k
        }),
{
    let unit = unit_value();
    let eight = num(BAND_COUNT_BITS);
    let recency = whole(k).quotient(eight);
    lemma_eight();
    lemma_whole_is_exact(k);
    lemma_plain(whole(k));
    lemma_plain(eight);
    let eighth = pow2(146) as int;
    lemma_pow2_adds(146, 3);
    lemma2_to64();
    assert(unit == 8 * eighth);
    let m = lemma_representable(k as int, 146);
    assert((k * unit) * unit == (k * eighth) * (8 * unit)) by (nonlinear_arith)
        requires
            unit == 8 * eighth,
    ;
    lemma_exact_value_is_kept((k * unit) * unit, 8 * unit, m);
    assert(recency == signed(false, m));
    lemma_plain(recency);
    assert(recency.value() == k * eighth);
    assert(k * eighth <= unit) by (nonlinear_arith)
        requires
            k <= 8,
            unit == 8 * eighth,
            eighth >= 0,
    ;
    recency.lemma_rank_orders_values(num(ONE_BITS));
    assert(recency.unit() == recency);
    lemma_position(recency);
    assert(magnitude_value(0) == 0);
    if k == 0 {
        assert(0 * eighth == 0 && 0 * unit == 0);
        lemma_product_with_zero(recency, eight);
    } else {
        assert(recency.magnitude() != 0) by {
            assert(k * eighth > 0) by (nonlinear_arith)
                requires
                    k > 0,
                    eighth > 0,
            ;
        }
        assert(unsigned_zero(recency) == recency);
        lemma_exact_value_is_kept((k * unit) * unit, unit, whole(k).magnitude());
        assert(recency.product(eight) == signed(false, whole(k).magnitude()));
    }
    let x = band_position(recency);
    assert(x.value() == k * unit);
    lemma_offset(x, x.whole_part());
    let b = x.whole_part();
    assert(b == k) by (nonlinear_arith)
        requires
            b * unit <= k * unit < (b + 1) * unit,
            unit > 0,
    ;
}

} // verus!
