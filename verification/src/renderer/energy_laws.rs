//! How the traces fade with age.
use crate::arithmetic::{
    law_sum_and_product_commute, lemma_exact_value_is_kept, lemma_one_is_unit, lemma_representable,
    lemma_rounding_exists, lemma_rounding_is_unique, nearest, rounds_to, size, whole,
};
use crate::binary32::{lemma_magnitude_value_increases, magnitude_value, num, unit_value, Binary32, ONE_BITS};
use crate::exactness::{
    lemma_integer_constant, lemma_multiple, lemma_plain, lemma_products_keep_order, lemma_share_is_at_most_the_whole,
    lemma_sum_is_plain, lemma_sums_keep_order, plain,
};
use crate::renderer::geometry::Rect;
use crate::renderer::history::{band_response, energy_at, energy_of_band, recency_of};
use crate::renderer::history_laws::{is_opacity, law_energy_grows_with_recency, lemma_offset};
use crate::renderer::hud::F1OpenHud;
use crate::renderer::trace_laws::{age_of, law_recency_falls_with_age, law_recency_is_the_rest_of_the_window, placeable};
use crate::time::{elapsed_between, Instant};
use crate::time_laws::law_seconds_grow_with_nanoseconds;
use vstd::arithmetic::div_mod::lemma_fundamental_div_mod_converse;
use vstd::arithmetic::power2::{lemma2_to64, lemma_pow2_adds, lemma_pow2_pos, pow2};
use vstd::prelude::*;

verus! {

/// The fifth power.
pub open spec fn fifth(x: int) -> int {
    x * x * x * x * x
}

proof fn lemma_fifth(a: int, p: int)
    ensures
        fifth(a * p) == fifth(a) * fifth(p),
{
    let (a2, p2) = (a * a, p * p);
    assert((a * p) * (a * p) == a2 * p2) by (nonlinear_arith)
        requires
            a2 == a * a,
            p2 == p * p,
    ;
    let (a3, p3) = (a2 * a, p2 * p);
    assert((a2 * p2) * (a * p) == a3 * p3) by (nonlinear_arith)
        requires
            a3 == a2 * a,
            p3 == p2 * p,
    ;
    let (a4, p4) = (a3 * a, p3 * p);
    assert((a3 * p3) * (a * p) == a4 * p4) by (nonlinear_arith)
        requires
            a4 == a3 * a,
            p4 == p3 * p,
    ;
    assert((a4 * p4) * (a * p) == (a4 * a) * (p4 * p)) by (nonlinear_arith);
}

/// Whether a number is, up to one part in a million of its fifth power, the part
/// `n` of eight raised to the power 1.6: the fifth power of the number times the
/// eighth power of eight is the eighth power of `n`.
pub open spec fn is_raised_part(x: Binary32, n: int) -> bool {
    let power = n * n * n * n * n * n * n * n;
    size(fifth(x.value()) * 16_777_216 - power * fifth(unit_value())) * 1_000_000 <= power * fifth(unit_value())
}

proof fn lemma_raised(x: Binary32, s: int, t: int, q: nat, n: int, a: int, b: int)
    requires
        x.value() == s * pow2(q),
        unit_value() == t * pow2(q),
        fifth(s) * 16_777_216 == a,
        n * n * n * n * n * n * n * n * fifth(t) == b,
        size(a - b) * 1_000_000 <= b,
    ensures
        is_raised_part(x, n),
{
    let p = pow2(q) as int;
    lemma_pow2_pos(q);
    lemma_fifth(s, p);
    lemma_fifth(t, p);
    let f = fifth(p);
    let power = n * n * n * n * n * n * n * n;
    assert(f > 0) by (nonlinear_arith)
        requires
            f == p * p * p * p * p,
            p > 0,
    ;
    let (c, e) = (fifth(s), fifth(t));
    let d = a - b;
    assert((c * f) * 16_777_216 - power * (e * f) == d * f && power * (e * f) == b * f) by (nonlinear_arith)
        requires
            d == a - b,
            a == c * 16_777_216,
            b == power * e,
    ;
    assert(size(d * f) == size(d) * f) by (nonlinear_arith)
        requires
            f > 0,
            size(d) == if d < 0 { -d } else { d },
            size(d * f) == if d * f < 0 { -(d * f) } else { d * f },
    ;
    assert((size(d) * f) * 1_000_000 <= b * f) by (nonlinear_arith)
        requires
            size(d) * 1_000_000 <= b,
            f > 0,
    ;
}

/// A band answers with the share of the window up to its newer end, raised to
/// the power 1.6.
pub proof fn law_bands_answer_with_a_power_of_their_age(band: int)
    requires
        0 <= band < 8,
    ensures
        is_raised_part(band_response(band), band + 1),
{
    lemma2_to64();
    lemma_pow2_adds(28, 121);
    lemma_pow2_adds(27, 122);
    lemma_pow2_adds(26, 123);
    lemma_pow2_adds(25, 124);
    lemma_pow2_adds(24, 125);
    lemma_pow2_adds(23, 126);
    let r = band_response(band);
    if band == 0 {
        assert(r.value() == 9_635_980 * pow2(121));
        assert((9_635_980int * 9_635_980 * 9_635_980 * 9_635_980 * 9_635_980) * 16_777_216
            == 1_393_796_422_803_104_250_601_157_386_042_133_708_800_000int) by (nonlinear_arith);
        assert((1int * 1 * 1 * 1 * 1 * 1 * 1 * 1) * (0x1000_0000int * 0x1000_0000 * 0x1000_0000 * 0x1000_0000 * 0x1000_0000)
            == 1_393_796_574_908_163_946_345_982_392_040_522_594_123_776int) by (nonlinear_arith);
        lemma_raised(
            r,
            9_635_980,
            0x1000_0000,
            121,
            1,
            1_393_796_422_803_104_250_601_157_386_042_133_708_800_000int,
            1_393_796_574_908_163_946_345_982_392_040_522_594_123_776int,
        );
    } else if band == 1 {
        assert(r.value() == 14_605_414 * pow2(122));
        assert((14_605_414int * 14_605_414 * 14_605_414 * 14_605_414 * 14_605_414) * 16_777_216
            == 11_150_369_395_329_959_473_836_154_923_661_359_509_929_984int) by (nonlinear_arith);
        assert((2int * 2 * 2 * 2 * 2 * 2 * 2 * 2) * (0x800_0000int * 0x800_0000 * 0x800_0000 * 0x800_0000 * 0x800_0000)
            == 11_150_372_599_265_311_570_767_859_136_324_180_752_990_208int) by (nonlinear_arith);
        lemma_raised(
            r,
            14_605_414,
            0x800_0000,
            122,
            2,
            11_150_369_395_329_959_473_836_154_923_661_359_509_929_984int,
            11_150_372_599_265_311_570_767_859_136_324_180_752_990_208int,
        );
    } else if band == 2 {
        assert(r.value() == 13_971_078 * pow2(123));
        assert((13_971_078int * 13_971_078 * 13_971_078 * 13_971_078 * 13_971_078) * 16_777_216
            == 8_930_370_610_301_069_158_795_751_195_782_540_047_679_488int) by (nonlinear_arith);
        assert((3int * 3 * 3 * 3 * 3 * 3 * 3 * 3) * (0x400_0000int * 0x400_0000 * 0x400_0000 * 0x400_0000 * 0x400_0000)
            == 8_930_370_437_473_109_035_132_803_197_439_324_941_451_264int) by (nonlinear_arith);
        lemma_raised(
            r,
            13_971_078,
            0x400_0000,
            123,
            3,
            8_930_370_610_301_069_158_795_751_195_782_540_047_679_488int,
            8_930_370_437_473_109_035_132_803_197_439_324_941_451_264int,
        );
    } else if band == 3 {
        assert(r.value() == 11_068_834 * pow2(124));
        assert((11_068_834int * 11_068_834 * 11_068_834 * 11_068_834 * 11_068_834) * 16_777_216
            == 2_787_592_373_674_833_834_761_209_879_820_407_442_243_584int) by (nonlinear_arith);
        assert((4int * 4 * 4 * 4 * 4 * 4 * 4 * 4) * (0x200_0000int * 0x200_0000 * 0x200_0000 * 0x200_0000 * 0x200_0000)
            == 2_787_593_149_816_327_892_691_964_784_081_045_188_247_552int) by (nonlinear_arith);
        lemma_raised(
            r,
            11_068_834,
            0x200_0000,
            124,
            4,
            2_787_592_373_674_833_834_761_209_879_820_407_442_243_584int,
            2_787_593_149_816_327_892_691_964_784_081_045_188_247_552int,
        );
    } else if band == 4 {
        assert(r.value() == 15_818_231 * pow2(124));
        assert((15_818_231int * 15_818_231 * 15_818_231 * 15_818_231 * 15_818_231) * 16_777_216
            == 16_615_348_814_605_322_671_504_294_078_697_221_564_399_616int) by (nonlinear_arith);
        assert((5int * 5 * 5 * 5 * 5 * 5 * 5 * 5) * (0x200_0000int * 0x200_0000 * 0x200_0000 * 0x200_0000 * 0x200_0000)
            == 16_615_349_947_311_448_411_297_588_253_504_307_200_000_000int) by (nonlinear_arith);
        lemma_raised(
            r,
            15_818_231,
            0x200_0000,
            124,
            5,
            16_615_348_814_605_322_671_504_294_078_697_221_564_399_616int,
            16_615_349_947_311_448_411_297_588_253_504_307_200_000_000int,
        );
    } else if band == 5 {
        assert(r.value() == 10_588_097 * pow2(125));
        assert((10_588_097int * 10_588_097 * 10_588_097 * 10_588_097 * 10_588_097) * 16_777_216
            == 2_232_592_454_047_063_677_296_817_370_295_890_463_424_512int) by (nonlinear_arith);
        assert((6int * 6 * 6 * 6 * 6 * 6 * 6 * 6) * (0x100_0000int * 0x100_0000 * 0x100_0000 * 0x100_0000 * 0x100_0000)
            == 2_232_592_609_368_277_258_783_200_799_359_831_235_362_816int) by (nonlinear_arith);
        lemma_raised(
            r,
            10_588_097,
            0x100_0000,
            125,
            6,
            2_232_592_454_047_063_677_296_817_370_295_890_463_424_512int,
            2_232_592_609_368_277_258_783_200_799_359_831_235_362_816int,
        );
    } else if band == 6 {
        assert(r.value() == 13_549_797 * pow2(125));
        assert((13_549_797int * 13_549_797 * 13_549_797 * 13_549_797 * 13_549_797) * 16_777_216
            == 7_662_735_583_859_634_886_872_767_530_543_245_019_840_512int) by (nonlinear_arith);
        assert((7int * 7 * 7 * 7 * 7 * 7 * 7 * 7) * (0x100_0000int * 0x100_0000 * 0x100_0000 * 0x100_0000 * 0x100_0000)
            == 7_662_734_879_328_878_809_031_739_844_911_190_692_069_376int) by (nonlinear_arith);
        lemma_raised(
            r,
            13_549_797,
            0x100_0000,
            125,
            7,
            7_662_735_583_859_634_886_872_767_530_543_245_019_840_512int,
            7_662_734_879_328_878_809_031_739_844_911_190_692_069_376int,
        );
    } else {
        assert(r.value() == 8_388_608 * pow2(126));
        assert((8_388_608int * 8_388_608 * 8_388_608 * 8_388_608 * 8_388_608) * 16_777_216
            == 696_898_287_454_081_973_172_991_196_020_261_297_061_888int) by (nonlinear_arith);
        assert((8int * 8 * 8 * 8 * 8 * 8 * 8 * 8) * (0x80_0000int * 0x80_0000 * 0x80_0000 * 0x80_0000 * 0x80_0000)
            == 696_898_287_454_081_973_172_991_196_020_261_297_061_888int) by (nonlinear_arith);
        lemma_raised(
            r,
            8_388_608,
            0x80_0000,
            126,
            8,
            696_898_287_454_081_973_172_991_196_020_261_297_061_888int,
            696_898_287_454_081_973_172_991_196_020_261_297_061_888int,
        );
    }
}

proof fn lemma_full_energy()
    ensures
        num(0x3da3_d70a).sum(num(0x3f6b_851f)) == num(ONE_BITS),
{
    let (a, b) = (num(0x3da3_d70a), num(0x3f6b_851f));
    lemma2_to64();
    lemma_pow2_adds(3, 122);
    lemma_pow2_adds(4, 122);
    lemma_pow2_pos(122);
    let p = pow2(122) as int;
    assert(a.value() == 10_737_418 * p);
    assert(b.value() == 15_435_039 * (8 * p));
    assert(magnitude_value(0x3f7f_ffff) == 16_777_215 * (8 * p));
    assert(magnitude_value(0x3f80_0000) == 8_388_608 * (16 * p));
    assert(magnitude_value(0x3f80_0001) == 8_388_609 * (16 * p));
    let exact = a.value() + b.value();
    assert(rounds_to(exact, 1, 0x3f80_0000));
    lemma_rounding_exists(exact, 1);
    lemma_rounding_is_unique(exact, 1, 0x3f80_0000, nearest(exact, 1));
}

proof fn lemma_unchanged(x: Binary32)
    requires
        plain(x),
    ensures
        x.product(num(ONE_BITS)) == x,
        num(ONE_BITS).product(x) == x,
{
    lemma_one_is_unit();
    lemma_pow2_pos(149);
    lemma_plain(x);
    lemma_exact_value_is_kept(x.value() * unit_value(), unit_value(), x.magnitude());
    law_sum_and_product_commute(x, num(ONE_BITS));
    assert(size(num(ONE_BITS).value()) == unit_value());
}

/// The newest band has the energy of the opacity, and no band has more than that
/// or less than 0.08 times it.
pub proof fn law_energy_lies_between_the_floor_and_the_opacity(band: int, opacity: Binary32)
    requires
        0 <= band < 8,
        plain(opacity),
        opacity.at_most(num(ONE_BITS)),
    ensures
        energy_of_band(7, opacity) == opacity,
        energy_of_band(band, opacity).at_most(opacity),
        num(0x3da3_d70a).product(opacity).at_most(energy_of_band(band, opacity)),
{
    let (floor, range, one) = (num(0x3da3_d70a), num(0x3f6b_851f), num(ONE_BITS));
    let r = band_response(band);
    lemma_full_energy();
    lemma_unchanged(range);
    lemma_unchanged(opacity);
    lemma_plain(floor);
    lemma_plain(range);
    lemma_plain(one);
    lemma_plain(r);
    law_sum_and_product_commute(range, r);
    lemma_share_is_at_most_the_whole(r, range);
    let part = range.product(r);
    lemma_plain(part);
    lemma_magnitude_value_increases(part.magnitude(), range.magnitude());
    lemma2_to64();
    lemma_pow2_adds(3, 122);
    lemma_pow2_adds(4, 122);
    lemma_pow2_pos(122);
    let p = pow2(122) as int;
    assert(floor.value() == 10_737_418 * p);
    assert(range.value() == 15_435_039 * (8 * p));
    assert(magnitude_value(0x3f80_0000) == 8_388_608 * (16 * p));
    let bound = num(0x4000_0000);
    lemma_plain(bound);
    assert(bound.value() == 2 * one.value()) by {
        crate::exactness::lemma_next_binade(ONE_BITS as int);
    }
    lemma_sum_is_plain(floor, part, bound);
    lemma_sums_keep_order(floor, part, floor, range);
    let base = floor.sum(part);
    lemma_plain(base);
    assert(base.value() <= one.value());
    crate::exactness::lemma_sum_is_at_least(floor, part, floor);
    base.lemma_rank_orders_values(one);
    floor.lemma_rank_orders_values(base);
    lemma_share_is_at_most_the_whole(base, opacity);
    lemma_share_is_at_most_the_whole(floor, opacity);
    lemma_products_keep_order(floor, opacity, base, opacity);
    floor.product(opacity).lemma_rank_orders_values(base.product(opacity));
}

/// Along a trace the energy grows from the oldest point to the newest, and the
/// head has the most.
pub proof fn law_traces_fade_with_age(hud: F1OpenHud<'_>, rect: Rect, now: Instant, i: int, j: int)
    requires
        0 <= i <= j < hud.points@.len(),
        hud.points@[i].captured_at@ <= hud.points@[j].captured_at@,
        placeable(hud, rect, now),
        is_opacity(hud.opacity),
        hud.latest is Some,
    ensures
        hud.trace_energies(now).len() == hud.points@.len() + 1,
        hud.trace_energies(now)[i].at_most(hud.trace_energies(now)[j]),
        hud.trace_energies(now)[j].at_most(hud.trace_energies(now)[hud.points@.len() as int]),
{
    let (old, young) = (
        elapsed_between(hud.points@[i].captured_at@, now@),
        elapsed_between(hud.points@[j].captured_at@, now@),
    );
    law_seconds_grow_with_nanoseconds(young, old);
    law_seconds_grow_with_nanoseconds(0, young);
    let (a, b) = (age_of(hud, now, j), age_of(hud, now, i));
    a.lemma_rank_orders_values(b);
    law_recency_falls_with_age(a, b, hud.window_seconds);
    law_recency_is_the_rest_of_the_window(a, hud.window_seconds);
    law_recency_is_the_rest_of_the_window(b, hud.window_seconds);
    let (p, q) = (recency_of(b, hud.window_seconds), recency_of(a, hud.window_seconds));
    p.lemma_rank_orders_values(q);
    law_energy_grows_with_recency(p, q, hud.opacity);
    law_energy_grows_with_recency(q, num(ONE_BITS), hud.opacity);
    assert(hud.trace_energies(now)[i] == energy_at(p, hud.opacity));
    assert(hud.trace_energies(now)[j] == energy_at(q, hud.opacity));
}

/// Between two boundaries of the bands the energy changes evenly: at the part
/// `t` of an eighth it has made the part `t` of the way from the energy of its
/// band to that of the next.
pub proof fn law_energy_changes_evenly(recency: Binary32, opacity: Binary32, band: int, t: Binary32)
    requires
        plain(recency),
        recency.below(num(ONE_BITS)),
        plain(t),
        0 < t.value() < unit_value(),
        0 <= band < 8,
        8 * recency.value() == band * unit_value() + t.value(),
    ensures
        ({
            let (current, next) = (energy_of_band(band, opacity), energy_of_band(band + 1, opacity));
            energy_at(recency, opacity) == current.sum(next.difference(current).product(t))
        }),
{
    let eight = num(0x4100_0000);
    let u = unit_value();
    lemma2_to64();
    lemma_pow2_pos(149);
    lemma_one_is_unit();
    lemma_plain(recency);
    lemma_plain(t);
    recency.lemma_parts();
    lemma_integer_constant(eight, 8, 20);
    lemma_multiple(recency, eight, 8);
    let m = lemma_representable(recency.significand(), recency.quantum() + 3);
    lemma_pow2_adds(recency.quantum(), 3);
    assert(magnitude_value(m) == 8 * recency.value()) by (nonlinear_arith)
        requires
            magnitude_value(m) == recency.significand() * (pow2(recency.quantum()) * 8),
            recency.value() == recency.significand() * pow2(recency.quantum()),
    ;
    lemma_exact_value_is_kept(8 * recency.value(), 1, m);
    let x = recency.product(eight);
    let v = 8 * recency.value();
    assert(x.value() == v);
    assert(recency.unit() == recency);
    recency.lemma_rank_orders_values(num(ONE_BITS));
    x.lemma_rank_orders_values(eight);
    assert(x.smaller(eight) == x);
    assert(band * u == u * band) by (nonlinear_arith);
    lemma_fundamental_div_mod_converse(v, u, band, t.value());
    assert(x.whole_part() == band);
    lemma_offset(x, band);
    lemma_exact_value_is_kept(t.value(), 1, t.magnitude());
    assert(x.difference(whole(band as nat)) == t);
    t.lemma_rank_orders_values(num(ONE_BITS));
    assert(t.unit() == t);
}

} // verus!
