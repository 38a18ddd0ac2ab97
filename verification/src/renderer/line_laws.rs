//! Where the lines of the traces and their light lie.
use crate::arithmetic::{
    lemma_exact_value_is_kept, lemma_one_is_unit, lemma_quotient_of_zero, lemma_results_are_numbers,
    lemma_rounding_keeps_order, size, HALF_BITS,
};
use crate::binary32::{
    lemma_magnitude_value_increases, magnitude_value, num, unit_value, Binary32, FRACTION_SPAN, ONE_BITS, ZERO_BITS,
};
use crate::direction::{lemma_direction, lemma_displacement, lemma_length, lemma_offset, lemma_sum_error, PRECISION};
use crate::exactness::{lemma_plain, plain};
use crate::renderer::color::{dimmed, opaque, Color};
use crate::renderer::geometry::{Pos2, Rect, Vec2};
use crate::renderer::glow::{channel_level, direction, instance_at, link};
use crate::renderer::glow_laws::{apart, is_direction, lies_at_radius};
use crate::renderer::history::{
    band_of, band_response, banded, bands_exist, head_bridge, last_of, BandSample, HistoryTraceLayers, BAND_COUNT_BITS,
    HISTORY_BANDS,
};
use crate::renderer::hud::{appended, halo_colors, halo_intensities, locked_states};
use crate::renderer::palette::ChannelPalette;
use crate::renderer::stroke::{
    incoming, layer_mesh, line_direction, outgoing, projection_mesh, state_at, strip_indices, strip_normal,
    stroke_samples, stroke_visual, unit_vector, PrimaryStrokeLayer, PrimaryStrokeSample, PrimaryStrokeState,
    COINCIDENT_BITS, SHORTEST_BITS,
};
use crate::renderer::traces::{ribbons, Channel};
use vstd::arithmetic::div_mod::lemma_fundamental_div_mod;
use vstd::arithmetic::power2::{lemma2_to64, lemma_pow2_adds, lemma_pow2_pos, pow2};
use vstd::prelude::*;

verus! {

/// The complete composition switches everything on; the others leave out what
/// their names say.
pub proof fn law_layers_leave_out_what_they_say(layers: HistoryTraceLayers)
    ensures
        ({
            let on = layers.switched_on();
            match layers {
                HistoryTraceLayers::Full => on.painter_core && on.painter_emission && on.history_halo && on.endpoint
                    && on.lock_projection,
                HistoryTraceLayers::CoreOnly => on.painter_core && !on.painter_emission && !on.history_halo
                    && !on.endpoint && !on.lock_projection,
                HistoryTraceLayers::HaloOnly => !on.painter_core && !on.painter_emission && on.history_halo
                    && !on.endpoint && !on.lock_projection,
                HistoryTraceLayers::NoEndpoint => on.painter_core && on.painter_emission && on.history_halo
                    && !on.endpoint && on.lock_projection,
                HistoryTraceLayers::NoProjection => on.painter_core && on.painter_emission && on.history_halo
                    && on.endpoint && !on.lock_projection,
            }
        }),
{
}

/// A recency falls into the eighth of the window that it lies in: the oldest
/// into the first, and one into the last.
pub proof fn law_bands_are_eighths_of_the_window(recency: Binary32)
    requires
        plain(recency),
        recency.at_most(num(ONE_BITS)),
    ensures
        ({
            let band = band_of(recency);
            &&& recency == num(ONE_BITS) ==> band == 7
            &&& recency.below(num(ONE_BITS)) ==> 0 <= band <= 7 && band * unit_value() <= 8 * recency.value() < (band
                + 1) * unit_value()
        }),
{
    let eight = num(BAND_COUNT_BITS);
    let u = unit_value();
    lemma2_to64();
    lemma_pow2_pos(149);
    lemma_one_is_unit();
    lemma_plain(recency);
    recency.lemma_parts();
    crate::exactness::lemma_integer_constant(eight, 8, 20);
    crate::exactness::lemma_multiple(recency, eight, 8);
    let m = crate::arithmetic::lemma_representable(recency.significand(), recency.quantum() + 3);
    lemma_pow2_adds(recency.quantum(), 3);
    assert(magnitude_value(m) == 8 * recency.value()) by (nonlinear_arith)
        requires
            magnitude_value(m) == recency.significand() * (pow2(recency.quantum()) * 8),
            recency.value() == recency.significand() * pow2(recency.quantum()),
    ;
    lemma_exact_value_is_kept(8 * recency.value(), 1, m);
    let product = recency.product(eight);
    let v = 8 * recency.value();
    assert(product.value() == v);
    recency.lemma_rank_orders_values(num(ONE_BITS));
    lemma_fundamental_div_mod(v, u);
    let q = v / u;
    assert(0 <= q <= 8 && q * u <= v < (q + 1) * u && (v < 8 * u ==> q <= 7) && (v == 8 * u ==> q == 8)) by (
        nonlinear_arith)
        requires
            v == u * q + v % u,
            0 <= v % u < u,
            0 <= v <= 8 * u,
            u > 0,
    ;
}

/// The newest band answers fully, and each older one less than the next.
pub proof fn law_bands_answer_by_age(band: int)
    requires
        0 <= band < 7,
    ensures
        num(ZERO_BITS).below(band_response(band)),
        band_response(band).below(band_response(band + 1)),
        band_response(7) == num(ONE_BITS),
{
}

/// A sample counts as locked exactly if its lock value exceeds 0.01. The halo of
/// the brake is cyan and stronger there, and those of the other channels do not
/// change.
pub proof fn law_locks_color_the_brake_only(samples: Seq<BandSample>, energies: Seq<Binary32>, i: int)
    requires
        0 <= i < samples.len(),
        energies.len() == samples.len(),
    ensures
        ({
            let locked = num(0x3c23_d70a).below(samples[i].lock);
            let (brake, throttle, speed) = (Channel::Brake, Channel::Throttle, Channel::Speed);
            &&& locked_states(samples)[i] <==> locked
            &&& locked ==> halo_colors(samples, brake)[i] == opaque(56, 223, 255)
            &&& !locked ==> halo_colors(samples, brake)[i] == opaque(255, 45, 52)
            &&& halo_colors(samples, throttle)[i] == opaque(0, 255, 85)
            &&& locked ==> halo_intensities(samples, energies, brake)[i] == energies[i].product(num(0x3ee6_6666))
            &&& !locked ==> halo_intensities(samples, energies, brake)[i] == energies[i].product(num(0x3e99_999a))
            &&& halo_intensities(samples, energies, throttle)[i] == energies[i].product(num(0x3e99_999a))
        }),
{
}

/// Without a change of state a trace has one sample for each point: at its
/// place, with its energy.
pub proof fn law_samples_follow_the_points(
    points: Seq<Pos2>,
    energies: Seq<Binary32>,
    locked: Option<Seq<bool>>,
    last: int,
    i: int,
)
    requires
        0 <= i <= last,
        forall|k: int| 0 <= k <= last ==> #[trigger] state_at(locked, k) == state_at(locked, 0),
    ensures
        ({
            let samples = stroke_samples(points, energies, locked, last);
            &&& samples.len() == last + 1
            &&& samples[i].position == points[i]
            &&& samples[i].energy == energies[i]
            &&& samples[i].state == state_at(locked, i)
        }),
    decreases last,
{
    if last > 0 {
        assert(state_at(locked, last) == state_at(locked, 0));
        assert(state_at(locked, last - 1) == state_at(locked, 0));
        if i < last {
            law_samples_follow_the_points(points, energies, locked, last - 1, i);
        } else {
            law_samples_follow_the_points(points, energies, locked, last - 1, 0);
        }
    }
}

/// Whether a locked state is given for a sample.
pub proof fn law_states_are_those_given(states: Seq<bool>, i: int)
    requires
        0 <= i < states.len(),
    ensures
        states[i] ==> state_at(Some(states), i) == PrimaryStrokeState::BrakeLock,
        !states[i] ==> state_at(Some(states), i) == PrimaryStrokeState::Normal,
        state_at(None, i) == PrimaryStrokeState::Normal,
{
}

/// A locked part is painted in the colours of locks, wider than the rest; the
/// rest in those of its channel. The core is narrower than the body.
pub proof fn law_locked_parts_stand_out(palette: ChannelPalette, primary: bool)
    ensures
        ({
            let (lock, normal) = (PrimaryStrokeState::BrakeLock, PrimaryStrokeState::Normal);
            let (body, core) = (PrimaryStrokeLayer::Body, PrimaryStrokeLayer::Core);
            &&& stroke_visual(palette, primary, lock, body).color == opaque(56, 223, 255)
            &&& stroke_visual(palette, primary, normal, body).color == palette.body
            &&& stroke_visual(palette, primary, normal, core).color == palette.hot
            &&& stroke_visual(palette, primary, normal, body).width.below(
                stroke_visual(palette, primary, lock, body).width,
            )
            &&& stroke_visual(palette, primary, normal, core).width.below(
                stroke_visual(palette, primary, normal, body).width,
            )
            &&& stroke_visual(palette, primary, lock, core).width.below(stroke_visual(palette, primary, lock, body).width)
            &&& stroke_visual(palette, false, normal, body).width.below(stroke_visual(palette, true, normal, body).width)
            &&& stroke_visual(palette, false, normal, body).alpha.below(stroke_visual(palette, true, normal, body).alpha)
        }),
{
}

/// Between two neighbouring samples a stroke has two triangles over the two
/// vertices of each.
pub proof fn law_stroke_joins_neighbours(count: int, k: int)
    requires
        0 <= k < count - 1,
        count < 0x4000_0000,
    ensures
        ({
            let indices = strip_indices(count);
            let base = 2 * k;
            &&& indices.len() == 6 * (count - 1)
            &&& indices[6 * k] == base && indices[6 * k + 1] == base + 2 && indices[6 * k + 2] == base + 3
            &&& indices[6 * k + 3] == base && indices[6 * k + 4] == base + 3 && indices[6 * k + 5] == base + 1
        }),
{
    assert((6 * k + 0) / 6 == k && (6 * k + 0) % 6 == 0);
    assert((6 * k + 1) / 6 == k && (6 * k + 1) % 6 == 1);
    assert((6 * k + 2) / 6 == k && (6 * k + 2) % 6 == 2);
    assert((6 * k + 3) / 6 == k && (6 * k + 3) % 6 == 3);
    assert((6 * k + 4) / 6 == k && (6 * k + 4) % 6 == 4);
    assert((6 * k + 5) / 6 == k && (6 * k + 5) % 6 == 5);
}

/// Between two cross-sections the halo has, for each two neighbouring rows, two
/// triangles over the four vertices there.
pub proof fn law_halo_joins_neighbouring_rows(a: int, b: int, row: int)
    requires
        0 <= row < 6,
        0 <= a < 0x4000_0000,
        0 <= b < 0x4000_0000,
    ensures
        ({
            let indices = link(a, b);
            &&& indices.len() == 36
            &&& indices[6 * row] == a + row && indices[6 * row + 1] == b + row && indices[6 * row + 2] == b + row + 1
            &&& indices[6 * row + 3] == a + row && indices[6 * row + 4] == b + row + 1 && indices[6 * row + 5] == a
                + row + 1
        }),
{
    assert((6 * row + 0) / 6 == row && (6 * row + 0) % 6 == 0);
    assert((6 * row + 1) / 6 == row && (6 * row + 1) % 6 == 1);
    assert((6 * row + 2) / 6 == row && (6 * row + 2) % 6 == 2);
    assert((6 * row + 3) / 6 == row && (6 * row + 3) % 6 == 3);
    assert((6 * row + 4) / 6 == row && (6 * row + 4) % 6 == 4);
    assert((6 * row + 5) / 6 == row && (6 * row + 5) % 6 == 5);
}

/// The normal of a part of the halo stands upright on it: it is vertical on a
/// horizontal line and horizontal on a vertical one, and it points to the side
/// that a quarter turn leads to.
pub proof fn law_normals_stand_upright(a: Pos2, b: Pos2)
    requires
        apart(a, b),
    ensures
        ({
            let delta = b.from(a);
            let normal = direction(a, b).turned();
            &&& delta.y.magnitude() == 0 ==> normal.x.magnitude() == 0
            &&& delta.x.magnitude() == 0 ==> normal.y.magnitude() == 0
            &&& delta.x.value() > 0 ==> normal.y.value() >= 0
            &&& delta.x.value() < 0 ==> normal.y.value() <= 0
            &&& delta.y.value() > 0 ==> normal.x.value() <= 0
            &&& delta.y.value() < 0 ==> normal.x.value() >= 0
            &&& delta.x.magnitude() <= delta.y.magnitude() ==> normal.y.magnitude() <= normal.x.magnitude()
            &&& delta.y.magnitude() <= delta.x.magnitude() ==> normal.x.magnitude() <= normal.y.magnitude()
        }),
{
    let delta = b.from(a);
    let h = delta.norm();
    lemma_length(delta.x, delta.y);
    lemma_turned_quotient(delta.x, delta.y, h);
}

pub proof fn lemma_turned_quotient(x: Binary32, y: Binary32, h: Binary32)
    requires
        x.finite(),
        y.finite(),
        plain(h),
        h.magnitude() > 0,
        x.magnitude() <= h.magnitude(),
        y.magnitude() <= h.magnitude(),
    ensures
        ({
            let normal = (Vec2 { x, y }).divided(h).turned();
            &&& y.magnitude() == 0 ==> normal.x.magnitude() == 0
            &&& x.magnitude() == 0 ==> normal.y.magnitude() == 0
            &&& x.value() > 0 ==> normal.y.value() >= 0
            &&& x.value() < 0 ==> normal.y.value() <= 0
            &&& y.value() > 0 ==> normal.x.value() <= 0
            &&& y.value() < 0 ==> normal.x.value() >= 0
            &&& x.magnitude() <= y.magnitude() ==> normal.y.magnitude() <= normal.x.magnitude()
            &&& y.magnitude() <= x.magnitude() ==> normal.x.magnitude() <= normal.y.magnitude()
        }),
{
    let (p, q) = (x.quotient(h), y.quotient(h));
    lemma_plain(h);
    crate::direction::lemma_component_is_a_share(x, h);
    crate::direction::lemma_component_is_a_share(y, h);
    lemma_results_are_numbers(x, h);
    lemma_results_are_numbers(y, h);
    x.lemma_parts();
    y.lemma_parts();
    assert(magnitude_value(0) == 0);
    lemma_magnitude_value_increases(0, x.magnitude());
    lemma_magnitude_value_increases(0, y.magnitude());
    lemma_magnitude_value_increases(0, p.magnitude());
    lemma_magnitude_value_increases(0, q.magnitude());
    if x.magnitude() == 0 {
        lemma_quotient_of_zero(x, h);
    }
    if y.magnitude() == 0 {
        lemma_quotient_of_zero(y, h);
    }
    let u = unit_value();
    lemma_pow2_pos(149);
    let (m, n) = (size(x.value()) * u, size(y.value()) * u);
    lemma_magnitude_value_increases(x.magnitude(), y.magnitude());
    lemma_magnitude_value_increases(y.magnitude(), x.magnitude());
    assert(0 <= m && 0 <= n && (size(x.value()) <= size(y.value()) ==> m <= n) && (size(y.value()) <= size(x.value())
        ==> n <= m)) by (nonlinear_arith)
        requires
            m == size(x.value()) * u,
            n == size(y.value()) * u,
            size(x.value()) >= 0,
            size(y.value()) >= 0,
            u > 0,
    ;
    if m <= n {
        lemma_rounding_keeps_order(m, n, h.value());
    }
    if n <= m {
        lemma_rounding_keeps_order(n, m, h.value());
    }
    assert(q.opposite().value() == -q.value());
}

/// Light is placed relative to the corner of the display, at least half a point
/// wide, and with the channels of its colour as parts of one.
pub proof fn law_light_is_placed_in_the_display(
    origin: Pos2,
    viewport: Vec2,
    a: Pos2,
    b: Pos2,
    radius: Binary32,
    color: Color,
    intensity: Binary32,
    kind: Binary32,
)
    requires
        plain(radius),
    ensures
        ({
            let light = instance_at(origin, viewport, a, b, radius, color, intensity, kind);
            &&& light.a.x == a.x.difference(origin.x) && light.a.y == a.y.difference(origin.y)
            &&& light.b.x == b.x.difference(origin.x) && light.b.y == b.y.difference(origin.y)
            &&& num(0x3f00_0000).at_most(radius) ==> light.radius == radius
            &&& num(0x3f00_0000).at_most(light.radius)
            &&& light.kind == kind
            &&& color.r == 0 ==> light.red.magnitude() == 0
            &&& color.r == 255 ==> light.red == num(ONE_BITS)
            &&& color.g == 0 ==> light.green.magnitude() == 0
            &&& color.g == 255 ==> light.green == num(ONE_BITS)
            &&& color.b == 0 ==> light.blue.magnitude() == 0
            &&& color.b == 255 ==> light.blue == num(ONE_BITS)
        }),
{
    lemma_levels();
}

proof fn lemma_levels()
    ensures
        channel_level(0).magnitude() == 0,
        channel_level(255) == num(ONE_BITS),
{
    let full = num(0x437f_0000);
    lemma2_to64();
    crate::exactness::lemma_integer_constant(full, 255, 16);
    lemma_plain(full);
    crate::arithmetic::lemma_whole_is_exact(0);
    crate::arithmetic::lemma_whole_is_exact(255);
    let w = crate::arithmetic::whole(255);
    lemma_plain(w);
    lemma_plain(crate::arithmetic::whole(0));
    lemma_one_is_unit();
    lemma_pow2_pos(149);
    let u = unit_value();
    assert(w.value() * u == u * full.value()) by (nonlinear_arith)
        requires
            w.value() == 255 * u,
            full.value() == 255 * u,
    ;
    lemma_exact_value_is_kept(w.value() * u, full.value(), ONE_BITS as int);
    lemma_quotient_of_zero(crate::arithmetic::whole(0), full);
}

/// Ribbons of light go from point to point along a line.
pub proof fn law_ribbons_follow_the_line(
    points: Seq<Pos2>,
    radius: Binary32,
    color: Color,
    intensity: Binary32,
    origin: Pos2,
    viewport: Vec2,
    i: int,
)
    requires
        0 <= i < points.len() - 1,
    ensures
        ({
            let light = ribbons(points, radius, color, intensity, origin, viewport);
            &&& light.len() == points.len() - 1
            &&& light[i].a == points[i].moved_back((Vec2 { x: origin.x, y: origin.y }))
            &&& light[i].b == points[i + 1].moved_back((Vec2 { x: origin.x, y: origin.y }))
            &&& light[i].kind == num(ZERO_BITS)
        }),
{
}

/// Whether a vector is long enough to have a direction.
pub open spec fn directed(v: Vec2) -> bool {
    &&& v.x.finite() && v.y.finite() && v.norm().finite()
    &&& num(COINCIDENT_BITS).below(v.square())
    &&& num(SHORTEST_BITS).at_most(v.norm())
}

proof fn lemma_directed(v: Vec2)
    requires
        directed(v),
    ensures
        is_direction(unit_vector(v)),
{
    lemma_length(v.x, v.y);
    lemma_direction(v.x, v.y);
}

/// Whether the line through a sample has a direction there: its neighbours lie
/// apart from it, and it does not turn back.
pub open spec fn goes_on(samples: Seq<PrimaryStrokeSample>, k: int) -> bool {
    &&& 0 <= k < samples.len()
    &&& samples.len() > 1
    &&& k > 0 ==> directed(samples[k].position.from(samples[k - 1].position))
    &&& k < samples.len() - 1 ==> directed(samples[k + 1].position.from(samples[k].position))
    &&& 0 < k < samples.len() - 1 ==> directed(
        unit_vector(samples[k].position.from(samples[k - 1].position)).sum(
            unit_vector(samples[k + 1].position.from(samples[k].position)),
        ),
    )
}

proof fn lemma_strip_normal(samples: Seq<PrimaryStrokeSample>, k: int)
    requires
        goes_on(samples, k),
    ensures
        is_direction(strip_normal(samples, k)),
{
    let before = incoming(samples, k, k - 1);
    let after = outgoing(samples, k, k + 1);
    if k > 0 {
        lemma_directed(samples[k].position.from(samples[k - 1].position));
    }
    if k < samples.len() - 1 {
        lemma_directed(samples[k + 1].position.from(samples[k].position));
    }
    if before is Some && after is Some {
        lemma_directed(before->0.sum(after->0));
    }
    let v = line_direction(before, after);
    let (x, y) = (v.x.value(), v.y.value());
    assert(v.turned().x.value() == -y);
    assert((-y) * (-y) + x * x == x * x + y * y) by (nonlinear_arith);
}

/// Both edges of a stroke lie half its width from the line, one on either side:
/// the line runs midway between them. Rounding may move a vertex by one part in
/// two to the power 20 of that distance, and in each coordinate by one part in
/// two to the power 24 of that coordinate, which `error` bounds.
pub proof fn law_edges_lie_half_the_width_from_the_line(
    samples: Seq<PrimaryStrokeSample>,
    palette: ChannelPalette,
    primary: bool,
    layer: PrimaryStrokeLayer,
    k: int,
    error: int,
)
    requires
        goes_on(samples, k),
        samples[k].position.x.finite(),
        samples[k].position.y.finite(),
        0 <= error,
        ({
            let vertices = layer_mesh(samples, palette, primary, layer).vertices;
            let (a, b) = (vertices[2 * k].pos, vertices[2 * k + 1].pos);
            &&& a.x.finite() && a.y.finite() && b.x.finite() && b.y.finite()
            &&& size(a.x.value()) <= PRECISION * error && size(a.y.value()) <= PRECISION * error
            &&& size(b.x.value()) <= PRECISION * error && size(b.y.value()) <= PRECISION * error
        }),
    ensures
        ({
            let vertices = layer_mesh(samples, palette, primary, layer).vertices;
            let (a, b) = (vertices[2 * k].pos, vertices[2 * k + 1].pos);
            let center = samples[k].position;
            let half = stroke_visual(palette, primary, samples[k].state, layer).width.product(num(0x3f00_0000));
            &&& lies_at_radius(a, center, half, error)
            &&& lies_at_radius(b, center, half, error)
            &&& size(a.x.value() + b.x.value() - 2 * center.x.value()) <= 2 * error
            &&& size(a.y.value() + b.y.value() - 2 * center.y.value()) <= 2 * error
        }),
{
    let vertices = layer_mesh(samples, palette, primary, layer).vertices;
    assert((2 * k) / 2 == k && (2 * k) % 2 == 0);
    assert((2 * k + 1) / 2 == k && (2 * k + 1) % 2 == 1);
    let (a, b) = (vertices[2 * k].pos, vertices[2 * k + 1].pos);
    let center = samples[k].position;
    let normal = strip_normal(samples, k);
    lemma_strip_normal(samples, k);
    let visual = stroke_visual(palette, primary, samples[k].state, layer);
    let half = visual.width.product(num(HALF_BITS));
    lemma_half_width(visual.width);
    lemma_offset(normal.x, normal.y, half);
    let offset = normal.scaled(half);
    offset.x.lemma_parts();
    offset.y.lemma_parts();
    lemma_plain(half);
    assert(magnitude_value(0) == 0);
    lemma_magnitude_value_increases(offset.x.magnitude(), half.magnitude());
    lemma_magnitude_value_increases(offset.y.magnitude(), half.magnitude());
    lemma_sum_error(center.x, offset.x);
    lemma_sum_error(center.y, offset.y);
    lemma_sum_error(center.x, offset.x.opposite());
    lemma_sum_error(center.y, offset.y.opposite());
    let (x, y, r) = (offset.x.value(), offset.y.value(), half.value());
    assert(offset.x.opposite().value() == -x && offset.y.opposite().value() == -y);
    assert(-r <= x <= r && -r <= y <= r);
    assert((-x) * (-x) + (-y) * (-y) == x * x + y * y) by (nonlinear_arith);
    lemma_displacement(a.x.value() - center.x.value(), a.y.value() - center.y.value(), x, y, r, error);
    lemma_displacement(b.x.value() - center.x.value(), b.y.value() - center.y.value(), -x, -y, r, error);
}

proof fn lemma_half_width(width: Binary32)
    requires
        plain(width),
        0x3f00_0000 <= width.magnitude(),
    ensures
        plain(width.product(num(HALF_BITS))),
        FRACTION_SPAN <= width.product(num(HALF_BITS)).magnitude(),
        2 * width.product(num(HALF_BITS)).value() == width.value(),
{
    let m = width.magnitude() - FRACTION_SPAN;
    crate::exactness::lemma_next_binade(m);
    lemma_plain(width);
    lemma2_to64();
    lemma_pow2_adds(23, 125);
    lemma_pow2_adds(1, 148);
    lemma_pow2_pos(148);
    let half = num(HALF_BITS);
    let p = pow2(148) as int;
    assert(half.value() == p && unit_value() == 2 * p);
    let v = magnitude_value(m);
    assert(width.value() == 2 * v);
    assert((2 * v) * p == v * (2 * p)) by (nonlinear_arith);
    lemma_plain(half);
    lemma_exact_value_is_kept(width.value() * half.value(), unit_value(), m);
}

/// The newest band ends with the head of the trace, joined to the sample before
/// it.
pub proof fn law_head_joins_the_newest_band(samples: Seq<(usize, BandSample)>, head: BandSample)
    requires
        bands_exist(samples),
        samples.len() > 0,
    ensures
        ({
            let bands = appended(banded(samples), head_bridge(last_of(samples), head, HISTORY_BANDS));
            &&& bands.len() == 8
            &&& bands[7].last() == head
            &&& samples.last().0 != 7 ==> bands[7].len() >= 2 && bands[7][bands[7].len() - 2] == samples.last().1
            &&& samples.last().0 == 7 ==> bands[7] == banded(samples)[7].push(head)
            &&& samples.last().0 != 7 ==> bands[samples.last().0 as int] == banded(
                samples,
            )[samples.last().0 as int].push(head)
        }),
{
    let before = banded(samples);
    lemma_eight_bands(samples);
    let bridge = head_bridge(last_of(samples), head, HISTORY_BANDS);
    assert(samples[samples.len() - 1].0 < HISTORY_BANDS);
    let band = samples.last().0;
    reveal_with_fuel(appended, 5);
    if band == 7 {
        assert(bridge.drop_last() =~= Seq::<(usize, BandSample)>::empty());
        assert(bridge.drop_first() =~= Seq::<(usize, BandSample)>::empty());
    }
}

pub proof fn lemma_eight_bands(samples: Seq<(usize, BandSample)>)
    requires
        bands_exist(samples),
    ensures
        banded(samples).len() == 8,
    decreases samples.len(),
{
    if samples.len() > 0 {
        let rest = samples.drop_last();
        assert(bands_exist(rest));
        lemma_eight_bands(rest);
        assert(samples[samples.len() - 1].0 < HISTORY_BANDS);
        if rest.len() > 0 {
            assert(rest[rest.len() - 1].0 < HISTORY_BANDS);
        }
    }
}

/// A locked run is projected upwards: for each of its points the mesh has a
/// vertex at the point, with the full alpha, one midway to the upper edge, and
/// one at the upper edge that is transparent.
pub proof fn law_projection_rises_from_the_run(
    run: Seq<Pos2>,
    rect: Rect,
    alpha_near: Binary32,
    falloff: Binary32,
    color: Color,
    opacity: Binary32,
    k: int,
)
    requires
        run.len() > 1,
        0 <= k < run.len(),
        rect.min.x.at_most(run[k].x) && run[k].x.at_most(rect.max.x),
        rect.min.y.at_most(run[k].y) && run[k].y.at_most(rect.max.y),
    ensures
        ({
            let vertices = projection_mesh(run, rect, alpha_near, falloff, color, opacity).vertices;
            let (foot, middle, top) = (vertices[3 * k], vertices[3 * k + 1], vertices[3 * k + 2]);
            &&& vertices.len() == 3 * run.len()
            &&& foot.pos == run[k]
            &&& foot.color == dimmed(color, alpha_near.product(opacity).unit())
            &&& middle.pos.x == run[k].x && middle.pos.y == run[k].y.sum(rect.min.y).product(num(0x3f00_0000))
            &&& top.pos.x == run[k].x && top.pos.y == rect.min.y
            &&& top.color == dimmed(color, num(ZERO_BITS))
        }),
{
    assert((3 * k) / 3 == k && (3 * k) % 3 == 0);
    assert((3 * k + 1) / 3 == k && (3 * k + 1) % 3 == 1);
    assert((3 * k + 2) / 3 == k && (3 * k + 2) % 3 == 2);
}

} // verus!
