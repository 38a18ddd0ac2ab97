//! How the parts of the traces are put together.
use crate::arithmetic::{lemma_whole_is_exact, nearest, whole};
use crate::binary32::{num, unit_value, Binary32, ONE_BITS, ZERO_BITS};
use crate::exactness::{lemma_common_scale, lemma_integer_constant, lemma_plain, plain};
use crate::renderer::brake_limit::{
    seconds, BrakeLimitDetector, BrakeLimitParams, LockState, SeverityPowers, WheelSample,
};
use crate::renderer::canvas::{no_parts, HudParts};
use crate::renderer::color::{dimmed, Color};
use crate::renderer::geometry::{Pos2, Rect, Vec2};
use crate::renderer::glow::{channel_level, cross_sections, section_vertex, CrossSection, GlowBatchBuilder};
use crate::renderer::history::{energy_of_band, BandSample, HistoryGlowMode};
use crate::renderer::hud::{halo_colors, halo_intensities, halo_sections, positions_of, F1OpenHud};
use crate::renderer::hud_layout::{layout_of, level_y};
use crate::renderer::palette::{brake_colors, lock_cyan, ChannelPalette};
use crate::renderer::segments::grid_shapes;
use crate::renderer::shapes::ShapeView;
use crate::renderer::stroke::{projection_mesh, state_at, stroke_count, stroke_samples};
use crate::renderer::traces::{
    band_runs, brake_band_parts, channel_line, channel_point, layers_parts, lock_run_parts, lock_runs_parts,
    red_runs_parts, ribbons, run_parts, Channel, TraceStyle,
};
use crate::time::Instant;
use vstd::arithmetic::power2::{lemma2_to64, lemma_pow2_pos};
use vstd::prelude::*;

verus! {

/// A level of zero stands six hundredths of the height above the lower edge, and
/// each level above it by its part of what the same margin leaves at the upper
/// edge. Levels beyond zero and one count as these.
pub proof fn law_levels_divide_the_height(rect: Rect, level: Binary32)
    requires
        !level.nan(),
        plain(rect.max.y.difference(rect.min.y)),
    ensures
        ({
            let height = rect.max.y.difference(rect.min.y);
            let margin = height.product(num(0x3d75_c28f));
            let base = rect.max.y.difference(margin);
            let reach = height.difference(num(0x4000_0000).product(margin));
            &&& num(ZERO_BITS).below(level) && level.below(num(ONE_BITS)) ==> level_y(rect, level) == base.difference(
                level.product(reach),
            )
            &&& num(ONE_BITS).at_most(level) ==> level_y(rect, level) == base.difference(num(ONE_BITS).product(reach))
            &&& level.below(num(ZERO_BITS)) ==> level_y(rect, level) == base.difference(num(ZERO_BITS).product(reach))
        }),
{
}

/// The plot reaches up to a hundred meters per second: a speed stands where a
/// pedal stands that is pressed by its hundredth part.
pub proof fn law_speed_stands_at_its_hundredth_part(
    vehicle: crate::model::VehicleTelemetry,
    x: Binary32,
    rect: Rect,
)
    requires
        plain(vehicle.speed),
        plain(vehicle.brake),
        vehicle.brake.magnitude() == nearest(vehicle.speed.value(), 100),
    ensures
        positions_of(vehicle, x, rect).speed == positions_of(vehicle, x, rect).brake,
        positions_of(vehicle, x, rect).speed.x == x,
        positions_of(vehicle, x, rect).throttle.x == x,
{
    let hundred = num(0x42c8_0000);
    lemma2_to64();
    lemma_integer_constant(hundred, 100, 17);
    lemma_plain(hundred);
    lemma_plain(vehicle.speed);
    lemma_pow2_pos(149);
    lemma_common_scale(vehicle.speed.value(), 100, unit_value());
    crate::arithmetic::lemma_results_are_numbers(vehicle.speed, hundred);
    assert(vehicle.speed.quotient(hundred) == vehicle.brake);
}

/// The number of points that a line follows is the smallest that is given of
/// each kind.
pub proof fn law_lines_end_with_the_shortest_list(points: nat, intensities: nat, colors: nat)
    ensures
        ({
            let count = GlowBatchBuilder::polyline_count(points, intensities, colors);
            &&& count <= points && count <= intensities && count <= colors
            &&& count == points || count == intensities || count == colors
        }),
        stroke_count(points, intensities) <= points,
        stroke_count(points, intensities) <= intensities,
        stroke_count(points, intensities) == points || stroke_count(points, intensities) == intensities,
{
}

/// A trace changes its state midway between two points, with the energy midway
/// between theirs.
pub proof fn law_state_changes_midway(points: Seq<Pos2>, energies: Seq<Binary32>, locked: Option<Seq<bool>>, last: int)
    requires
        last > 0,
        state_at(locked, last) != state_at(locked, last - 1),
    ensures
        ({
            let samples = stroke_samples(points, energies, locked, last);
            let middle = samples[samples.len() - 2];
            let half = num(0x3f00_0000);
            &&& middle.position == points[last - 1].toward(points[last], half)
            &&& middle.energy == energies[last - 1].sum(energies[last]).product(half)
            &&& samples.last().energy == energies[last]
        }),
{
}

/// Each cross-section of the halo has the intensity and colour of its point.
pub proof fn law_sections_have_the_light_of_their_points(
    points: Seq<Pos2>,
    intensities: Seq<Binary32>,
    colors: Seq<Color>,
    count: int,
    last: int,
)
    requires
        0 <= last < count,
    ensures
        ({
            let sections = cross_sections(points, intensities, colors, count, last);
            &&& sections.len() > 0
            &&& sections.last().center == points[last]
            &&& sections.last().intensity == intensities[last]
            &&& sections.last().color == colors[last]
            &&& sections[0].center == points[0] && sections[0].intensity == intensities[0] && sections[0].color
                == colors[0]
            &&& last > 0 ==> cross_sections(points, intensities, colors, count, last - 1).is_prefix_of(sections)
        }),
    decreases last,
{
    if last > 0 {
        law_sections_have_the_light_of_their_points(points, intensities, colors, count, last - 1);
    }
}

/// The halo of a channel follows the line of that channel from its first to its
/// last sample.
pub proof fn law_halo_follows_its_channel(samples: Seq<BandSample>, energies: Seq<Binary32>, channel: Channel)
    requires
        samples.len() >= 2,
        energies.len() == samples.len(),
    ensures
        ({
            let sections = halo_sections(samples, energies, channel);
            let (first, last) = (samples[0].positions, samples.last().positions);
            &&& channel == Channel::Brake ==> sections[0].center == first.brake && sections.last().center == last.brake
            &&& channel == Channel::Throttle ==> sections[0].center == first.throttle && sections.last().center
                == last.throttle
            &&& sections.last().color == halo_colors(samples, channel).last()
            &&& sections.last().intensity == halo_intensities(samples, energies, channel).last()
        }),
{
    law_sections_have_the_light_of_their_points(
        channel_line(samples, channel),
        halo_intensities(samples, energies, channel),
        halo_colors(samples, channel),
        samples.len() as int,
        samples.len() - 1,
    );
}

/// The vertices of a cross-section have its intensity and its colour, the latter
/// as parts of 255.
pub proof fn law_vertices_have_the_light_of_their_section(
    section: CrossSection,
    row: int,
    radius: Binary32,
    origin: Pos2,
    viewport: Vec2,
)
    requires
        num(ZERO_BITS).at_most(section.intensity),
        section.intensity.at_most(num(ONE_BITS)),
    ensures
        ({
            let vertex = section_vertex(section, row, radius, origin, viewport);
            let u = unit_value();
            &&& vertex.intensity == section.intensity
            &&& vertex.red.magnitude() == nearest(section.color.r * u, 255) && !vertex.red.negative()
            &&& vertex.green.magnitude() == nearest(section.color.g * u, 255) && !vertex.green.negative()
            &&& vertex.blue.magnitude() == nearest(section.color.b * u, 255) && !vertex.blue.negative()
        }),
{
    lemma_channel_level(section.color.r);
    lemma_channel_level(section.color.g);
    lemma_channel_level(section.color.b);
}

proof fn lemma_channel_level(channel: u8)
    ensures
        channel_level(channel).magnitude() == nearest(channel * unit_value(), 255),
        !channel_level(channel).negative(),
{
    let full = num(0x437f_0000);
    lemma2_to64();
    lemma_integer_constant(full, 255, 16);
    lemma_whole_is_exact(channel as nat);
    crate::exactness::lemma_ratio(whole(channel as nat), full, channel as int, 255);
    lemma_pow2_pos(149);
    let n = channel * unit_value();
    assert(n >= 0) by (nonlinear_arith)
        requires
            n == channel * unit_value(),
            unit_value() > 0,
    ;
    crate::arithmetic::lemma_rounding_exists(n, 255);
}

/// A run of a trace emits two painted lines along its points, the wider one
/// fainter, in the colour that the palette emits. Where light can be added they
/// stand among the shapes for displays without it, and the halo is added as
/// ribbons where it is wanted so.
pub proof fn law_runs_emit_along_their_points(
    points: Seq<Pos2>,
    palette: ChannelPalette,
    energy: Binary32,
    primary: bool,
    additive: bool,
    style: TraceStyle,
    origin: Pos2,
    viewport: Vec2,
)
    ensures
        ({
            let parts = run_parts(points, palette, energy, primary, additive, style, origin, viewport);
            let lines = if additive { parts.fallback } else { parts.sharp };
            let others = if additive { parts.sharp } else { parts.fallback };
            let halo = style.trace_layers.switched_on().history_halo && style.history_glow == HistoryGlowMode::Legacy;
            &&& others.len() == 0
            &&& points.len() < 2 ==> lines.len() == 0 && parts.glow.len() == 0
            &&& !style.trace_layers.switched_on().painter_emission ==> lines.len() == 0
            &&& points.len() >= 2 && style.trace_layers.switched_on().painter_emission ==> {
                &&& lines.len() == 2
                &&& lines[0] is Line && lines[1] is Line
                &&& lines[0]->Line_points == points && lines[1]->Line_points == points
                &&& lines[1]->Line_stroke.width.below(lines[0]->Line_stroke.width)
                &&& primary ==> lines[1]->Line_stroke.color == dimmed(
                    palette.emission,
                    energy.product(num(0x3e2e_147b)),
                )
                &&& !primary ==> lines[1]->Line_stroke.color == dimmed(
                    palette.emission,
                    energy.product(num(0x3db8_51ec)),
                )
            }
            &&& points.len() >= 2 && additive && halo ==> parts.glow == ribbons(
                points,
                num(0x40f0_0000),
                palette.emission,
                energy.product(num(0x3e99_999a)),
                origin,
                viewport,
            )
            &&& !additive || !halo ==> parts.glow.len() == 0
        }),
{
    reveal(run_parts);
}

/// A locked run is projected where that is switched on, and lit in cyan where
/// ribbons are wanted.
pub proof fn law_locked_runs_are_projected_and_lit(
    run: Seq<Pos2>,
    trace_rect: Rect,
    params: BrakeLimitParams,
    style: TraceStyle,
    origin: Pos2,
    viewport: Vec2,
)
    ensures
        ({
            let parts = lock_run_parts(run, trace_rect, params, style, origin, viewport);
            let halo = style.trace_layers.switched_on().history_halo && style.history_glow == HistoryGlowMode::Legacy;
            let near = params.lock_projection_alpha.product(style.opacity).unit();
            let height = trace_rect.max.y.difference(trace_rect.min.y);
            let visible = run.len() > 0 && !height.at_most(num(ZERO_BITS)) && !near.at_most(num(0x38d1_b717));
            &&& parts.fallback.len() == 0
            &&& !style.trace_layers.switched_on().lock_projection || !visible ==> parts.sharp.len() == 0
            &&& style.trace_layers.switched_on().lock_projection && visible ==> parts.sharp == seq![
                ShapeView::Mesh {
                    mesh: projection_mesh(
                        run,
                        trace_rect,
                        params.lock_projection_alpha,
                        params.lock_projection_falloff,
                        lock_cyan(),
                        style.opacity,
                    ),
                },
            ]
            &&& run.len() >= 2 && halo ==> parts.glow == ribbons(
                run,
                num(0x40e0_0000),
                lock_cyan(),
                style.opacity.product(num(0x3ee6_6666)),
                origin,
                viewport,
            )
            &&& run.len() < 2 || !halo ==> parts.glow.len() == 0
        }),
{
    reveal(lock_run_parts);
}

/// The bands of a trace are drawn from the oldest to the newest, each with its
/// own energy: one more band adds what its line adds.
pub proof fn law_bands_are_drawn_with_their_energies(
    bands: Seq<Seq<BandSample>>,
    channel: Channel,
    palette: ChannelPalette,
    primary: bool,
    additive: bool,
    style: TraceStyle,
    origin: Pos2,
    viewport: Vec2,
    band: int,
)
    requires
        0 <= band,
    ensures
        layers_parts(bands, channel, palette, primary, additive, style, origin, viewport, 0) == no_parts(),
        layers_parts(bands, channel, palette, primary, additive, style, origin, viewport, band + 1) == layers_parts(
            bands,
            channel,
            palette,
            primary,
            additive,
            style,
            origin,
            viewport,
            band,
        ).plus(
            run_parts(
                Seq::new(bands[band].len(), |i: int| channel_point(bands[band][i], channel)),
                palette,
                energy_of_band(band, style.opacity),
                primary,
                additive,
                style,
                origin,
                viewport,
            ),
        ),
{
    let line = Seq::new(bands[band].len(), |i: int| channel_point(bands[band][i], channel));
    assert(channel_line(bands[band], channel) =~= line);
}

/// A band of the brake trace without locks is drawn as one line in the colours
/// of the brake.
pub proof fn law_brake_without_locks_is_one_line(
    band: Seq<BandSample>,
    energy: Binary32,
    trace_rect: Rect,
    params: BrakeLimitParams,
    style: TraceStyle,
    origin: Pos2,
    viewport: Vec2,
)
    requires
        band.len() > 0,
        forall|i: int| 0 <= i < band.len() ==> !num(0x3c23_d70a).below((#[trigger] band[i]).lock),
    ensures
        brake_band_parts(band, energy, trace_rect, params, style, origin, viewport) == run_parts(
            channel_line(band, Channel::Brake),
            brake_colors(),
            energy,
            true,
            true,
            style,
            origin,
            viewport,
        ).plus(no_parts()),
{
    let points = channel_line(band, Channel::Brake);
    let locks = crate::renderer::traces::lock_values(band);
    lemma_one_run(points, locks, points.len() as int);
    assert(points.take(points.len() as int) =~= points);
    assert(band_runs(band, false) =~= seq![points]);
    assert(band_runs(band, true) =~= Seq::empty());
    reveal_with_fuel(red_runs_parts, 2);
    reveal_with_fuel(lock_runs_parts, 1);
    let run = run_parts(points, brake_colors(), energy, true, true, style, origin, viewport);
    let red = red_runs_parts(seq![points], energy, style, origin, viewport, 1);
    assert(red.sharp =~= run.sharp && red.fallback =~= run.fallback && red.glow =~= run.glow);
}

proof fn lemma_one_run(points: Seq<Pos2>, locks: Seq<Binary32>, count: int)
    requires
        0 <= count <= points.len(),
        locks.len() == points.len(),
        forall|i: int| 0 <= i < locks.len() ==> !num(0x3c23_d70a).below(#[trigger] locks[i]),
    ensures
        ({
            let threshold = num(0x3c23_d70a);
            let open = crate::renderer::history::run_state(points, locks, threshold, false, count);
            let locked = crate::renderer::history::run_state(points, locks, threshold, true, count);
            &&& open.0 == Seq::<Seq<Pos2>>::empty() && open.1 == points.take(count)
            &&& locked.0 == Seq::<Seq<Pos2>>::empty() && locked.1 == Seq::<Pos2>::empty()
        }),
    decreases count,
{
    if count > 0 {
        lemma_one_run(points, locks, count - 1);
        assert(!num(0x3c23_d70a).below(locks[count - 1]));
        assert(points.take(count - 1).push(points[count - 1]) =~= points.take(count));
    } else {
        assert(points.take(0) =~= Seq::<Pos2>::empty());
    }
    assert(points.take(points.len() as int) =~= points);
}

/// The head of a channel glows where it is painted.
pub proof fn law_heads_glow_at_their_places(hud: F1OpenHud, rect: Rect, origin: Pos2, viewport: Vec2)
    requires
        hud.trace_layers.switched_on().endpoint,
        hud.latest is Some,
        hud.latest->0.telemetry.capabilities.brake,
        hud.latest->0.telemetry.capabilities.throttle,
    ensures
        ({
            let back = Vec2 { x: origin.x, y: origin.y };
            let places = positions_of(hud.latest->0.telemetry, rect.max.x, rect);
            let brake = hud.head_glow(rect, Channel::Brake, origin, viewport);
            let throttle = hud.head_glow(rect, Channel::Throttle, origin, viewport);
            &&& brake.glow.len() == 1 && throttle.glow.len() == 1
            &&& brake.glow[0].a == places.brake.moved_back(back) && brake.glow[0].b == places.brake.moved_back(back)
            &&& throttle.glow[0].a == places.throttle.moved_back(back)
            &&& brake.glow[0].radius == num(0x4170_0000) && throttle.glow[0].radius == num(0x4170_0000)
            &&& brake.glow[0].red == channel_level(255) && throttle.glow[0].green == channel_level(255)
            &&& throttle.glow[0].red == channel_level(0)
        }),
{
}

/// What was confirmed fades after its release: the amount of cyan is the part of
/// the hold time that is left, times the peak, 0.7 and the strength of the cyan,
/// confined to one.
pub proof fn law_released_lock_fades(
    detector: BrakeLimitDetector,
    dt: Binary32,
    sample: WheelSample,
    powers: SeverityPowers,
)
    requires
        detector.updated(dt, sample, powers).state == LockState::Recovery,
        detector.updated(dt, sample, powers).release_at is Some,
    ensures
        ({
            let next = detector.updated(dt, sample, powers);
            let left = num(ONE_BITS).difference(
                next.time.difference(next.release_at->0).quotient(seconds(detector.params.release_hold_ms)),
            ).unit();
            let glow = left.product(next.episode_peak).product(num(0x3f33_3333));
            &&& num(ZERO_BITS).below(glow) ==> next.lock_amount() == glow.product(
                detector.params.lock_cyan_strength,
            ).unit()
            &&& next.output.color_mix == next.lock_amount().larger(next.output.approach_mix)
        }),
{
    reveal(BrakeLimitDetector::updated);
}

/// The warning before a lock is the severity times its strength, but no more
/// than 0.35.
pub proof fn law_warning_follows_the_severity(
    detector: BrakeLimitDetector,
    dt: Binary32,
    sample: WheelSample,
    powers: SeverityPowers,
)
    ensures
        ({
            let output = detector.updated(dt, sample, powers).output;
            let warning = detector.params.warning_mix.product(output.global_severity);
            &&& num(ZERO_BITS).at_most(warning) && warning.at_most(num(0x3eb3_3333)) ==> output.approach_mix == warning
            &&& num(0x3eb3_3333).below(warning) ==> output.approach_mix == num(0x3eb3_3333)
            &&& warning.below(num(ZERO_BITS)) ==> output.approach_mix == num(ZERO_BITS)
        }),
{
    reveal(BrakeLimitDetector::updated);
}

/// The display paints the grid first, and then the brake, the throttle and the
/// speed.
pub proof fn law_grid_is_painted_below_the_traces(hud: F1OpenHud, rect: Rect, now: Instant)
    ensures
        ({
            let plot = layout_of(rect).trace_rect;
            let origin = rect.min;
            let viewport = rect.max.from(rect.min);
            let brake = hud.channel_parts(plot, now, Channel::Brake, origin, viewport);
            let throttle = hud.channel_parts(plot, now, Channel::Throttle, origin, viewport);
            let speed = hud.channel_parts(plot, now, Channel::Speed, origin, viewport);
            let parts = hud.trace_parts(rect, now);
            &&& parts.sharp == grid_shapes(plot, hud.opacity) + brake.sharp + throttle.sharp + speed.sharp
            &&& parts.fallback == brake.fallback + throttle.fallback + speed.fallback
        }),
{
    let plot = layout_of(rect).trace_rect;
    let origin = rect.min;
    let viewport = rect.max.from(rect.min);
    let brake = hud.channel_parts(plot, now, Channel::Brake, origin, viewport);
    let throttle = hud.channel_parts(plot, now, Channel::Throttle, origin, viewport);
    let speed = hud.channel_parts(plot, now, Channel::Speed, origin, viewport);
    let grid = grid_shapes(plot, hud.opacity);
    let a = hud.head_glow(plot, Channel::Brake, origin, viewport);
    let b = hud.head_glow(plot, Channel::Throttle, origin, viewport);
    lemma_stacked(grid, brake, throttle, speed, a, b);
}

proof fn lemma_stacked(grid: Seq<ShapeView>, a: HudParts, b: HudParts, c: HudParts, d: HudParts, e: HudParts)
    requires
        d.sharp.len() == 0,
        d.fallback.len() == 0,
        e.sharp.len() == 0,
        e.fallback.len() == 0,
    ensures
        ({
            let parts = crate::renderer::canvas::sharp_parts(grid).plus(a).plus(b).plus(c).plus(d).plus(e);
            &&& parts.sharp == grid + a.sharp + b.sharp + c.sharp
            &&& parts.fallback == a.fallback + b.fallback + c.fallback
        }),
{
    let parts = crate::renderer::canvas::sharp_parts(grid).plus(a).plus(b).plus(c).plus(d).plus(e);
    assert(parts.sharp =~= grid + a.sharp + b.sharp + c.sharp);
    assert(parts.fallback =~= a.fallback + b.fallback + c.fallback);
}

} // verus!
