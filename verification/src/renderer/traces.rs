//! The secondary layers of the history: emission, halo and lock projection.
use crate::binary32::{num, number, Binary32, ZERO_BITS};
use crate::renderer::brake_limit::BrakeLimitParams;
use crate::renderer::canvas::{lemma_append, lemma_plus, no_parts, HudCanvas, HudParts};
use crate::renderer::color::{dimmed, with_opacity, Color};
use crate::renderer::geometry::{Pos2, Rect, Vec2};
use crate::renderer::glow::{instance_at, GlowBatchBuilder, GlowInstance};
use crate::renderer::history::{
    band_energy, collect_runs, counts_as_lock, energy_of_band, nested, run_state, runs_of, BandSample, HistoryBands,
    HistoryGlowMode, HistoryTraceLayers, HISTORY_BANDS, LOCK_HISTORY_THRESHOLD_BITS,
};
use crate::renderer::palette::{brake_colors, brake_palette, lock_cyan, lock_cyan_color, ChannelPalette};
use crate::renderer::shapes::{add_shape, views, Shape, ShapeView, Stroke};
use crate::renderer::stroke::{is_proper, lock_projection_mesh, projection_mesh, projects, proper, SHORTEST_BITS};
use vstd::prelude::*;

verus! {

/// Bit pattern of 10.5: the outer width of a primary emission.
pub const PRIMARY_OUTER_WIDTH_BITS: u32 = 0x4128_0000;

/// Bit pattern of 0.055: the outer opacity of a primary emission.
pub const PRIMARY_OUTER_ALPHA_BITS: u32 = 0x3d61_47ae;

/// Bit pattern of 5.5: the inner width of a primary emission.
pub const PRIMARY_INNER_WIDTH_BITS: u32 = 0x40b0_0000;

/// Bit pattern of 0.17: the inner opacity of a primary emission.
pub const PRIMARY_INNER_ALPHA_BITS: u32 = 0x3e2e_147b;

/// Bit pattern of 6: the outer width of another emission.
pub const OTHER_OUTER_WIDTH_BITS: u32 = 0x40c0_0000;

/// Bit pattern of 0.035: the outer opacity of another emission.
pub const OTHER_OUTER_ALPHA_BITS: u32 = 0x3d0f_5c29;

/// Bit pattern of 3.2: the inner width of another emission.
pub const OTHER_INNER_WIDTH_BITS: u32 = 0x404c_cccd;

/// Bit pattern of 0.09: the inner opacity of another emission.
pub const OTHER_INNER_ALPHA_BITS: u32 = 0x3db8_51ec;

/// Bit pattern of 7.5: the radius of the halo of the history.
pub const HISTORY_GLOW_RADIUS_BITS: u32 = 0x40f0_0000;

/// Bit pattern of 0.3: the intensity of the halo.
pub const TRACE_INTENSITY_BITS: u32 = 0x3e99_999a;

/// Bit pattern of 7: the radius of the ribbons of a lock.
pub const LOCK_RIBBON_RADIUS_BITS: u32 = 0x40e0_0000;

/// Bit pattern of 0.45: the intensity of the halo of a lock.
pub const LOCK_TRACE_INTENSITY_BITS: u32 = 0x3ee6_6666;

/// What applies to all traces of a display.
#[derive(Debug, Clone, Copy, PartialEq, Eq, Structural)]
pub struct TraceStyle {
    pub opacity: Binary32,
    pub history_glow: HistoryGlowMode,
    pub trace_layers: HistoryTraceLayers,
}

impl TraceStyle {
    /// Whether the halo consists of ribbons.
    pub open spec fn ribbon_halo(self) -> bool {
        self.trace_layers.switched_on().history_halo && self.history_glow == HistoryGlowMode::Legacy
    }
}

/// The ribbons along a line.
pub open spec fn ribbons(
    points: Seq<Pos2>,
    radius: Binary32,
    color: Color,
    intensity: Binary32,
    origin: Pos2,
    viewport: Vec2,
) -> Seq<GlowInstance> {
    Seq::new(
        (if points.len() < 2 {
            0
        } else {
            points.len() - 1
        }) as nat,
        |i: int|
            instance_at(origin, viewport, points[i], points[i + 1], radius, color, intensity, num(ZERO_BITS)),
    )
}

fn push_ribbons(glow: &mut GlowBatchBuilder, points: &[Pos2], radius: Binary32, color: Color, intensity: Binary32)
    ensures
        final(glow).same_mesh(*old(glow)),
        final(glow).instances@ == old(glow).instances@ + ribbons(
            points@,
            radius,
            color,
            intensity,
            old(glow).origin,
            old(glow).viewport_size,
        ),
{
    let ghost all = ribbons(points@, radius, color, intensity, glow.origin, glow.viewport_size);
    let mut i: usize = 1;
    proof {
        assert(glow.instances@ =~= old(glow).instances@ + all.take(0));
    }
    if points.len() < 2 {
        proof {
            assert(all =~= all.take(0));
        }
        return;
    }
    while i < points.len()
        invariant
            1 <= i <= points@.len(),
            points@.len() >= 2,
            all == ribbons(points@, radius, color, intensity, glow.origin, glow.viewport_size),
            glow.same_mesh(*old(glow)),
            glow.instances@ == old(glow).instances@ + all.take(i - 1),
        decreases points@.len() - i,
    {
        glow.ribbon_segment(points[i - 1], points[i], radius, color, intensity);
        i = i + 1;
        proof {
            assert(glow.instances@ =~= old(glow).instances@ + all.take(i - 1));
        }
    }
    proof {
        assert(all.take(points@.len() - 1) =~= all);
    }
}

/// The painted emission of a run: a wide faint line under a narrow one.
pub open spec fn emission_lines(
    points: Seq<Pos2>,
    palette: ChannelPalette,
    energy: Binary32,
    primary: bool,
) -> Seq<ShapeView> {
    let (outer_width, outer_alpha, inner_width, inner_alpha) = if primary {
        (
            num(PRIMARY_OUTER_WIDTH_BITS),
            num(PRIMARY_OUTER_ALPHA_BITS),
            num(PRIMARY_INNER_WIDTH_BITS),
            num(PRIMARY_INNER_ALPHA_BITS),
        )
    } else {
        (
            num(OTHER_OUTER_WIDTH_BITS),
            num(OTHER_OUTER_ALPHA_BITS),
            num(OTHER_INNER_WIDTH_BITS),
            num(OTHER_INNER_ALPHA_BITS),
        )
    };
    seq![
        ShapeView::Line {
            points,
            stroke: Stroke { width: outer_width, color: dimmed(palette.emission, energy.product(outer_alpha)) },
        },
        ShapeView::Line {
            points,
            stroke: Stroke { width: inner_width, color: dimmed(palette.emission, energy.product(inner_alpha)) },
        },
    ]
}

/// What a run of the history adds besides its sharp stroke.
#[verifier::opaque]
pub open spec fn run_parts(
    points: Seq<Pos2>,
    palette: ChannelPalette,
    energy: Binary32,
    primary: bool,
    additive_emission: bool,
    style: TraceStyle,
    origin: Pos2,
    viewport: Vec2,
) -> HudParts {
    if points.len() < 2 {
        no_parts()
    } else {
        let lines = if style.trace_layers.switched_on().painter_emission {
            emission_lines(points, palette, energy, primary)
        } else {
            Seq::empty()
        };
        HudParts {
            sharp: if additive_emission {
                Seq::empty()
            } else {
                lines
            },
            fallback: if additive_emission {
                lines
            } else {
                Seq::empty()
            },
            glow: if additive_emission && style.ribbon_halo() {
                ribbons(
                    points,
                    num(HISTORY_GLOW_RADIUS_BITS),
                    palette.emission,
                    energy.product(num(TRACE_INTENSITY_BITS)),
                    origin,
                    viewport,
                )
            } else {
                Seq::empty()
            },
        }
    }
}

fn to_vec(points: &[Pos2]) -> (r: Vec<Pos2>)
    ensures
        r@ == points@,
{
    let mut copy: Vec<Pos2> = Vec::new();
    let mut i: usize = 0;
    while i < points.len()
        invariant
            i <= points@.len(),
            copy@ == points@.take(i as int),
        decreases points@.len() - i,
    {
        copy.push(points[i]);
        i = i + 1;
        proof {
            assert(copy@ =~= points@.take(i as int));
        }
    }
    proof {
        assert(copy@ =~= points@);
    }
    copy
}

fn push_emission_lines(
    shapes: &mut Vec<Shape>,
    points: &[Pos2],
    palette: &ChannelPalette,
    energy: Binary32,
    primary: bool,
)
    ensures
        views(final(shapes)@) == views(old(shapes)@) + emission_lines(points@, *palette, energy, primary),
{
    let (outer_width, outer_alpha, inner_width, inner_alpha) = if primary {
        (
            number(PRIMARY_OUTER_WIDTH_BITS),
            number(PRIMARY_OUTER_ALPHA_BITS),
            number(PRIMARY_INNER_WIDTH_BITS),
            number(PRIMARY_INNER_ALPHA_BITS),
        )
    } else {
        (
            number(OTHER_OUTER_WIDTH_BITS),
            number(OTHER_OUTER_ALPHA_BITS),
            number(OTHER_INNER_WIDTH_BITS),
            number(OTHER_INNER_ALPHA_BITS),
        )
    };
    add_shape(
        shapes,
        Shape::Line {
            points: to_vec(points),
            stroke: Stroke { width: outer_width, color: with_opacity(palette.emission, energy.times(outer_alpha)) },
        },
    );
    add_shape(
        shapes,
        Shape::Line {
            points: to_vec(points),
            stroke: Stroke { width: inner_width, color: with_opacity(palette.emission, energy.times(inner_alpha)) },
        },
    );
    proof {
        assert(views(shapes@) =~= views(old(shapes)@) + emission_lines(points@, *palette, energy, primary));
    }
}

/// Adds the secondary layers of one contiguous run. The bright body and core
/// are submitted once for the complete trace instead, so that runs cannot cut
/// them.
pub fn draw_trace_run(
    points: &[Pos2],
    palette: &ChannelPalette,
    energy: Binary32,
    primary: bool,
    additive_emission: bool,
    style: &TraceStyle,
    canvas: &mut HudCanvas,
)
    ensures
        final(canvas).added(
            *old(canvas),
            run_parts(
                points@,
                *palette,
                energy,
                primary,
                additive_emission,
                *style,
                old(canvas).glow.origin,
                old(canvas).glow.viewport_size,
            ),
        ),
{
    proof {
        reveal(run_parts);
        lemma_append(canvas.parts().sharp, Seq::empty(), Seq::empty());
        lemma_append(canvas.parts().fallback, Seq::empty(), Seq::empty());
        lemma_append(canvas.parts().glow, Seq::empty(), Seq::empty());
    }
    if points.len() < 2 {
        return;
    }
    if style.trace_layers.policy().painter_emission {
        if additive_emission {
            push_emission_lines(&mut canvas.fallback_emission_shapes, points, palette, energy, primary);
        } else {
            push_emission_lines(&mut canvas.sharp_shapes, points, palette, energy, primary);
        }
    }
    if additive_emission && style.trace_layers.uses_legacy_halo(style.history_glow) {
        push_ribbons(
            &mut canvas.glow,
            points,
            number(HISTORY_GLOW_RADIUS_BITS),
            palette.emission,
            energy.times(number(TRACE_INTENSITY_BITS)),
        );
    }
}

/// What a lock run adds besides its sharp stroke: stronger ribbons and the
/// upward projection.
#[verifier::opaque]
pub open spec fn lock_run_parts(
    run: Seq<Pos2>,
    trace_rect: Rect,
    params: BrakeLimitParams,
    style: TraceStyle,
    origin: Pos2,
    viewport: Vec2,
) -> HudParts {
    HudParts {
        sharp: if style.trace_layers.switched_on().lock_projection && projects(
            run,
            trace_rect,
            params.lock_projection_alpha,
            style.opacity,
        ) {
            seq![
                ShapeView::Mesh {
                    mesh: projection_mesh(
                        run,
                        trace_rect,
                        params.lock_projection_alpha,
                        params.lock_projection_falloff,
                        lock_cyan(),
                        style.opacity,
                    ),
                },
            ]
        } else {
            Seq::empty()
        },
        fallback: Seq::empty(),
        glow: if run.len() >= 2 && style.ribbon_halo() {
            ribbons(
                run,
                num(LOCK_RIBBON_RADIUS_BITS),
                lock_cyan(),
                style.opacity.product(num(LOCK_TRACE_INTENSITY_BITS)),
                origin,
                viewport,
            )
        } else {
            Seq::empty()
        },
    }
}

/// Whether the projection of a lock, if it is shown, has a proper chart.
pub open spec fn projectable(trace_rect: Rect, params: BrakeLimitParams, style: TraceStyle) -> bool {
    style.trace_layers.switched_on().lock_projection && projects(
        seq![trace_rect.min],
        trace_rect,
        params.lock_projection_alpha,
        style.opacity,
    ) ==> proper(trace_rect)
}

/// Whether the projection of a lock, if it is shown, has a proper chart.
pub fn is_projectable(trace_rect: &Rect, params: &BrakeLimitParams, style: &TraceStyle) -> (r: bool)
    ensures
        r == projectable(*trace_rect, *params, *style),
{
    let shown: bool = style.trace_layers.policy().lock_projection && !trace_rect.height().le(number(ZERO_BITS))
        && !params.lock_projection_alpha.times(style.opacity).clamp_unit().le(number(SHORTEST_BITS));
    !shown || is_proper(trace_rect)
}

/// Adds a confirmed lock run. A run of a single sample keeps its true width.
pub fn draw_lock_run(
    run: &[Pos2],
    trace_rect: &Rect,
    params: &BrakeLimitParams,
    style: &TraceStyle,
    canvas: &mut HudCanvas,
)
    requires
        projectable(*trace_rect, *params, *style),
        run@.len() <= 1_000_000_000,
    ensures
        final(canvas).added(
            *old(canvas),
            lock_run_parts(
                run@,
                *trace_rect,
                *params,
                *style,
                old(canvas).glow.origin,
                old(canvas).glow.viewport_size,
            ),
        ),
{
    proof {
        reveal(lock_run_parts);
        lemma_append(canvas.parts().sharp, Seq::empty(), Seq::empty());
        lemma_append(canvas.parts().fallback, Seq::empty(), Seq::empty());
        lemma_append(canvas.parts().glow, Seq::empty(), Seq::empty());
    }
    if run.len() >= 2 && style.trace_layers.uses_legacy_halo(style.history_glow) {
        push_ribbons(
            &mut canvas.glow,
            run,
            number(LOCK_RIBBON_RADIUS_BITS),
            lock_cyan_color(),
            style.opacity.times(number(LOCK_TRACE_INTENSITY_BITS)),
        );
    }
    if style.trace_layers.policy().lock_projection {
        if let Some(mesh) = lock_projection_mesh(
            run,
            trace_rect,
            params.lock_projection_alpha,
            params.lock_projection_falloff,
            lock_cyan_color(),
            style.opacity,
        ) {
            let ghost before = views(canvas.sharp_shapes@);
            let ghost shape = ShapeView::Mesh { mesh: mesh@ };
            add_shape(&mut canvas.sharp_shapes, Shape::Mesh { mesh });
            proof {
                assert(before.push(shape) =~= before + seq![shape]);
            }
        }
    }
}

/// The traces of a display.
#[derive(Debug, Clone, Copy, PartialEq, Eq, Structural)]
pub enum Channel {
    Brake,
    Throttle,
    Speed,
}

/// Where a channel stands in a sample.
pub open spec fn channel_point(sample: BandSample, channel: Channel) -> Pos2 {
    match channel {
        Channel::Brake => sample.positions.brake,
        Channel::Throttle => sample.positions.throttle,
        Channel::Speed => sample.positions.speed,
    }
}

/// The line of a channel through samples.
pub open spec fn channel_line(samples: Seq<BandSample>, channel: Channel) -> Seq<Pos2> {
    samples.map_values(|sample: BandSample| channel_point(sample, channel))
}

/// The lock values of samples.
pub open spec fn lock_values(samples: Seq<BandSample>) -> Seq<Binary32> {
    samples.map_values(|sample: BandSample| sample.lock)
}

/// The line of a channel through samples.
pub fn line_of(samples: &Vec<BandSample>, channel: Channel) -> (r: Vec<Pos2>)
    ensures
        r@ == channel_line(samples@, channel),
{
    let mut line: Vec<Pos2> = Vec::new();
    let mut i: usize = 0;
    while i < samples.len()
        invariant
            i <= samples@.len(),
            line@.len() == i,
            forall|j: int| 0 <= j < i ==> #[trigger] line@[j] == channel_point(samples@[j], channel),
        decreases samples@.len() - i,
    {
        let positions = samples[i].positions;
        line.push(
            match channel {
                Channel::Brake => positions.brake,
                Channel::Throttle => positions.throttle,
                Channel::Speed => positions.speed,
            },
        );
        i = i + 1;
    }
    proof {
        assert(line@ =~= channel_line(samples@, channel));
    }
    line
}

/// The lock values of samples.
pub fn locks_of(samples: &Vec<BandSample>) -> (r: Vec<Binary32>)
    ensures
        r@ == lock_values(samples@),
{
    let mut locks: Vec<Binary32> = Vec::new();
    let mut i: usize = 0;
    while i < samples.len()
        invariant
            i <= samples@.len(),
            locks@.len() == i,
            forall|j: int| 0 <= j < i ==> #[trigger] locks@[j] == samples@[j].lock,
        decreases samples@.len() - i,
    {
        locks.push(samples[i].lock);
        i = i + 1;
    }
    proof {
        assert(locks@ =~= lock_values(samples@));
    }
    locks
}

/// What the first bands of a channel add.
pub open spec fn layers_parts(
    bands: Seq<Seq<BandSample>>,
    channel: Channel,
    palette: ChannelPalette,
    primary: bool,
    additive_emission: bool,
    style: TraceStyle,
    origin: Pos2,
    viewport: Vec2,
    count: int,
) -> HudParts
    decreases count,
{
    if count <= 0 {
        no_parts()
    } else {
        layers_parts(bands, channel, palette, primary, additive_emission, style, origin, viewport, count - 1).plus(
            run_parts(
                channel_line(bands[count - 1], channel),
                palette,
                energy_of_band(count - 1, style.opacity),
                primary,
                additive_emission,
                style,
                origin,
                viewport,
            ),
        )
    }
}

/// Adds the secondary layers of a channel, band by band.
pub fn build_trace_layers(
    bands: &HistoryBands,
    channel: Channel,
    palette: &ChannelPalette,
    primary: bool,
    additive_emission: bool,
    style: &TraceStyle,
    canvas: &mut HudCanvas,
)
    requires
        bands.well_formed(),
    ensures
        final(canvas).added(
            *old(canvas),
            layers_parts(
                bands.contents(),
                channel,
                *palette,
                primary,
                additive_emission,
                *style,
                old(canvas).glow.origin,
                old(canvas).glow.viewport_size,
                HISTORY_BANDS as int,
            ),
        ),
{
    let ghost origin = canvas.glow.origin;
    let ghost viewport = canvas.glow.viewport_size;
    let mut band: usize = 0;
    proof {
        lemma_plus(canvas.parts(), no_parts(), no_parts());
    }
    while band < HISTORY_BANDS
        invariant
            band <= HISTORY_BANDS,
            bands.well_formed(),
            origin == canvas.glow.origin,
            viewport == canvas.glow.viewport_size,
            canvas.added(
                *old(canvas),
                layers_parts(
                    bands.contents(),
                    channel,
                    *palette,
                    primary,
                    additive_emission,
                    *style,
                    origin,
                    viewport,
                    band as int,
                ),
            ),
        decreases HISTORY_BANDS - band,
    {
        let line = line_of(bands.band(band), channel);
        let energy = band_energy(band, style.opacity);
        draw_trace_run(line.as_slice(), palette, energy, primary, additive_emission, style, canvas);
        proof {
            lemma_plus(
                old(canvas).parts(),
                layers_parts(
                    bands.contents(),
                    channel,
                    *palette,
                    primary,
                    additive_emission,
                    *style,
                    origin,
                    viewport,
                    band as int,
                ),
                run_parts(line@, *palette, energy, primary, additive_emission, *style, origin, viewport),
            );
        }
        band = band + 1;
    }
}

/// What the first red runs of a band add.
pub open spec fn red_runs_parts(
    runs: Seq<Seq<Pos2>>,
    energy: Binary32,
    style: TraceStyle,
    origin: Pos2,
    viewport: Vec2,
    count: int,
) -> HudParts
    decreases count,
{
    if count <= 0 {
        no_parts()
    } else {
        red_runs_parts(runs, energy, style, origin, viewport, count - 1).plus(
            run_parts(runs[count - 1], brake_colors(), energy, true, true, style, origin, viewport),
        )
    }
}

/// What the first lock runs of a band add.
pub open spec fn lock_runs_parts(
    runs: Seq<Seq<Pos2>>,
    trace_rect: Rect,
    params: BrakeLimitParams,
    style: TraceStyle,
    origin: Pos2,
    viewport: Vec2,
    count: int,
) -> HudParts
    decreases count,
{
    if count <= 0 {
        no_parts()
    } else {
        lock_runs_parts(runs, trace_rect, params, style, origin, viewport, count - 1).plus(
            lock_run_parts(runs[count - 1], trace_rect, params, style, origin, viewport),
        )
    }
}

/// The runs of a band that are locked, or that are not.
pub open spec fn band_runs(band: Seq<BandSample>, want_locked: bool) -> Seq<Seq<Pos2>> {
    runs_of(
        channel_line(band, Channel::Brake),
        lock_values(band),
        num(LOCK_HISTORY_THRESHOLD_BITS),
        want_locked,
    )
}

/// What one band of the brake history adds: red runs with their emission, and
/// lock runs with a projection but without any red.
pub open spec fn brake_band_parts(
    band: Seq<BandSample>,
    energy: Binary32,
    trace_rect: Rect,
    params: BrakeLimitParams,
    style: TraceStyle,
    origin: Pos2,
    viewport: Vec2,
) -> HudParts {
    let red = band_runs(band, false);
    let locked = band_runs(band, true);
    red_runs_parts(red, energy, style, origin, viewport, red.len() as int).plus(
        lock_runs_parts(locked, trace_rect, params, style, origin, viewport, locked.len() as int),
    )
}

/// What the first bands of the brake history add.
pub open spec fn brake_trace_parts(
    bands: Seq<Seq<BandSample>>,
    trace_rect: Rect,
    params: BrakeLimitParams,
    style: TraceStyle,
    origin: Pos2,
    viewport: Vec2,
    count: int,
) -> HudParts
    decreases count,
{
    if count <= 0 {
        no_parts()
    } else {
        brake_trace_parts(bands, trace_rect, params, style, origin, viewport, count - 1).plus(
            brake_band_parts(
                bands[count - 1],
                energy_of_band(count - 1, style.opacity),
                trace_rect,
                params,
                style,
                origin,
                viewport,
            ),
        )
    }
}

/// Whether no sample of any band counts as locked.
pub open spec fn no_locks(bands: Seq<Seq<BandSample>>) -> bool {
    forall|band: int, i: int|
        0 <= band < bands.len() && 0 <= i < bands[band].len() ==> !num(LOCK_HISTORY_THRESHOLD_BITS).below(
            (#[trigger] bands[band][i]).lock,
        )
}

proof fn lemma_no_locks_no_runs(points: Seq<Pos2>, locks: Seq<Binary32>, threshold: Binary32, count: int)
    requires
        forall|i: int| 0 <= i < count ==> !#[trigger] counts_as_lock(locks, i, threshold),
    ensures
        run_state(points, locks, threshold, true, count) == (Seq::<Seq<Pos2>>::empty(), Seq::<Pos2>::empty()),
    decreases count,
{
    if count > 0 {
        lemma_no_locks_no_runs(points, locks, threshold, count - 1);
        assert(!counts_as_lock(locks, count - 1, threshold));
    }
}

proof fn lemma_runs_are_short(
    points: Seq<Pos2>,
    locks: Seq<Binary32>,
    threshold: Binary32,
    want_locked: bool,
    count: int,
)
    requires
        0 <= count,
    ensures
        ({
            let (runs, current) = run_state(points, locks, threshold, want_locked, count);
            &&& current.len() <= count
            &&& forall|i: int| 0 <= i < runs.len() ==> (#[trigger] runs[i]).len() <= count
        }),
    decreases count,
{
    if count > 0 {
        lemma_runs_are_short(points, locks, threshold, want_locked, count - 1);
    }
}

/// Adds one band of the brake history.
fn build_brake_band(
    band: &Vec<BandSample>,
    energy: Binary32,
    trace_rect: &Rect,
    params: &BrakeLimitParams,
    style: &TraceStyle,
    canvas: &mut HudCanvas,
)
    requires
        band@.len() <= 1_000_000_000,
        projectable(*trace_rect, *params, *style) || no_locks(seq![band@]),
    ensures
        final(canvas).added(
            *old(canvas),
            brake_band_parts(
                band@,
                energy,
                *trace_rect,
                *params,
                *style,
                old(canvas).glow.origin,
                old(canvas).glow.viewport_size,
            ),
        ),
{
    let ghost origin = canvas.glow.origin;
    let ghost viewport = canvas.glow.viewport_size;
    let line = line_of(band, Channel::Brake);
    let locks = locks_of(band);
    let threshold = number(LOCK_HISTORY_THRESHOLD_BITS);
    let palette = brake_palette();
    let red = collect_runs(line.as_slice(), locks.as_slice(), threshold, false);
    let locked = collect_runs(line.as_slice(), locks.as_slice(), threshold, true);
    let ghost red_runs = band_runs(band@, false);
    let ghost lock_runs = band_runs(band@, true);
    proof {
        lemma_plus(canvas.parts(), no_parts(), no_parts());
        lemma_runs_are_short(line@, locks@, threshold, true, line@.len() as int);
        assert(nested(red@) == red_runs);
        assert(nested(locked@) == lock_runs);
        if no_locks(seq![band@]) {
            assert forall|i: int| 0 <= i < line@.len() implies !#[trigger] counts_as_lock(locks@, i, threshold) by {
                assert(seq![band@][0][i].lock == locks@[i]);
            }
            lemma_no_locks_no_runs(line@, locks@, threshold, line@.len() as int);
            assert(lock_runs.len() == 0);
        }
    }
    let mut i: usize = 0;
    while i < red.len()
        invariant
            i <= red@.len(),
            nested(red@) == red_runs,
            palette == brake_colors(),
            origin == canvas.glow.origin,
            viewport == canvas.glow.viewport_size,
            canvas.added(*old(canvas), red_runs_parts(red_runs, energy, *style, origin, viewport, i as int)),
        decreases red@.len() - i,
    {
        assert(nested(red@)[i as int] == red@[i as int]@);
        draw_trace_run(red[i].as_slice(), &palette, energy, true, true, style, canvas);
        proof {
            lemma_plus(
                old(canvas).parts(),
                red_runs_parts(red_runs, energy, *style, origin, viewport, i as int),
                run_parts(red_runs[i as int], brake_colors(), energy, true, true, *style, origin, viewport),
            );
        }
        i = i + 1;
    }
    let ghost red_parts = red_runs_parts(red_runs, energy, *style, origin, viewport, red_runs.len() as int);
    proof {
        assert(red@.len() == red_runs.len());
        lemma_plus(old(canvas).parts(), red_parts, no_parts());
        lemma_plus(red_parts, no_parts(), no_parts());
    }
    let mut k: usize = 0;
    while k < locked.len()
        invariant
            k <= locked@.len(),
            nested(locked@) == lock_runs,
            lock_runs.len() > 0 ==> projectable(*trace_rect, *params, *style),
            forall|j: int| 0 <= j < lock_runs.len() ==> (#[trigger] lock_runs[j]).len() <= 1_000_000_000,
            origin == canvas.glow.origin,
            viewport == canvas.glow.viewport_size,
            canvas.added(
                *old(canvas),
                red_parts.plus(
                    lock_runs_parts(lock_runs, *trace_rect, *params, *style, origin, viewport, k as int),
                ),
            ),
        decreases locked@.len() - k,
    {
        assert(nested(locked@)[k as int] == locked@[k as int]@);
        assert(lock_runs.len() == locked@.len());
        draw_lock_run(locked[k].as_slice(), trace_rect, params, style, canvas);
        proof {
            let earlier = lock_runs_parts(lock_runs, *trace_rect, *params, *style, origin, viewport, k as int);
            let new = lock_run_parts(lock_runs[k as int], *trace_rect, *params, *style, origin, viewport);
            lemma_plus(old(canvas).parts(), red_parts.plus(earlier), new);
            lemma_plus(red_parts, earlier, new);
        }
        k = k + 1;
    }
    proof {
        assert(locked@.len() == lock_runs.len());
    }
}

/// Adds the secondary layers of the brake history as a true switch of state:
/// runs without a lock are red, lock runs cyan, and neither overlays the other.
pub fn build_brake_trace(
    bands: &HistoryBands,
    trace_rect: &Rect,
    params: &BrakeLimitParams,
    style: &TraceStyle,
    canvas: &mut HudCanvas,
)
    requires
        bands.well_formed(),
        forall|band: int| 0 <= band < HISTORY_BANDS ==> (#[trigger] bands.contents()[band]).len() <= 1_000_000_000,
        projectable(*trace_rect, *params, *style) || no_locks(bands.contents()),
    ensures
        final(canvas).added(
            *old(canvas),
            brake_trace_parts(
                bands.contents(),
                *trace_rect,
                *params,
                *style,
                old(canvas).glow.origin,
                old(canvas).glow.viewport_size,
                HISTORY_BANDS as int,
            ),
        ),
{
    let ghost origin = canvas.glow.origin;
    let ghost viewport = canvas.glow.viewport_size;
    let mut band: usize = 0;
    proof {
        lemma_plus(canvas.parts(), no_parts(), no_parts());
    }
    while band < HISTORY_BANDS
        invariant
            band <= HISTORY_BANDS,
            bands.well_formed(),
            forall|band: int|
                0 <= band < HISTORY_BANDS ==> (#[trigger] bands.contents()[band]).len() <= 1_000_000_000,
            projectable(*trace_rect, *params, *style) || no_locks(bands.contents()),
            origin == canvas.glow.origin,
            viewport == canvas.glow.viewport_size,
            canvas.added(
                *old(canvas),
                brake_trace_parts(
                    bands.contents(),
                    *trace_rect,
                    *params,
                    *style,
                    origin,
                    viewport,
                    band as int,
                ),
            ),
        decreases HISTORY_BANDS - band,
    {
        let energy = band_energy(band, style.opacity);
        let samples = bands.band(band);
        proof {
            if no_locks(bands.contents()) {
                assert forall|b: int, i: int|
                    0 <= b < seq![samples@].len() && 0 <= i < seq![samples@][b].len() implies !num(
                    LOCK_HISTORY_THRESHOLD_BITS,
                ).below((#[trigger] seq![samples@][b][i]).lock) by {
                    assert(bands.contents()[band as int][i] == samples@[i]);
                }
            }
        }
        build_brake_band(samples, energy, trace_rect, params, style, canvas);
        proof {
            lemma_plus(
                old(canvas).parts(),
                brake_trace_parts(bands.contents(), *trace_rect, *params, *style, origin, viewport, band as int),
                brake_band_parts(samples@, energy, *trace_rect, *params, *style, origin, viewport),
            );
        }
        band = band + 1;
    }
}

} // verus!
