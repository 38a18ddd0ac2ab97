//! How the display takes its traces from the points.
use crate::binary32::{num, Binary32};
use crate::renderer::brake_limit::{history_value, BrakeLimitDetector, BrakeLimitParams};
use crate::renderer::canvas::no_parts;
use crate::renderer::geometry::{Pos2, Rect, Vec2};
use crate::renderer::history::{band_of, banded, bands_exist, recency_of, run_state, BandSample, HistoryGlowMode};
use crate::renderer::hud::{halo_sections, positions_of, F1OpenHud};
use crate::renderer::hud_layout::layout_of;
use crate::renderer::line_laws::{law_head_joins_the_newest_band, lemma_eight_bands};
use crate::renderer::palette::{speed_colors, throttle_colors};
use crate::renderer::traces::{
    band_runs, brake_band_parts, brake_trace_parts, channel_line, layers_parts, lock_run_parts, lock_runs_parts,
    lock_values, red_runs_parts, Channel, TraceStyle,
};
use crate::time::{elapsed_between, in_seconds, Instant};
use vstd::prelude::*;

verus! {

/// The line of a channel goes through the positions of that channel, and the
/// locks are those of the samples.
pub proof fn law_lines_take_their_own_channel(samples: Seq<BandSample>, i: int)
    requires
        0 <= i < samples.len(),
    ensures
        channel_line(samples, Channel::Brake).len() == samples.len(),
        channel_line(samples, Channel::Brake)[i] == samples[i].positions.brake,
        channel_line(samples, Channel::Throttle)[i] == samples[i].positions.throttle,
        channel_line(samples, Channel::Speed)[i] == samples[i].positions.speed,
        lock_values(samples).len() == samples.len(),
        lock_values(samples)[i] == samples[i].lock,
{
}

/// A band of the brake trace that is locked throughout is drawn as one locked
/// run.
pub proof fn law_locked_brake_is_one_run(
    band: Seq<BandSample>,
    energy: Binary32,
    trace_rect: Rect,
    params: BrakeLimitParams,
    style: TraceStyle,
    origin: Pos2,
    viewport: Vec2,
)
    requires
        band.len() > 0,
        forall|i: int| 0 <= i < band.len() ==> num(0x3c23_d70a).below((#[trigger] band[i]).lock),
    ensures
        brake_band_parts(band, energy, trace_rect, params, style, origin, viewport) == no_parts().plus(
            lock_run_parts(channel_line(band, Channel::Brake), trace_rect, params, style, origin, viewport),
        ),
{
    let points = channel_line(band, Channel::Brake);
    let locks = lock_values(band);
    lemma_locked_run(points, locks, points.len() as int);
    assert(points.take(points.len() as int) =~= points);
    assert(band_runs(band, true) =~= seq![points]);
    assert(band_runs(band, false) =~= Seq::empty());
    reveal_with_fuel(lock_runs_parts, 2);
    reveal_with_fuel(red_runs_parts, 1);
    let run = lock_run_parts(points, trace_rect, params, style, origin, viewport);
    let locked = lock_runs_parts(seq![points], trace_rect, params, style, origin, viewport, 1);
    assert(locked.sharp =~= run.sharp && locked.fallback =~= run.fallback && locked.glow =~= run.glow);
}

proof fn lemma_locked_run(points: Seq<Pos2>, locks: Seq<Binary32>, count: int)
    requires
        0 <= count <= points.len(),
        locks.len() == points.len(),
        forall|i: int| 0 <= i < locks.len() ==> num(0x3c23_d70a).below(#[trigger] locks[i]),
    ensures
        ({
            let threshold = num(0x3c23_d70a);
            let open = run_state(points, locks, threshold, false, count);
            let locked = run_state(points, locks, threshold, true, count);
            &&& locked.0 == Seq::<Seq<Pos2>>::empty() && locked.1 == points.take(count)
            &&& open.0 == Seq::<Seq<Pos2>>::empty() && open.1 == Seq::<Pos2>::empty()
        }),
    decreases count,
{
    if count > 0 {
        lemma_locked_run(points, locks, count - 1);
        assert(num(0x3c23_d70a).below(locks[count - 1]));
        assert(points.take(count - 1).push(points[count - 1]) =~= points.take(count));
    } else {
        assert(points.take(0) =~= Seq::<Pos2>::empty());
    }
}

/// Below its sharp line the throttle is drawn as a main line with added light,
/// the speed as a secondary line without, and the brake with its locks.
pub proof fn law_channels_are_drawn_in_their_ways(
    hud: F1OpenHud,
    rect: Rect,
    now: Instant,
    origin: Pos2,
    viewport: Vec2,
)
    ensures
        ({
            let bands = hud.trace_bands(rect, now);
            let style = TraceStyle {
                opacity: hud.opacity,
                history_glow: hud.history_glow,
                trace_layers: hud.trace_layers,
            };
            &&& hud.secondary_parts(rect, now, Channel::Throttle, origin, viewport) == layers_parts(
                bands,
                Channel::Throttle,
                throttle_colors(),
                true,
                true,
                style,
                origin,
                viewport,
                8,
            )
            &&& hud.secondary_parts(rect, now, Channel::Speed, origin, viewport) == layers_parts(
                bands,
                Channel::Speed,
                speed_colors(),
                false,
                false,
                style,
                origin,
                viewport,
                8,
            )
            &&& hud.secondary_parts(rect, now, Channel::Brake, origin, viewport) == brake_trace_parts(
                bands,
                rect,
                hud.brake_params,
                style,
                origin,
                viewport,
                8,
            )
        }),
{
}

/// A channel that is shown is painted with its sharp line first and then the
/// rest.
pub proof fn law_shown_channel_has_its_line_first(
    hud: F1OpenHud,
    rect: Rect,
    now: Instant,
    channel: Channel,
    origin: Pos2,
    viewport: Vec2,
)
    requires
        hud.supports(channel),
    ensures
        ({
            let parts = hud.channel_parts(rect, now, channel, origin, viewport);
            let line = hud.stroke_parts(rect, now, channel);
            let rest = hud.secondary_parts(rect, now, channel, origin, viewport);
            &&& parts.sharp == line.sharp + rest.sharp
            &&& parts.fallback == rest.fallback
            &&& parts.glow == rest.glow
        }),
{
    let parts = hud.channel_parts(rect, now, channel, origin, viewport);
    let rest = hud.secondary_parts(rect, now, channel, origin, viewport);
    assert(parts.fallback =~= rest.fallback);
    assert(parts.glow =~= rest.glow);
}

/// Each point of the history belongs to the band of its recency, and the newest
/// band ends with the head of the latest point.
pub proof fn law_history_is_banded_by_recency(hud: F1OpenHud, rect: Rect, now: Instant, i: int)
    requires
        0 <= i < hud.points@.len(),
        bands_exist(hud.history(rect, now)),
    ensures
        ({
            let age = in_seconds(elapsed_between(hud.points@[i].captured_at@, now@));
            let history = hud.history(rect, now);
            &&& history.len() == hud.points@.len()
            &&& history[i].0 == band_of(recency_of(age, hud.window_seconds)) as usize
            &&& history[i].1 == hud.trace(rect, now)[i]
            &&& hud.latest is Some ==> hud.trace_bands(rect, now).len() == 8 && hud.trace_bands(rect, now)[7].last()
                == hud.trace(rect, now).last()
            &&& hud.latest is None ==> hud.trace_bands(rect, now) == banded(history)
        }),
{
    let history = hud.history(rect, now);
    if hud.latest is Some {
        law_head_joins_the_newest_band(history, hud.head(rect)->0);
    }
}

/// The halo of a channel that is shown is that of its trace in the plot, and its
/// head stands where the latest point stands at the right edge of the plot.
pub proof fn law_halo_and_head_belong_to_the_plot(hud: F1OpenHud, rect: Rect, now: Instant, channel: Channel)
    requires
        hud.supports(channel),
    ensures
        ({
            let plot = layout_of(rect).trace_rect;
            let places = positions_of(hud.latest->0.telemetry, plot.max.x, plot);
            &&& hud.trace_layers.switched_on().history_halo && hud.history_glow == HistoryGlowMode::Continuous
                ==> hud.halo(rect, now, channel) == halo_sections(
                hud.trace(plot, now),
                hud.trace_energies(now),
                channel,
            )
            &&& hud.history_glow == HistoryGlowMode::Legacy ==> hud.halo(rect, now, channel).len() == 0
            &&& channel == Channel::Brake ==> hud.head_of(rect, channel) == Some(places.brake)
            &&& channel == Channel::Throttle ==> hud.head_of(rect, channel) == Some(places.throttle)
            &&& channel == Channel::Speed ==> hud.head_of(rect, channel) == Some(places.speed)
        }),
{
}

/// A sample that goes on in the band of the one before extends that band alone.
/// Where the band changes, the sample ends the old band and goes on in the new
/// one, which starts with the sample before if it was empty. The other bands do
/// not change.
pub proof fn law_bands_overlap_where_they_change(
    samples: Seq<(usize, BandSample)>,
    band: usize,
    sample: BandSample,
    k: int,
)
    requires
        bands_exist(samples),
        samples.len() > 0,
        band < 8,
        0 <= k < 8,
    ensures
        ({
            let (before, after) = (banded(samples), banded(samples.push((band, sample))));
            let (old, last) = samples.last();
            &&& k != band && k != old ==> after[k] == before[k]
            &&& old == band ==> after[band as int] == before[band as int].push(sample)
            &&& old != band ==> after[old as int] == before[old as int].push(sample)
            &&& old != band && before[band as int].len() == 0 ==> after[band as int] == seq![last, sample]
            &&& old != band && before[band as int].len() > 0 ==> after[band as int] == before[band as int].push(sample)
        }),
{
    let all = samples.push((band, sample));
    assert(all.drop_last() =~= samples);
    lemma_eight_bands(samples);
    assert(samples[samples.len() - 1].0 < 8);
    let (before, after) = (banded(samples), banded(all));
    let (old, last) = samples.last();
    if old != band && before[band as int].len() == 0 {
        assert(after[band as int] =~= seq![last, sample]);
    }
}

/// A confirmed lock counts in the history with its severity, or with one half if
/// it is less severe.
pub proof fn law_confirmed_locks_count_with_their_severity(detector: BrakeLimitDetector)
    requires
        detector.lock_active,
    ensures
        num(0x3f00_0000).at_most(detector.output.global_severity) ==> history_value(detector)
            == detector.output.global_severity,
        detector.output.global_severity.below(num(0x3f00_0000)) ==> history_value(detector) == num(0x3f00_0000),
{
}

} // verus!
