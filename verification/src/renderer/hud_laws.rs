//! What holds of the F1 display as a whole.
use crate::binary32::num;
use crate::renderer::canvas::no_parts;
use crate::renderer::color::Color;
use crate::renderer::geometry::{Pos2, Rect, Vec2};
use crate::renderer::glow::{law_one_section_for_each_point, links, strip_vertices, switches};
use crate::renderer::history::{HistoryGlowMode, HistoryTraceLayers};
use crate::renderer::hud::{halo_colors, halo_intensities, F1OpenHud, F1OpenHudCache};
use crate::renderer::hud_layout::layout_of;
use crate::renderer::instruments::ArcEdges;
use crate::renderer::traces::{channel_line, Channel, HISTORY_GLOW_RADIUS_BITS};
use crate::time::Instant;
use vstd::prelude::*;

verus! {

proof fn lemma_switches_are_counted(colors: Seq<Color>, count: int, last: int)
    requires
        0 <= last,
    ensures
        0 <= switches(colors, count, last),
    decreases last,
{
    if last > 0 {
        lemma_switches_are_counted(colors, count, last - 1);
    }
}

proof fn lemma_links_exist(base: int, count: int)
    ensures
        links(base, count).len() == if count <= 1 {
            0
        } else {
            36 * (count - 1)
        },
    decreases count,
{
    if count > 1 {
        lemma_links_exist(base, count - 1);
    }
}

proof fn lemma_halo_sections(hud: F1OpenHud<'_>, rect: Rect, now: Instant, channel: Channel)
    ensures
        hud.halo(rect, now, channel).len() >= 2 <==> hud.trace_layers.switched_on().history_halo && hud.history_glow
            == HistoryGlowMode::Continuous && hud.supports(channel) && hud.points@.len() > 0,
        hud.halo(rect, now, channel).len() != 1,
{
    let trace_rect = layout_of(rect).trace_rect;
    let samples = hud.trace(trace_rect, now);
    let energies = hud.trace_energies(now);
    if hud.supports(channel) {
        assert(samples.len() == hud.points@.len() + 1);
        if samples.len() >= 2 {
            let colors = halo_colors(samples, channel);
            let last = samples.len() - 1;
            law_one_section_for_each_point(
                channel_line(samples, channel),
                halo_intensities(samples, energies, channel),
                colors,
                samples.len() as int,
                last,
            );
            lemma_switches_are_counted(colors, samples.len() as int, last);
        }
    }
}

/// A display holds a continuous halo exactly if the halo is switched on and
/// continuous, and there is history of a supported brake or throttle.
pub proof fn law_halo_follows_its_switches(
    hud: F1OpenHud<'_>,
    rect: Rect,
    now: Instant,
    edges: Seq<ArcEdges>,
    cache: F1OpenHudCache,
)
    requires
        hud.built(rect, now, edges, cache),
    ensures
        cache.glow_batch.plan().mesh <==> hud.trace_layers.switched_on().history_halo && hud.history_glow
            == HistoryGlowMode::Continuous && (hud.supports(Channel::Brake) || hud.supports(Channel::Throttle))
            && hud.points@.len() > 0,
{
    let throttle = hud.halo(rect, now, Channel::Throttle);
    let brake = hud.halo(rect, now, Channel::Brake);
    lemma_halo_sections(hud, rect, now, Channel::Throttle);
    lemma_halo_sections(hud, rect, now, Channel::Brake);
    let radius = num(HISTORY_GLOW_RADIUS_BITS);
    let viewport = rect.max.from(rect.min);
    let first = strip_vertices(throttle, radius, rect.min, viewport);
    lemma_links_exist(0, throttle.len() as int);
    lemma_links_exist(first.len() as int, brake.len() as int);
    assert(first.len() == throttle.len() * 7);
    assert(strip_vertices(brake, radius, rect.min, viewport).len() == brake.len() * 7);
}

/// The sharp stroke of a trace with history is exactly two meshes, its body and
/// its core, however the history is divided into bands; with the core switched
/// off there is none.
pub proof fn law_sharp_trace_is_two_meshes(hud: F1OpenHud<'_>, rect: Rect, now: Instant, channel: Channel)
    requires
        hud.supports(channel),
        hud.points@.len() > 0,
    ensures
        hud.trace_layers.switched_on().painter_core ==> {
            let parts = hud.stroke_parts(rect, now, channel);
            &&& parts.sharp.len() == 2
            &&& parts.sharp[0] is Mesh
            &&& parts.sharp[1] is Mesh
        },
        !hud.trace_layers.switched_on().painter_core ==> hud.stroke_parts(rect, now, channel) == no_parts(),
{
    assert(hud.trace(rect, now).len() == hud.points@.len() + 1);
    assert(hud.trace_energies(now).len() == hud.points@.len() + 1);
}

/// A channel that the provider does not support leaves no trace on the display:
/// no shapes, no light, no halo and no head.
pub proof fn law_unsupported_channel_is_absent(
    hud: F1OpenHud<'_>,
    rect: Rect,
    now: Instant,
    channel: Channel,
    origin: Pos2,
    viewport: Vec2,
)
    requires
        !hud.supports(channel),
    ensures
        hud.channel_parts(rect, now, channel, origin, viewport) == no_parts(),
        hud.head_glow(rect, channel, origin, viewport) == no_parts(),
        hud.halo(rect, now, channel).len() == 0,
        hud.head_of(rect, channel) is None,
{
}

/// With the endpoints switched off no head is shown, neither painted nor as
/// light.
pub proof fn law_heads_follow_their_switch(
    hud: F1OpenHud<'_>,
    rect: Rect,
    channel: Channel,
    origin: Pos2,
    viewport: Vec2,
    cache: F1OpenHudCache,
    additive_glow: bool,
)
    requires
        hud.trace_layers == HistoryTraceLayers::CoreOnly || hud.trace_layers == HistoryTraceLayers::HaloOnly
            || hud.trace_layers == HistoryTraceLayers::NoEndpoint,
    ensures
        hud.head_glow(rect, channel, origin, viewport) == no_parts(),
        hud.heads_of(cache, additive_glow).len() == 0,
{
}

} // verus!
