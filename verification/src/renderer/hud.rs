//! The F1 display: one pass over the history prepares all of it.
//!
//! The display works on a snapshot that is already limited to its time window;
//! it never reads the telemetry buffer itself.
use crate::binary32::{num, number, Binary32, ONE_BITS, ZERO_BITS};
use crate::model::{RevLights, TelemetryPoint, VehicleTelemetry};
use crate::renderer::brake_limit::{BrakeLimitFeedback, BrakeLimitParams};
use crate::renderer::canvas::{glow_parts, lemma_append, lemma_plus, no_parts, sharp_parts, HudCanvas, HudParts};
use crate::renderer::color::Color;
use crate::renderer::geometry::{between, lerp, Pos2, Rect, Vec2, TWO_BITS};
use crate::renderer::glow::{
    cross_sections, instance_at, links, strip_vertices, GlowBatch, GlowBatchBuilder, GlowVertex,
};
use crate::renderer::history::{
    band_of, banded, bands_exist, energy_at, head_bridge, head_bridge_samples, history_band, history_energy,
    last_of, recency, recency_of, BandSample, HistoryBands, HistoryGlowMode, HistoryTraceLayers,
    TracePositions, HISTORY_BANDS, LOCK_HISTORY_THRESHOLD_BITS,
};
use crate::renderer::hud_layout::{
    centered_at, gear_value_position, layout_of, level_y, pedal_y, speed_value_position, speed_y, OpenHudLayout,
    GEAR_PLACE_BITS, SPEED_PLACE_BITS, SPEED_SCALE_BITS,
};
use crate::renderer::instruments::{
    build_pedal_meter, build_rev_lights, build_steering_arc, meter_parts, rev_parts, steering_shapes, ArcEdges,
};
use crate::renderer::palette::{
    brake_colors, brake_palette, lock_cyan, lock_cyan_color, speed_colors, speed_palette, steering_white,
    steering_white_color, throttle_colors, throttle_palette, ChannelPalette,
};
use crate::renderer::segments::{build_grid, grid_shapes, STEERING_SEGMENTS};
use crate::renderer::shapes::{views, Shape};
use crate::renderer::stroke::{push_continuous_primary_stroke, stroke_shapes};
use crate::renderer::traces::{
    brake_trace_parts, build_brake_trace, build_trace_layers, channel_line, is_projectable, layers_parts, line_of,
    no_locks, projectable, Channel, TraceStyle, HISTORY_GLOW_RADIUS_BITS, LOCK_TRACE_INTENSITY_BITS, TRACE_INTENSITY_BITS,
};
use crate::numeral::{numeral, signed_numeral};
use crate::text::{signed_decimal, signed_decimal_text};
use crate::time::{elapsed_between, in_seconds, Instant};
use vstd::prelude::*;
use vstd::string::*;

verus! {

/// The most points of a history: the continuous halos of two channels have up to
/// two cross-sections of seven vertices for each of them, and indices of thirty-two
/// bits.
pub const MAX_POINTS: usize = 153_391_688;

/// Bit pattern of 100: percent in a whole.
pub const PERCENT_BITS: u32 = 0x42c8_0000;

/// Bit pattern of 2.237: miles per hour in a meter per second.
pub const MPH_PER_MPS_BITS: u32 = 0x400f_2b02;

/// Bit pattern of 3.6: kilometers per hour in a meter per second.
pub const KPH_PER_MPS_BITS: u32 = 0x4066_6666;

/// Bit pattern of 0.5: smaller angles are shown as zero degrees.
pub const CENTERED_DEGREES_BITS: u32 = 0x3f00_0000;

/// Bit pattern of 15: the radius of the light at a head.
pub const HEAD_RADIUS_BITS: u32 = 0x4170_0000;

/// Bit pattern of 0.34: the light at a head.
pub const HEAD_GLOW_BITS: u32 = 0x3eae_147b;

/// Bit pattern of 44: the radius of the light behind the gear.
pub const GEAR_RADIUS_BITS: u32 = 0x4230_0000;

/// Bit pattern of 0.11: the light behind the gear.
pub const GEAR_GLOW_BITS: u32 = 0x3de1_47ae;

/// Bit pattern of 34: the radius of the light behind the speed.
pub const SPEED_RADIUS_BITS: u32 = 0x4208_0000;

/// Bit pattern of 0.1: the light behind the speed.
pub const SPEED_GLOW_BITS: u32 = 0x3dcc_cccd;

/// The text for a gear.
pub open spec fn gear_name(gear: i32) -> Seq<char> {
    if gear == -1 {
        "R"@
    } else if gear == 0 {
        "N"@
    } else {
        signed_decimal(gear as int)
    }
}

/// The text for a gear.
pub fn gear_text(gear: i32) -> (r: String)
    ensures
        r@ == gear_name(gear),
{
    if gear == -1 {
        "R".to_owned()
    } else if gear == 0 {
        "N".to_owned()
    } else {
        signed_decimal_text(gear)
    }
}

/// The values to show. A channel without support shows a dash.
#[derive(Debug, Clone, PartialEq, Eq)]
pub struct OpenHudValues {
    pub brake: String,
    pub throttle: String,
    pub steering: String,
    pub rpm: String,
    pub gear: String,
    pub speed: String,
    pub speed_unit: &'static str,
    pub rev_lights: Option<RevLights>,
    pub brake_level: Option<Binary32>,
    pub throttle_level: Option<Binary32>,
    pub steering_level: Option<Binary32>,
    pub abs_active: bool,
    pub tc_active: bool,
}

/// The content of [`OpenHudValues`].
pub struct OpenHudReadings {
    pub brake: Seq<char>,
    pub throttle: Seq<char>,
    pub steering: Seq<char>,
    pub rpm: Seq<char>,
    pub gear: Seq<char>,
    pub speed: Seq<char>,
    pub speed_unit: Seq<char>,
    pub rev_lights: Option<RevLights>,
    pub brake_level: Option<Binary32>,
    pub throttle_level: Option<Binary32>,
    pub steering_level: Option<Binary32>,
    pub abs_active: bool,
    pub tc_active: bool,
}

impl View for OpenHudValues {
    type V = OpenHudReadings;

    open spec fn view(&self) -> OpenHudReadings {
        OpenHudReadings {
            brake: self.brake@,
            throttle: self.throttle@,
            steering: self.steering@,
            rpm: self.rpm@,
            gear: self.gear@,
            speed: self.speed@,
            speed_unit: self.speed_unit@,
            rev_lights: self.rev_lights,
            brake_level: self.brake_level,
            throttle_level: self.throttle_level,
            steering_level: self.steering_level,
            abs_active: self.abs_active,
            tc_active: self.tc_active,
        }
    }
}

/// The values before any are known: no texts, no levels.
pub open spec fn no_values() -> OpenHudReadings {
    OpenHudReadings {
        brake: ""@,
        throttle: ""@,
        steering: ""@,
        rpm: ""@,
        gear: ""@,
        speed: ""@,
        speed_unit: ""@,
        rev_lights: None,
        brake_level: None,
        throttle_level: None,
        steering_level: None,
        abs_active: false,
        tc_active: false,
    }
}

impl Default for OpenHudValues {
    fn default() -> (r: Self)
        ensures
            r@ == no_values(),
    {
        OpenHudValues {
            brake: "".to_owned(),
            throttle: "".to_owned(),
            steering: "".to_owned(),
            rpm: "".to_owned(),
            gear: "".to_owned(),
            speed: "".to_owned(),
            speed_unit: "",
            rev_lights: None,
            brake_level: None,
            throttle_level: None,
            steering_level: None,
            abs_active: false,
            tc_active: false,
        }
    }
}

/// A text if it is supported, and a dash otherwise.
pub open spec fn text_or_dash(available: bool, text: Seq<char>) -> Seq<char> {
    if available {
        text
    } else {
        "\u{2014}"@
    }
}

/// The text of a supported channel, or a dash.
pub fn supported(available: bool, text: String) -> (r: String)
    ensures
        r@ == text_or_dash(available, text@),
{
    if available {
        text
    } else {
        "\u{2014}".to_owned()
    }
}

/// A share as text, in percent.
pub open spec fn percent(share: Binary32) -> Seq<char> {
    numeral(share.product(num(PERCENT_BITS))) + "%"@
}

/// A share as text, in percent.
pub fn percent_text(share: Binary32) -> (r: String)
    ensures
        r@ == percent(share),
{
    let mut text = share.times(number(PERCENT_BITS)).to_text();
    text.append("%");
    text
}

/// A steering angle as text. An angle that is almost zero has no sign.
pub open spec fn degrees(angle: Binary32) -> Seq<char> {
    if angle.absolute().below(num(CENTERED_DEGREES_BITS)) {
        "0\u{b0}"@
    } else {
        signed_numeral(angle) + "\u{b0}"@
    }
}

fn degrees_text(angle: Binary32) -> (r: String)
    ensures
        r@ == degrees(angle),
{
    if angle.abs().lt(number(CENTERED_DEGREES_BITS)) {
        "0\u{b0}".to_owned()
    } else {
        let mut text = angle.to_signed_text();
        text.append("\u{b0}");
        text
    }
}

/// A speed in the chosen unit.
pub open spec fn speed_in(speed_ms: Binary32, speed_mph: bool) -> Binary32 {
    speed_ms.product(
        if speed_mph {
            num(MPH_PER_MPS_BITS)
        } else {
            num(KPH_PER_MPS_BITS)
        },
    )
}

/// A speed in the chosen unit.
pub fn shown_speed(speed_ms: Binary32, speed_mph: bool) -> (r: Binary32)
    ensures
        r == speed_in(speed_ms, speed_mph),
{
    if speed_mph {
        speed_ms.times(number(MPH_PER_MPS_BITS))
    } else {
        speed_ms.times(number(KPH_PER_MPS_BITS))
    }
}

/// The name of the speed unit on the display.
pub open spec fn unit_name(speed_mph: bool) -> Seq<char> {
    if speed_mph {
        "MPH"@
    } else {
        "KM/H"@
    }
}

/// A value if it is supported.
pub open spec fn if_supported<T>(available: bool, value: T) -> Option<T> {
    if available {
        Some(value)
    } else {
        None
    }
}

/// The steering angle of a vehicle in degrees.
pub open spec fn steering_degrees(vehicle: VehicleTelemetry, half_lock: Binary32) -> Binary32 {
    match vehicle.wheel_angle_degrees {
        Some(angle) => angle,
        None => vehicle.steering_input.signed_unit().product(half_lock),
    }
}

/// The values to show for the latest point.
pub open spec fn values_of(latest: Option<TelemetryPoint>, speed_mph: bool, half_lock: Binary32) -> OpenHudReadings {
    match latest {
        None => OpenHudReadings {
            brake: "\u{2014}"@,
            throttle: "\u{2014}"@,
            steering: "\u{2014}"@,
            rpm: "\u{2014}"@,
            gear: "\u{2014}"@,
            speed: "\u{2014}"@,
            speed_unit: unit_name(speed_mph),
            ..no_values()
        },
        Some(point) => {
            let vehicle = point.telemetry;
            let capabilities = vehicle.capabilities;
            OpenHudReadings {
                brake: text_or_dash(capabilities.brake, percent(vehicle.brake)),
                throttle: text_or_dash(capabilities.throttle, percent(vehicle.throttle)),
                steering: text_or_dash(
                    capabilities.steering_input,
                    degrees(steering_degrees(vehicle, half_lock)),
                ),
                rpm: text_or_dash(capabilities.rpm, numeral(vehicle.rpm)),
                gear: text_or_dash(capabilities.gear, gear_name(vehicle.gear)),
                speed: text_or_dash(capabilities.speed, numeral(speed_in(vehicle.speed, speed_mph))),
                speed_unit: unit_name(speed_mph),
                rev_lights: vehicle.rev_lights,
                brake_level: if_supported(capabilities.brake, vehicle.brake),
                throttle_level: if_supported(capabilities.throttle, vehicle.throttle),
                steering_level: if_supported(capabilities.steering_input, vehicle.steering_input.signed_unit()),
                abs_active: capabilities.abs_activity && vehicle.abs_active,
                tc_active: capabilities.tc_activity && vehicle.tc_active,
            }
        },
    }
}

fn supported_value<T>(available: bool, value: T) -> (r: Option<T>)
    ensures
        r == if_supported(available, value),
{
    if available {
        Some(value)
    } else {
        None
    }
}

/// The name of the speed unit on the display.
pub fn speed_unit(speed_mph: bool) -> (r: &'static str)
    ensures
        r@ == unit_name(speed_mph),
{
    if speed_mph {
        "MPH"
    } else {
        "KM/H"
    }
}

/// A display to build from a snapshot.
pub struct F1OpenHud<'a> {
    pub points: &'a [TelemetryPoint],
    pub latest: Option<TelemetryPoint>,
    pub speed_mph: bool,
    /// The length of the time axis in seconds.
    pub window_seconds: Binary32,
    pub opacity: Binary32,
    pub max_steering_angle: Binary32,
    pub brake_limit: BrakeLimitFeedback,
    pub brake_params: BrakeLimitParams,
    /// The confirmed-lock severity of each point.
    pub lock_history: &'a [Binary32],
    pub history_glow: HistoryGlowMode,
    pub trace_layers: HistoryTraceLayers,
}

/// The lock value of a point, zero without one.
pub open spec fn lock_at(lock_history: Seq<Binary32>, i: int) -> Binary32 {
    if 0 <= i < lock_history.len() {
        lock_history[i]
    } else {
        num(ZERO_BITS)
    }
}

/// Where the traces of a vehicle stand at a place on the time axis.
pub open spec fn positions_of(vehicle: VehicleTelemetry, x: Binary32, rect: Rect) -> TracePositions {
    TracePositions {
        brake: Pos2 { x, y: level_y(rect, vehicle.brake) },
        throttle: Pos2 { x, y: level_y(rect, vehicle.throttle) },
        speed: Pos2 { x, y: level_y(rect, vehicle.speed.quotient(num(SPEED_SCALE_BITS))) },
    }
}

fn trace_positions(vehicle: &VehicleTelemetry, x: Binary32, rect: &Rect) -> (r: TracePositions)
    ensures
        r == positions_of(*vehicle, x, *rect),
{
    TracePositions {
        brake: Pos2 { x, y: pedal_y(rect, vehicle.brake) },
        throttle: Pos2 { x, y: pedal_y(rect, vehicle.throttle) },
        speed: Pos2 { x, y: speed_y(rect, vehicle.speed) },
    }
}

/// Whether a sample counts as locked.
pub open spec fn is_locked(sample: BandSample) -> bool {
    num(LOCK_HISTORY_THRESHOLD_BITS).below(sample.lock)
}

/// Bands after samples have been added without bridging.
pub open spec fn appended(bands: Seq<Seq<BandSample>>, samples: Seq<(usize, BandSample)>) -> Seq<Seq<BandSample>>
    decreases samples.len(),
{
    if samples.len() == 0 {
        bands
    } else {
        let earlier = appended(bands, samples.drop_last());
        let (band, sample) = samples.last();
        earlier.update(band as int, earlier[band as int].push(sample))
    }
}

/// The samples of the traces with their energies, and the bands.
pub struct HistoryTrace {
    pub samples: Vec<BandSample>,
    pub energies: Vec<Binary32>,
    pub bands: HistoryBands,
}

impl<'a> F1OpenHud<'a> {
    /// How recent a point is.
    pub open spec fn recency_at(self, now: Instant, i: int) -> Binary32 {
        recency_of(in_seconds(elapsed_between(self.points@[i].captured_at@, now@)), self.window_seconds)
    }

    /// The sample for a point.
    pub open spec fn sample_at(self, rect: Rect, now: Instant, i: int) -> BandSample {
        BandSample {
            positions: positions_of(
                self.points@[i].telemetry,
                between(rect.min.x, rect.max.x, self.recency_at(now, i)),
                rect,
            ),
            lock: lock_at(self.lock_history@, i),
        }
    }

    /// The samples for all points, each with its band.
    pub open spec fn history(self, rect: Rect, now: Instant) -> Seq<(usize, BandSample)> {
        Seq::new(
            self.points@.len(),
            |i: int| (band_of(self.recency_at(now, i)) as usize, self.sample_at(rect, now, i)),
        )
    }

    /// The sample at the head of the traces, if there is a latest point.
    pub open spec fn head(self, rect: Rect) -> Option<BandSample> {
        match self.latest {
            Some(latest) => Some(
                BandSample {
                    positions: positions_of(latest.telemetry, rect.max.x, rect),
                    lock: lock_at(self.lock_history@, self.lock_history@.len() - 1),
                },
            ),
            None => None,
        }
    }

    /// The samples of the traces: the history and then the head.
    pub open spec fn trace(self, rect: Rect, now: Instant) -> Seq<BandSample> {
        let history = Seq::new(self.points@.len(), |i: int| self.sample_at(rect, now, i));
        match self.head(rect) {
            Some(head) => history.push(head),
            None => history,
        }
    }

    /// The energies of the samples.
    pub open spec fn trace_energies(self, now: Instant) -> Seq<Binary32> {
        let history = Seq::new(self.points@.len(), |i: int| energy_at(self.recency_at(now, i), self.opacity));
        match self.latest {
            Some(_) => history.push(energy_at(num(ONE_BITS), self.opacity)),
            None => history,
        }
    }

    /// The samples by band, with the bridge to the head.
    pub open spec fn trace_bands(self, rect: Rect, now: Instant) -> Seq<Seq<BandSample>> {
        let history = self.history(rect, now);
        match self.head(rect) {
            Some(head) => appended(banded(history), head_bridge(last_of(history), head, HISTORY_BANDS)),
            None => banded(history),
        }
    }

    /// What applies to all traces.
    pub open spec fn style(self) -> TraceStyle {
        TraceStyle {
            opacity: self.opacity,
            history_glow: self.history_glow,
            trace_layers: self.trace_layers,
        }
    }

    /// Whether the latest point supports a channel.
    pub open spec fn supports(self, channel: Channel) -> bool {
        self.latest is Some && match channel {
            Channel::Brake => self.latest->0.telemetry.capabilities.brake,
            Channel::Throttle => self.latest->0.telemetry.capabilities.throttle,
            Channel::Speed => self.latest->0.telemetry.capabilities.speed,
        }
    }

    /// Whether no lock value counts as a lock.
    pub open spec fn without_locks(self) -> bool {
        forall|i: int|
            0 <= i < self.lock_history@.len() ==> !num(LOCK_HISTORY_THRESHOLD_BITS).below(
                #[trigger] self.lock_history@[i],
            )
    }

    /// Whether the display can be built in a rectangle: a lock projection, if
    /// one is to be shown, needs a chart whose corners are in order.
    pub open spec fn drawable(self, rect: Rect) -> bool {
        ||| !self.supports(Channel::Brake)
        ||| self.without_locks()
        ||| projectable(layout_of(rect).trace_rect, self.brake_params, self.style())
    }
}

proof fn lemma_band_lengths(samples: Seq<(usize, BandSample)>)
    requires
        bands_exist(samples),
    ensures
        banded(samples).len() == HISTORY_BANDS,
        forall|k: int| 0 <= k < HISTORY_BANDS ==> (#[trigger] banded(samples)[k]).len() <= 2 * samples.len(),
    decreases samples.len(),
{
    if samples.len() > 0 {
        let rest = samples.drop_last();
        assert(bands_exist(rest));
        lemma_band_lengths(rest);
        assert(samples[samples.len() - 1].0 < HISTORY_BANDS);
        let before = banded(rest);
        let after = banded(samples);
        if rest.len() > 0 {
            assert(rest[rest.len() - 1].0 < HISTORY_BANDS);
        }
        assert forall|k: int| 0 <= k < HISTORY_BANDS implies (#[trigger] after[k]).len() <= 2 * samples.len() by {
            assert(before[k].len() <= 2 * rest.len());
        }
    }
}

proof fn lemma_bands_without_locks(samples: Seq<(usize, BandSample)>)
    requires
        bands_exist(samples),
        forall|i: int| 0 <= i < samples.len() ==> !is_locked((#[trigger] samples[i]).1),
    ensures
        no_locks(banded(samples)),
    decreases samples.len(),
{
    if samples.len() > 0 {
        let rest = samples.drop_last();
        assert(bands_exist(rest));
        lemma_bands_without_locks(rest);
        lemma_band_lengths(rest);
        let before = banded(rest);
        let after = banded(samples);
        assert(samples[samples.len() - 1].0 < HISTORY_BANDS);
        assert(!is_locked(samples[samples.len() - 1].1));
        if rest.len() > 0 {
            assert(rest[rest.len() - 1].0 < HISTORY_BANDS);
            assert(!is_locked(rest[rest.len() - 1].1));
        }
        assert forall|k: int, i: int| 0 <= k < after.len() && 0 <= i < after[k].len() implies !is_locked(
            #[trigger] after[k][i],
        ) by {
            if i < before[k].len() {
                assert(!is_locked(before[k][i]));
            }
        }
        assert forall|k: int, i: int| 0 <= k < after.len() && 0 <= i < after[k].len() implies !num(
            LOCK_HISTORY_THRESHOLD_BITS,
        ).below((#[trigger] after[k][i]).lock) by {
            assert(!is_locked(after[k][i]));
        }
    }
}

proof fn lemma_appended(bands: Seq<Seq<BandSample>>, samples: Seq<(usize, BandSample)>)
    requires
        bands.len() == HISTORY_BANDS,
        bands_exist(samples),
    ensures
        appended(bands, samples).len() == HISTORY_BANDS,
        forall|k: int|
            0 <= k < HISTORY_BANDS ==> (#[trigger] appended(bands, samples)[k]).len() <= bands[k].len() + samples.len(),
        no_locks(bands) && (forall|i: int| 0 <= i < samples.len() ==> !is_locked((#[trigger] samples[i]).1))
            ==> no_locks(appended(bands, samples)),
    decreases samples.len(),
{
    if samples.len() > 0 {
        let rest = samples.drop_last();
        assert(bands_exist(rest));
        lemma_appended(bands, rest);
        let before = appended(bands, rest);
        let after = appended(bands, samples);
        assert(samples[samples.len() - 1].0 < HISTORY_BANDS);
        assert forall|k: int| 0 <= k < HISTORY_BANDS implies (#[trigger] after[k]).len() <= bands[k].len()
            + samples.len() by {
            assert(before[k].len() <= bands[k].len() + rest.len());
        }
        if no_locks(bands) && (forall|i: int| 0 <= i < samples.len() ==> !is_locked((#[trigger] samples[i]).1)) {
            assert forall|i: int| 0 <= i < rest.len() implies !is_locked((#[trigger] rest[i]).1) by {
                assert(!is_locked(samples[i].1));
            }
            assert(!is_locked(samples[samples.len() - 1].1));
            assert forall|k: int, i: int| 0 <= k < after.len() && 0 <= i < after[k].len() implies !num(
                LOCK_HISTORY_THRESHOLD_BITS,
            ).below((#[trigger] after[k][i]).lock) by {
                if i < before[k].len() {
                    assert(!num(LOCK_HISTORY_THRESHOLD_BITS).below(before[k][i].lock));
                }
            }
        }
    }
}

impl<'a> F1OpenHud<'a> {
    proof fn lemma_history_bands(self, rect: Rect, now: Instant)
        ensures
            bands_exist(self.history(rect, now)),
            self.trace_bands(rect, now).len() == HISTORY_BANDS,
            forall|k: int|
                0 <= k < HISTORY_BANDS ==> (#[trigger] self.trace_bands(rect, now)[k]).len() <= 2 * self.points@.len()
                    + 3,
            self.without_locks() ==> no_locks(self.trace_bands(rect, now)),
    {
        let history = self.history(rect, now);
        assert forall|i: int| 0 <= i < history.len() implies (#[trigger] history[i]).0 < HISTORY_BANDS by {
            let r = self.recency_at(now, i);
            crate::renderer::history::lemma_band_exists(r);
        }
        lemma_band_lengths(history);
        if self.without_locks() {
            assert forall|i: int| 0 <= i < history.len() implies !is_locked((#[trigger] history[i]).1) by {
                let lock = lock_at(self.lock_history@, i);
                if i < self.lock_history@.len() {
                    assert(!num(LOCK_HISTORY_THRESHOLD_BITS).below(self.lock_history@[i]));
                }
                assert(history[i].1.lock == lock);
            }
            lemma_bands_without_locks(history);
        }
        if let Some(head) = self.head(rect) {
            let bridge = head_bridge(last_of(history), head, HISTORY_BANDS);
            if history.len() > 0 {
                assert(history[history.len() - 1].0 < HISTORY_BANDS);
            }
            assert(bands_exist(bridge));
            if self.without_locks() {
                if self.lock_history@.len() > 0 {
                    assert(!num(LOCK_HISTORY_THRESHOLD_BITS).below(self.lock_history@[self.lock_history@.len() - 1]));
                }
                assert(!is_locked(head));
                if history.len() > 0 {
                    assert(!is_locked(history[history.len() - 1].1));
                }
                assert forall|i: int| 0 <= i < bridge.len() implies !is_locked((#[trigger] bridge[i]).1) by {}
            }
            lemma_appended(banded(history), bridge);
        }
    }

    /// A display of the given snapshot.
    pub fn new(
        points: &'a [TelemetryPoint],
        latest: Option<TelemetryPoint>,
        speed_mph: bool,
        window_seconds: Binary32,
        opacity: Binary32,
        max_steering_angle: Binary32,
        brake_limit: BrakeLimitFeedback,
        brake_params: BrakeLimitParams,
        lock_history: &'a [Binary32],
        history_glow: HistoryGlowMode,
        trace_layers: HistoryTraceLayers,
    ) -> (r: Self)
        ensures
            r == (F1OpenHud {
                points,
                latest,
                speed_mph,
                window_seconds,
                opacity,
                max_steering_angle,
                brake_limit,
                brake_params,
                lock_history,
                history_glow,
                trace_layers,
            }),
    {
        F1OpenHud {
            points,
            latest,
            speed_mph,
            window_seconds,
            opacity,
            max_steering_angle,
            brake_limit,
            brake_params,
            lock_history,
            history_glow,
            trace_layers,
        }
    }

    /// The values to show.
    pub fn formatted_values(&self) -> (r: OpenHudValues)
        ensures
            r@ == values_of(self.latest, self.speed_mph, self.max_steering_angle),
    {
        let point = match self.latest {
            Some(point) => point,
            None => {
                return OpenHudValues {
                    brake: "\u{2014}".to_owned(),
                    throttle: "\u{2014}".to_owned(),
                    steering: "\u{2014}".to_owned(),
                    rpm: "\u{2014}".to_owned(),
                    gear: "\u{2014}".to_owned(),
                    speed: "\u{2014}".to_owned(),
                    speed_unit: speed_unit(self.speed_mph),
                    ..OpenHudValues::default()
                };
            },
        };
        let vehicle = point.telemetry;
        let capabilities = vehicle.capabilities;
        let angle = vehicle.effective_steering_degrees(self.max_steering_angle);
        let speed = shown_speed(vehicle.speed, self.speed_mph);
        OpenHudValues {
            brake: supported(capabilities.brake, percent_text(vehicle.brake)),
            throttle: supported(capabilities.throttle, percent_text(vehicle.throttle)),
            steering: supported(capabilities.steering_input, degrees_text(angle)),
            rpm: supported(capabilities.rpm, vehicle.rpm.to_text()),
            gear: supported(capabilities.gear, gear_text(vehicle.gear)),
            speed: supported(capabilities.speed, speed.to_text()),
            speed_unit: speed_unit(self.speed_mph),
            rev_lights: vehicle.rev_lights,
            brake_level: supported_value(capabilities.brake, vehicle.brake),
            throttle_level: supported_value(capabilities.throttle, vehicle.throttle),
            steering_level: supported_value(
                capabilities.steering_input,
                vehicle.steering_input.clamp_signed_unit(),
            ),
            abs_active: capabilities.abs_activity && vehicle.abs_active,
            tc_active: capabilities.tc_activity && vehicle.tc_active,
        }
    }

    /// One pass over the history prepares all three channels.
    fn collect_history(&self, rect: &Rect, now: Instant) -> (r: HistoryTrace)
        ensures
            r.samples@ == self.trace(*rect, now),
            r.energies@ == self.trace_energies(now),
            r.bands.well_formed(),
            r.bands.contents() == self.trace_bands(*rect, now),
    {
        let mut samples: Vec<BandSample> = Vec::new();
        let mut energies: Vec<Binary32> = Vec::new();
        let mut bands = HistoryBands::new();
        let ghost history = self.history(*rect, now);
        let mut i: usize = 0;
        proof {
            assert(history.take(0) =~= Seq::<(usize, BandSample)>::empty());
        }
        while i < self.points.len()
            invariant
                i <= self.points@.len(),
                history == self.history(*rect, now),
                samples@.len() == i,
                energies@.len() == i,
                forall|j: int| 0 <= j < i ==> #[trigger] samples@[j] == self.sample_at(*rect, now, j),
                forall|j: int|
                    0 <= j < i ==> #[trigger] energies@[j] == energy_at(self.recency_at(now, j), self.opacity),
                bands.well_formed(),
                bands.contents() == banded(history.take(i as int)),
                bands.previous() == last_of(history.take(i as int)),
            decreases self.points@.len() - i,
        {
            let point = &self.points[i];
            let age = now.saturating_duration_since(point.captured_at).as_secs_f32();
            let recent = recency(age, self.window_seconds);
            let x = lerp(rect.min.x, rect.max.x, recent);
            let lock = if i < self.lock_history.len() {
                self.lock_history[i]
            } else {
                number(ZERO_BITS)
            };
            let sample = BandSample { positions: trace_positions(&point.telemetry, x, rect), lock };
            let band: usize = history_band(recent);
            samples.push(sample);
            energies.push(history_energy(recent, self.opacity));
            bands.push(band, sample);
            proof {
                let longer = history.take(i + 1);
                assert(longer.drop_last() =~= history.take(i as int));
                assert(longer.last() == (band, sample));
            }
            i = i + 1;
        }
        proof {
            assert(history.take(i as int) =~= history);
        }
        if let Some(latest) = self.latest {
            let lock = if self.lock_history.len() > 0 {
                self.lock_history[self.lock_history.len() - 1]
            } else {
                number(ZERO_BITS)
            };
            let head = BandSample { positions: trace_positions(&latest.telemetry, rect.max.x, rect), lock };
            samples.push(head);
            energies.push(history_energy(number(ONE_BITS), self.opacity));
            let bridge = head_bridge_samples(bands.last_sample(), head, HISTORY_BANDS);
            proof {
                if history.len() > 0 {
                    self.lemma_history_bands(*rect, now);
                    assert(history[history.len() - 1].0 < HISTORY_BANDS);
                }
                assert(bridge@.take(0) =~= Seq::<(usize, BandSample)>::empty());
            }
            let mut k: usize = 0;
            while k < bridge.len()
                invariant
                    k <= bridge@.len(),
                    bands_exist(bridge@),
                    bands.well_formed(),
                    bands.contents() == appended(banded(history), bridge@.take(k as int)),
                decreases bridge@.len() - k,
            {
                let (band, sample): (usize, BandSample) = bridge[k];
                proof {
                    let longer = bridge@.take(k + 1);
                    assert(longer.drop_last() =~= bridge@.take(k as int));
                    assert(longer.last() == bridge@[k as int]);
                    assert(bridge@[k as int].0 < HISTORY_BANDS);
                }
                bands.append(band, sample);
                k = k + 1;
            }
            proof {
                assert(bridge@.take(k as int) =~= bridge@);
            }
        }
        proof {
            assert(samples@ =~= self.trace(*rect, now));
            assert(energies@ =~= self.trace_energies(now));
        }
        HistoryTrace { samples, energies, bands }
    }
}

/// The colours of a channel.
pub open spec fn channel_colors(channel: Channel) -> ChannelPalette {
    match channel {
        Channel::Brake => brake_colors(),
        Channel::Throttle => throttle_colors(),
        Channel::Speed => speed_colors(),
    }
}

/// Which samples are locked.
pub open spec fn locked_states(samples: Seq<BandSample>) -> Seq<bool> {
    samples.map_values(|sample: BandSample| is_locked(sample))
}

/// The colours of the halo along a trace: that of the channel, or cyan where
/// the brake is locked.
pub open spec fn halo_colors(samples: Seq<BandSample>, channel: Channel) -> Seq<Color> {
    samples.map_values(
        |sample: BandSample|
            if channel == Channel::Brake && is_locked(sample) {
                lock_cyan()
            } else {
                channel_colors(channel).emission
            },
    )
}

/// The intensities of the halo along a trace.
pub open spec fn halo_intensities(
    samples: Seq<BandSample>,
    energies: Seq<Binary32>,
    channel: Channel,
) -> Seq<Binary32> {
    Seq::new(
        energies.len(),
        |i: int|
            energies[i].product(
                if channel == Channel::Brake && is_locked(samples[i]) {
                    num(LOCK_TRACE_INTENSITY_BITS)
                } else {
                    num(TRACE_INTENSITY_BITS)
                },
            ),
    )
}

/// The cross-sections of the halo along a trace; none for fewer than two
/// samples.
pub open spec fn halo_sections(
    samples: Seq<BandSample>,
    energies: Seq<Binary32>,
    channel: Channel,
) -> Seq<crate::renderer::glow::CrossSection> {
    if samples.len() < 2 {
        Seq::empty()
    } else {
        cross_sections(
            channel_line(samples, channel),
            halo_intensities(samples, energies, channel),
            halo_colors(samples, channel),
            samples.len() as int,
            samples.len() - 1,
        )
    }
}

impl<'a> F1OpenHud<'a> {
    /// The sharp stroke of a channel.
    pub open spec fn stroke_parts(self, rect: Rect, now: Instant, channel: Channel) -> HudParts {
        sharp_parts(
            stroke_shapes(
                channel_line(self.trace(rect, now), channel),
                self.trace_energies(now),
                channel_colors(channel),
                channel != Channel::Speed,
                if channel == Channel::Brake {
                    Some(locked_states(self.trace(rect, now)))
                } else {
                    None
                },
            ),
        ).when(self.trace_layers.switched_on().painter_core)
    }

    /// The secondary layers of a channel.
    pub open spec fn secondary_parts(
        self,
        rect: Rect,
        now: Instant,
        channel: Channel,
        origin: Pos2,
        viewport: Vec2,
    ) -> HudParts {
        let bands = self.trace_bands(rect, now);
        if channel == Channel::Brake {
            brake_trace_parts(
                bands,
                rect,
                self.brake_params,
                self.style(),
                origin,
                viewport,
                HISTORY_BANDS as int,
            )
        } else {
            layers_parts(
                bands,
                channel,
                channel_colors(channel),
                channel == Channel::Throttle,
                channel == Channel::Throttle,
                self.style(),
                origin,
                viewport,
                HISTORY_BANDS as int,
            )
        }
    }

    /// What a channel adds, if it is supported.
    pub open spec fn channel_parts(
        self,
        rect: Rect,
        now: Instant,
        channel: Channel,
        origin: Pos2,
        viewport: Vec2,
    ) -> HudParts {
        self.stroke_parts(rect, now, channel).plus(
            self.secondary_parts(rect, now, channel, origin, viewport),
        ).when(self.supports(channel))
    }

    /// The light at the head of a trace.
    pub open spec fn head_glow(self, rect: Rect, channel: Channel, origin: Pos2, viewport: Vec2) -> HudParts {
        if self.trace_layers.switched_on().endpoint && self.supports(channel) {
            let head = self.head(rect)->0.positions;
            let place = if channel == Channel::Brake {
                head.brake
            } else {
                head.throttle
            };
            glow_parts(
                seq![
                    instance_at(
                        origin,
                        viewport,
                        place,
                        place,
                        num(HEAD_RADIUS_BITS),
                        channel_colors(channel).emission,
                        self.opacity.product(num(HEAD_GLOW_BITS)),
                        num(TWO_BITS),
                    ),
                ],
            )
        } else {
            no_parts()
        }
    }

    /// The light behind a value in the center.
    pub open spec fn center_glow(
        self,
        place: Pos2,
        radius: Binary32,
        strength: Binary32,
        origin: Pos2,
        viewport: Vec2,
    ) -> HudParts {
        glow_parts(
            seq![
                instance_at(
                    origin,
                    viewport,
                    place,
                    place,
                    radius,
                    steering_white(),
                    self.opacity.product(strength),
                    num(TWO_BITS),
                ),
            ],
        )
    }

    /// The traces: grid, brake, throttle, speed, and the light at their heads.
    pub open spec fn trace_parts(self, rect: Rect, now: Instant) -> HudParts {
        let trace_rect = layout_of(rect).trace_rect;
        let origin = rect.min;
        let viewport = rect.max.from(rect.min);
        sharp_parts(grid_shapes(trace_rect, self.opacity)).plus(
            self.channel_parts(trace_rect, now, Channel::Brake, origin, viewport),
        ).plus(self.channel_parts(trace_rect, now, Channel::Throttle, origin, viewport)).plus(
            self.channel_parts(trace_rect, now, Channel::Speed, origin, viewport),
        ).plus(self.head_glow(trace_rect, Channel::Brake, origin, viewport)).plus(
            self.head_glow(trace_rect, Channel::Throttle, origin, viewport),
        )
    }

    /// The instruments: pedal meters, steering arc, shift lights, and the
    /// light behind gear and speed.
    pub open spec fn instrument_parts(self, rect: Rect, edges: Seq<ArcEdges>) -> HudParts {
        let layout = layout_of(rect);
        let values = values_of(self.latest, self.speed_mph, self.max_steering_angle);
        let origin = rect.min;
        let viewport = rect.max.from(rect.min);
        meter_parts(
            origin,
            viewport,
            layout.brake_meter_rect,
            values.brake_level,
            brake_colors(),
            Some(self.brake_limit),
            self.opacity,
        ).plus(
            meter_parts(
                origin,
                viewport,
                layout.throttle_meter_rect,
                values.throttle_level,
                throttle_colors(),
                None,
                self.opacity,
            ),
        ).plus(
            sharp_parts(steering_shapes(layout.steering_rect, values.steering_level, edges, self.opacity)),
        ).plus(rev_parts(origin, viewport, layout.center_rect, values.rev_lights, self.opacity)).plus(
            self.center_glow(
                centered_at(layout.center_rect, num(GEAR_PLACE_BITS)),
                num(GEAR_RADIUS_BITS),
                num(GEAR_GLOW_BITS),
                origin,
                viewport,
            ),
        ).plus(
            self.center_glow(
                centered_at(layout.center_rect, num(SPEED_PLACE_BITS)),
                num(SPEED_RADIUS_BITS),
                num(SPEED_GLOW_BITS),
                origin,
                viewport,
            ),
        )
    }

    /// The cross-sections of the continuous halo of a channel, if it is shown.
    pub open spec fn halo(self, rect: Rect, now: Instant, channel: Channel) -> Seq<
        crate::renderer::glow::CrossSection,
    > {
        if self.trace_layers.switched_on().history_halo && self.history_glow == HistoryGlowMode::Continuous
            && self.supports(channel) {
            halo_sections(self.trace(layout_of(rect).trace_rect, now), self.trace_energies(now), channel)
        } else {
            Seq::empty()
        }
    }

    /// The head of a supported channel.
    pub open spec fn head_of(self, rect: Rect, channel: Channel) -> Option<Pos2> {
        if self.supports(channel) {
            let head = self.head(layout_of(rect).trace_rect)->0.positions;
            Some(
                match channel {
                    Channel::Brake => head.brake,
                    Channel::Throttle => head.throttle,
                    Channel::Speed => head.speed,
                },
            )
        } else {
            None
        }
    }

    /// Whether the latest point supports a channel.
    fn is_supported(&self, channel: Channel) -> (r: bool)
        ensures
            r == self.supports(channel),
    {
        match self.latest {
            Some(latest) => match channel {
                Channel::Brake => latest.telemetry.capabilities.brake,
                Channel::Throttle => latest.telemetry.capabilities.throttle,
                Channel::Speed => latest.telemetry.capabilities.speed,
            },
            None => false,
        }
    }

    fn trace_style(&self) -> (r: TraceStyle)
        ensures
            r == self.style(),
    {
        TraceStyle { opacity: self.opacity, history_glow: self.history_glow, trace_layers: self.trace_layers }
    }

    /// Adds the sharp stroke of a channel.
    fn draw_stroke(&self, trace: &HistoryTrace, channel: Channel, Ghost(rect): Ghost<Rect>, Ghost(now): Ghost<Instant>, canvas: &mut HudCanvas)
        requires
            self.points@.len() <= MAX_POINTS,
            trace.samples@ == self.trace(rect, now),
            trace.energies@ == self.trace_energies(now),
        ensures
            final(canvas).added(*old(canvas), self.stroke_parts(rect, now, channel)),
    {
        proof {
            lemma_append(canvas.parts().sharp, Seq::empty(), Seq::empty());
            lemma_append(canvas.parts().fallback, Seq::empty(), Seq::empty());
            lemma_append(canvas.parts().glow, Seq::empty(), Seq::empty());
        }
        if !self.trace_layers.policy().painter_core {
            return;
        }
        let line = line_of(&trace.samples, channel);
        let palette = palette_of(channel);
        let primary = channel != Channel::Speed;
        if channel == Channel::Brake {
            let locked = states_of(&trace.samples);
            push_continuous_primary_stroke(
                line.as_slice(),
                trace.energies.as_slice(),
                &palette,
                primary,
                Some(locked.as_slice()),
                &mut canvas.sharp_shapes,
            );
        } else {
            push_continuous_primary_stroke(
                line.as_slice(),
                trace.energies.as_slice(),
                &palette,
                primary,
                None,
                &mut canvas.sharp_shapes,
            );
        }
    }

    /// Adds a channel, if it is supported.
    fn draw_channel(&self, trace: &HistoryTrace, channel: Channel, rect: &Rect, Ghost(now): Ghost<Instant>, canvas: &mut HudCanvas)
        requires
            self.points@.len() <= MAX_POINTS,
            trace.samples@ == self.trace(*rect, now),
            trace.energies@ == self.trace_energies(now),
            trace.bands.well_formed(),
            trace.bands.contents() == self.trace_bands(*rect, now),
            channel == Channel::Brake && self.supports(channel) ==> self.without_locks() || projectable(
                *rect,
                self.brake_params,
                self.style(),
            ),
        ensures
            final(canvas).added(
                *old(canvas),
                self.channel_parts(*rect, now, channel, old(canvas).glow.origin, old(canvas).glow.viewport_size),
            ),
    {
        proof {
            lemma_plus(canvas.parts(), no_parts(), no_parts());
        }
        if !self.is_supported(channel) {
            return;
        }
        self.draw_stroke(trace, channel, Ghost(*rect), Ghost(now), canvas);
        let style = self.trace_style();
        if channel == Channel::Brake {
            proof {
                self.lemma_history_bands(*rect, now);
            }
            build_brake_trace(&trace.bands, rect, &self.brake_params, &style, canvas);
        } else {
            let lit = channel == Channel::Throttle;
            let palette = palette_of(channel);
            build_trace_layers(&trace.bands, channel, &palette, lit, lit, &style, canvas);
        }
        proof {
            lemma_plus(
                old(canvas).parts(),
                self.stroke_parts(*rect, now, channel),
                self.secondary_parts(
                    *rect,
                    now,
                    channel,
                    old(canvas).glow.origin,
                    old(canvas).glow.viewport_size,
                ),
            );
        }
    }
}

fn palette_of(channel: Channel) -> (r: ChannelPalette)
    ensures
        r == channel_colors(channel),
{
    match channel {
        Channel::Brake => brake_palette(),
        Channel::Throttle => throttle_palette(),
        Channel::Speed => speed_palette(),
    }
}

fn states_of(samples: &Vec<BandSample>) -> (r: Vec<bool>)
    ensures
        r@ == locked_states(samples@),
{
    let threshold = number(LOCK_HISTORY_THRESHOLD_BITS);
    let mut states: Vec<bool> = Vec::new();
    let mut i: usize = 0;
    while i < samples.len()
        invariant
            i <= samples@.len(),
            threshold == num(LOCK_HISTORY_THRESHOLD_BITS),
            states@.len() == i,
            forall|j: int| 0 <= j < i ==> #[trigger] states@[j] == is_locked(samples@[j]),
        decreases samples@.len() - i,
    {
        states.push(threshold.lt(samples[i].lock));
        i = i + 1;
    }
    proof {
        assert(states@ =~= locked_states(samples@));
    }
    states
}

fn halo_colors_of(samples: &Vec<BandSample>, channel: Channel) -> (r: Vec<Color>)
    ensures
        r@ == halo_colors(samples@, channel),
{
    let threshold = number(LOCK_HISTORY_THRESHOLD_BITS);
    let emission = palette_of(channel).emission;
    let cyan = lock_cyan_color();
    let mut colors: Vec<Color> = Vec::new();
    let mut i: usize = 0;
    while i < samples.len()
        invariant
            i <= samples@.len(),
            threshold == num(LOCK_HISTORY_THRESHOLD_BITS),
            emission == channel_colors(channel).emission,
            cyan == lock_cyan(),
            colors@ == halo_colors(samples@, channel).take(i as int),
        decreases samples@.len() - i,
    {
        let locked = channel == Channel::Brake && threshold.lt(samples[i].lock);
        colors.push(
            if locked {
                cyan
            } else {
                emission
            },
        );
        i = i + 1;
        proof {
            assert(colors@ =~= halo_colors(samples@, channel).take(i as int));
        }
    }
    proof {
        assert(colors@ =~= halo_colors(samples@, channel));
    }
    colors
}

fn halo_intensities_of(samples: &Vec<BandSample>, energies: &Vec<Binary32>, channel: Channel) -> (r: Vec<Binary32>)
    requires
        samples@.len() == energies@.len(),
    ensures
        r@ == halo_intensities(samples@, energies@, channel),
{
    let threshold = number(LOCK_HISTORY_THRESHOLD_BITS);
    let mut intensities: Vec<Binary32> = Vec::new();
    let mut i: usize = 0;
    while i < energies.len()
        invariant
            i <= energies@.len(),
            samples@.len() == energies@.len(),
            threshold == num(LOCK_HISTORY_THRESHOLD_BITS),
            intensities@ == halo_intensities(samples@, energies@, channel).take(i as int),
        decreases energies@.len() - i,
    {
        let locked = channel == Channel::Brake && threshold.lt(samples[i].lock);
        let scale = if locked {
            number(LOCK_TRACE_INTENSITY_BITS)
        } else {
            number(TRACE_INTENSITY_BITS)
        };
        intensities.push(energies[i].times(scale));
        i = i + 1;
        proof {
            assert(intensities@ =~= halo_intensities(samples@, energies@, channel).take(i as int));
        }
    }
    proof {
        assert(intensities@ =~= halo_intensities(samples@, energies@, channel));
    }
    intensities
}

/// Adds the continuous halo along a trace.
fn push_halo(samples: &Vec<BandSample>, energies: &Vec<Binary32>, channel: Channel, glow: &mut GlowBatchBuilder)
    requires
        samples@.len() == energies@.len(),
        samples@.len() <= MAX_POINTS + 1,
        old(glow).mesh_vertices@.len() <= 14 * (MAX_POINTS + 1),
    ensures
        final(glow).origin == old(glow).origin,
        final(glow).viewport_size == old(glow).viewport_size,
        final(glow).instances@ == old(glow).instances@,
        final(glow).mesh_vertices@ == old(glow).mesh_vertices@ + strip_vertices(
            halo_sections(samples@, energies@, channel),
            num(HISTORY_GLOW_RADIUS_BITS),
            old(glow).origin,
            old(glow).viewport_size,
        ),
        final(glow).mesh_indices@ == old(glow).mesh_indices@ + links(
            old(glow).mesh_vertices@.len() as int,
            halo_sections(samples@, energies@, channel).len() as int,
        ),
        old(glow).well_formed() ==> final(glow).well_formed(),
{
    let line = line_of(samples, channel);
    let colors = halo_colors_of(samples, channel);
    let intensities = halo_intensities_of(samples, energies, channel);
    proof {
        assert(line@.len() == samples@.len());
        if samples@.len() < 2 {
            let sections = halo_sections(samples@, energies@, channel);
            assert(strip_vertices(
                sections,
                num(HISTORY_GLOW_RADIUS_BITS),
                glow.origin,
                glow.viewport_size,
            ) =~= Seq::<GlowVertex>::empty());
            lemma_append(glow.mesh_vertices@, Seq::empty(), Seq::empty());
            lemma_append(glow.mesh_indices@, Seq::empty(), Seq::empty());
        }
    }
    glow.push_polyline(
        line.as_slice(),
        intensities.as_slice(),
        colors.as_slice(),
        number(HISTORY_GLOW_RADIUS_BITS),
    );
}

proof fn lemma_halo_size(samples: Seq<BandSample>, energies: Seq<Binary32>, channel: Channel)
    ensures
        halo_sections(samples, energies, channel).len() <= 2 * samples.len(),
{
    if samples.len() >= 2 {
        lemma_sections_at_most_double(
            channel_line(samples, channel),
            halo_intensities(samples, energies, channel),
            halo_colors(samples, channel),
            samples.len() as int,
            samples.len() - 1,
        );
    }
}

proof fn lemma_sections_at_most_double(
    points: Seq<Pos2>,
    intensities: Seq<Binary32>,
    colors: Seq<Color>,
    count: int,
    last: int,
)
    requires
        0 <= last,
    ensures
        cross_sections(points, intensities, colors, count, last).len() <= 2 * (last + 1),
    decreases last,
{
    if last > 0 {
        lemma_sections_at_most_double(points, intensities, colors, count, last - 1);
    }
}

/// A display that has been built.
#[derive(Debug, Clone, PartialEq, Eq)]
pub struct F1OpenHudCache {
    pub rect: Option<Rect>,
    pub sharp_shapes: Vec<Shape>,
    pub fallback_emission_shapes: Vec<Shape>,
    pub glow_batch: GlowBatch,
    pub generation: u64,
    pub brake_head: Option<Pos2>,
    pub throttle_head: Option<Pos2>,
    pub speed_head: Option<Pos2>,
    pub values: OpenHudValues,
}

impl Default for F1OpenHudCache {
    fn default() -> (r: Self)
        ensures
            r.rect is None,
            r.sharp_shapes@.len() == 0,
            r.fallback_emission_shapes@.len() == 0,
            r.generation == 0,
            r.glow_batch.plan() == (crate::renderer::glow::GlowDrawPlan { instances: false, mesh: false }),
            r.brake_head is None,
            r.throttle_head is None,
            r.speed_head is None,
            r.values@ == no_values(),
    {
        F1OpenHudCache {
            rect: None,
            sharp_shapes: Vec::new(),
            fallback_emission_shapes: Vec::new(),
            glow_batch: GlowBatch::default(),
            generation: 0,
            brake_head: None,
            throttle_head: None,
            speed_head: None,
            values: OpenHudValues::default(),
        }
    }
}

impl F1OpenHudCache {
    /// Whether the display must be built before it is shown: on demand, and
    /// whenever its place has changed.
    pub fn needs_rebuild(&self, rect: Rect, rebuild_visualization: bool) -> (r: bool)
        ensures
            r == (rebuild_visualization || !(self.rect is Some && self.rect->0.coincides(rect))),
    {
        rebuild_visualization || match self.rect {
            Some(built) => !built.is_same_place(&rect),
            None => true,
        }
    }

    /// Whether the emission is drawn as light; otherwise it is painted.
    pub fn uses_additive_glow(&self, additive_glow_available: bool) -> (r: bool)
        ensures
            r == (additive_glow_available && (self.glow_batch.plan().instances || self.glow_batch.plan().mesh)),
    {
        additive_glow_available && !self.glow_batch.is_empty()
    }
}

impl<'a> F1OpenHud<'a> {
    /// Whether a cache holds this display, built for a rectangle.
    pub open spec fn built(self, rect: Rect, now: Instant, edges: Seq<ArcEdges>, cache: F1OpenHudCache) -> bool {
        let parts = self.trace_parts(rect, now).plus(self.instrument_parts(rect, edges));
        let throttle = self.halo(rect, now, Channel::Throttle);
        let brake = self.halo(rect, now, Channel::Brake);
        let origin = rect.min;
        let viewport = rect.max.from(rect.min);
        let radius = num(HISTORY_GLOW_RADIUS_BITS);
        let throttle_vertices = strip_vertices(throttle, radius, origin, viewport);
        &&& cache.rect == Some(rect)
        &&& cache.values@ == values_of(self.latest, self.speed_mph, self.max_steering_angle)
        &&& cache.brake_head == self.head_of(rect, Channel::Brake)
        &&& cache.throttle_head == self.head_of(rect, Channel::Throttle)
        &&& cache.speed_head == self.head_of(rect, Channel::Speed)
        &&& views(cache.sharp_shapes@) == parts.sharp
        &&& views(cache.fallback_emission_shapes@) == parts.fallback
        &&& cache.glow_batch.generation == cache.generation
        &&& cache.glow_batch.instances@ == parts.glow
        &&& cache.glow_batch.mesh_vertices@ == throttle_vertices + strip_vertices(brake, radius, origin, viewport)
        &&& cache.glow_batch.mesh_indices@ == links(0, throttle.len() as int) + links(
            throttle_vertices.len() as int,
            brake.len() as int,
        )
    }

    /// Adds the light at the head of a trace.
    fn draw_head_glow(&self, channel: Channel, head: Option<Pos2>, Ghost(rect): Ghost<Rect>, canvas: &mut HudCanvas)
        requires
            channel != Channel::Speed,
            head == if self.supports(channel) {
                Some(
                    if channel == Channel::Brake {
                        self.head(rect)->0.positions.brake
                    } else {
                        self.head(rect)->0.positions.throttle
                    },
                )
            } else {
                None
            },
        ensures
            final(canvas).added(
                *old(canvas),
                self.head_glow(rect, channel, old(canvas).glow.origin, old(canvas).glow.viewport_size),
            ),
    {
        proof {
            lemma_plus(canvas.parts(), no_parts(), no_parts());
            lemma_append(canvas.parts().sharp, Seq::empty(), Seq::empty());
            lemma_append(canvas.parts().fallback, Seq::empty(), Seq::empty());
        }
        if !self.trace_layers.policy().endpoint {
            return;
        }
        if let Some(place) = head {
            let ghost before = canvas.glow.instances@;
            canvas.glow.radial(
                place,
                number(HEAD_RADIUS_BITS),
                palette_of(channel).emission,
                self.opacity.times(number(HEAD_GLOW_BITS)),
            );
            proof {
                let light = canvas.glow.instances@.last();
                assert(before.push(light) =~= before + seq![light]);
            }
        }
    }

    /// Adds the light behind a value in the center.
    fn draw_center_glow(&self, place: Pos2, radius: Binary32, strength: Binary32, canvas: &mut HudCanvas)
        ensures
            final(canvas).added(
                *old(canvas),
                self.center_glow(
                    place,
                    radius,
                    strength,
                    old(canvas).glow.origin,
                    old(canvas).glow.viewport_size,
                ),
            ),
    {
        let ghost before = canvas.glow.instances@;
        canvas.glow.radial(place, radius, steering_white_color(), self.opacity.times(strength));
        proof {
            let light = canvas.glow.instances@.last();
            assert(before.push(light) =~= before + seq![light]);
            lemma_append(canvas.parts().sharp, Seq::empty(), Seq::empty());
            lemma_append(canvas.parts().fallback, Seq::empty(), Seq::empty());
        }
    }

    /// Adds grid and traces.
    fn draw_traces(&self, trace: &HistoryTrace, rect: &Rect, layout: &OpenHudLayout, heads: (Option<Pos2>, Option<Pos2>), Ghost(now): Ghost<Instant>, canvas: &mut HudCanvas)
        requires
            self.points@.len() <= MAX_POINTS,
            *layout == layout_of(*rect),
            self.drawable(*rect),
            trace.samples@ == self.trace(layout.trace_rect, now),
            trace.energies@ == self.trace_energies(now),
            trace.bands.well_formed(),
            trace.bands.contents() == self.trace_bands(layout.trace_rect, now),
            heads.0 == self.head_of(*rect, Channel::Brake),
            heads.1 == self.head_of(*rect, Channel::Throttle),
            old(canvas).parts() == no_parts(),
            old(canvas).glow.origin == rect.min,
            old(canvas).glow.viewport_size == rect.max.from(rect.min),
        ensures
            final(canvas).added(*old(canvas), self.trace_parts(*rect, now)),
    {
        let ghost start = canvas.parts();
        build_grid(&layout.trace_rect, self.opacity, &mut canvas.sharp_shapes);
        let ghost grid = sharp_parts(grid_shapes(layout.trace_rect, self.opacity));
        proof {
            lemma_append(canvas.parts().fallback, Seq::empty(), Seq::empty());
            lemma_append(canvas.parts().glow, Seq::empty(), Seq::empty());
            assert(canvas.parts() == start.plus(grid));
            lemma_plus(grid, no_parts(), no_parts());
            assert(canvas.parts() == grid);
        }
        self.draw_channel(trace, Channel::Brake, &layout.trace_rect, Ghost(now), canvas);
        self.draw_channel(trace, Channel::Throttle, &layout.trace_rect, Ghost(now), canvas);
        self.draw_channel(trace, Channel::Speed, &layout.trace_rect, Ghost(now), canvas);
        self.draw_head_glow(Channel::Brake, heads.0, Ghost(layout.trace_rect), canvas);
        self.draw_head_glow(Channel::Throttle, heads.1, Ghost(layout.trace_rect), canvas);
        proof {
            lemma_plus(canvas.parts(), no_parts(), no_parts());
        }
    }

    /// Adds the instruments.
    fn draw_instruments(&self, rect: &Rect, layout: &OpenHudLayout, values: &OpenHudValues, edges: &Vec<ArcEdges>, canvas: &mut HudCanvas)
        requires
            *layout == layout_of(*rect),
            values@ == values_of(self.latest, self.speed_mph, self.max_steering_angle),
            edges@.len() == STEERING_SEGMENTS,
            old(canvas).glow.origin == rect.min,
            old(canvas).glow.viewport_size == rect.max.from(rect.min),
        ensures
            final(canvas).added(*old(canvas), self.instrument_parts(*rect, edges@)),
    {
        let ghost origin = rect.min;
        let ghost viewport = rect.max.from(rect.min);
        let ghost start = canvas.parts();
        build_pedal_meter(
            &layout.brake_meter_rect,
            values.brake_level,
            &brake_palette(),
            Some(self.brake_limit),
            self.opacity,
            &mut canvas.sharp_shapes,
            &mut canvas.fallback_emission_shapes,
            &mut canvas.glow,
        );
        let ghost brake_meter = meter_parts(
            origin,
            viewport,
            layout.brake_meter_rect,
            values.brake_level,
            brake_colors(),
            Some(self.brake_limit),
            self.opacity,
        );
        assert(canvas.parts() == start.plus(brake_meter));
        build_pedal_meter(
            &layout.throttle_meter_rect,
            values.throttle_level,
            &throttle_palette(),
            None,
            self.opacity,
            &mut canvas.sharp_shapes,
            &mut canvas.fallback_emission_shapes,
            &mut canvas.glow,
        );
        let ghost throttle_meter = meter_parts(
            origin,
            viewport,
            layout.throttle_meter_rect,
            values.throttle_level,
            throttle_colors(),
            None,
            self.opacity,
        );
        assert(canvas.parts() == start.plus(brake_meter).plus(throttle_meter));
        proof {
            lemma_append(canvas.parts().fallback, Seq::empty(), Seq::empty());
            lemma_append(canvas.parts().glow, Seq::empty(), Seq::empty());
        }
        build_steering_arc(
            &layout.steering_rect,
            values.steering_level,
            edges,
            self.opacity,
            &mut canvas.sharp_shapes,
        );
        let ghost arc = sharp_parts(
            steering_shapes(layout.steering_rect, values.steering_level, edges@, self.opacity),
        );
        assert(canvas.parts() == start.plus(brake_meter).plus(throttle_meter).plus(arc));
        build_rev_lights(
            &layout.center_rect,
            values.rev_lights,
            self.opacity,
            &mut canvas.sharp_shapes,
            &mut canvas.fallback_emission_shapes,
            &mut canvas.glow,
        );
        let ghost lights = rev_parts(origin, viewport, layout.center_rect, values.rev_lights, self.opacity);
        assert(canvas.parts() == start.plus(brake_meter).plus(throttle_meter).plus(arc).plus(lights));
        self.draw_center_glow(
            gear_value_position(layout),
            number(GEAR_RADIUS_BITS),
            number(GEAR_GLOW_BITS),
            canvas,
        );
        self.draw_center_glow(
            speed_value_position(layout),
            number(SPEED_RADIUS_BITS),
            number(SPEED_GLOW_BITS),
            canvas,
        );
        proof {
            let gear = self.center_glow(
                centered_at(layout.center_rect, num(GEAR_PLACE_BITS)),
                num(GEAR_RADIUS_BITS),
                num(GEAR_GLOW_BITS),
                origin,
                viewport,
            );
            let speed = self.center_glow(
                centered_at(layout.center_rect, num(SPEED_PLACE_BITS)),
                num(SPEED_RADIUS_BITS),
                num(SPEED_GLOW_BITS),
                origin,
                viewport,
            );
            let two = brake_meter.plus(throttle_meter);
            let three = two.plus(arc);
            let four = three.plus(lights);
            let five = four.plus(gear);
            lemma_plus(start, brake_meter, throttle_meter);
            lemma_plus(start, two, arc);
            lemma_plus(start, three, lights);
            lemma_plus(start, four, gear);
            lemma_plus(start, five, speed);
        }
    }

    /// Whether no lock value counts as a lock.
    fn has_no_locks(&self) -> (r: bool)
        ensures
            r == self.without_locks(),
    {
        let mut i: usize = 0;
        while i < self.lock_history.len()
            invariant
                i <= self.lock_history@.len(),
                forall|j: int|
                    0 <= j < i ==> !num(LOCK_HISTORY_THRESHOLD_BITS).below(#[trigger] self.lock_history@[j]),
            decreases self.lock_history@.len() - i,
        {
            if number(LOCK_HISTORY_THRESHOLD_BITS).lt(self.lock_history[i]) {
                return false;
            }
            i = i + 1;
        }
        true
    }

    /// Whether the display can be built in a rectangle.
    pub fn is_drawable(&self, rect: Rect) -> (r: bool)
        ensures
            r == self.drawable(rect),
    {
        !self.is_supported(Channel::Brake) || self.has_no_locks() || is_projectable(
            &OpenHudLayout::new(rect).trace_rect,
            &self.brake_params,
            &self.trace_style(),
        )
    }

    /// Builds the display into a cache. `arc_edges` holds the cosines and sines
    /// of the angles of [`crate::renderer::instruments::arc_angles`].
    pub fn rebuild(&self, rect: Rect, now: Instant, arc_edges: &Vec<ArcEdges>, cache: &mut F1OpenHudCache)
        requires
            self.points@.len() <= MAX_POINTS,
            self.drawable(rect),
            arc_edges@.len() == STEERING_SEGMENTS,
        ensures
            self.built(rect, now, arc_edges@, *final(cache)),
            final(cache).generation == if old(cache).generation == u64::MAX {
                0
            } else {
                (old(cache).generation + 1) as u64
            },
    {
        let generation: u64 = cache.generation.wrapping_add(1);
        let values = self.formatted_values();
        let layout = OpenHudLayout::new(rect);
        let trace = self.collect_history(&layout.trace_rect, now);
        let mut canvas = HudCanvas::new(rect);
        let ghost empty = canvas;
        let mut brake_head: Option<Pos2> = None;
        let mut throttle_head: Option<Pos2> = None;
        let mut speed_head: Option<Pos2> = None;
        if let Some(latest) = self.latest {
            let heads = trace_positions(&latest.telemetry, layout.trace_rect.max.x, &layout.trace_rect);
            if latest.telemetry.capabilities.brake {
                brake_head = Some(heads.brake);
            }
            if latest.telemetry.capabilities.throttle {
                throttle_head = Some(heads.throttle);
            }
            if latest.telemetry.capabilities.speed {
                speed_head = Some(heads.speed);
            }
        }
        self.draw_traces(&trace, &rect, &layout, (brake_head, throttle_head), Ghost(now), &mut canvas);
        let ghost traces = self.trace_parts(rect, now);
        proof {
            lemma_plus(traces, no_parts(), no_parts());
            assert(canvas.parts() == traces);
            lemma_append(canvas.glow.mesh_vertices@, Seq::empty(), Seq::empty());
            lemma_append(canvas.glow.mesh_indices@, Seq::empty(), Seq::empty());
            lemma_halo_size(trace.samples@, trace.energies@, Channel::Throttle);
        }
        let continuous = self.trace_layers.uses_continuous_halo(self.history_glow);
        let ghost radius = num(HISTORY_GLOW_RADIUS_BITS);
        let ghost origin = rect.min;
        let ghost viewport = rect.max.from(rect.min);
        let ghost throttle_halo = self.halo(rect, now, Channel::Throttle);
        let ghost brake_halo = self.halo(rect, now, Channel::Brake);
        proof {
            assert(canvas.glow.mesh_vertices@ =~= Seq::<GlowVertex>::empty());
            assert(canvas.glow.mesh_indices@ =~= Seq::<u32>::empty());
            assert(strip_vertices(Seq::empty(), radius, origin, viewport) =~= Seq::<GlowVertex>::empty());
        }
        if continuous && self.is_supported(Channel::Throttle) {
            push_halo(&trace.samples, &trace.energies, Channel::Throttle, &mut canvas.glow);
        }
        proof {
            assert(canvas.glow.mesh_vertices@ =~= strip_vertices(throttle_halo, radius, origin, viewport));
            assert(canvas.glow.mesh_indices@ =~= links(0, throttle_halo.len() as int));
            lemma_append(canvas.glow.mesh_vertices@, Seq::empty(), Seq::empty());
            lemma_append(canvas.glow.mesh_indices@, Seq::empty(), Seq::empty());
        }
        if continuous && self.is_supported(Channel::Brake) {
            push_halo(&trace.samples, &trace.energies, Channel::Brake, &mut canvas.glow);
        }
        assert(canvas.parts() == traces);
        self.draw_instruments(&rect, &layout, &values, arc_edges, &mut canvas);
        cache.rect = Some(rect);
        cache.values = values;
        cache.brake_head = brake_head;
        cache.throttle_head = throttle_head;
        cache.speed_head = speed_head;
        cache.generation = generation;
        cache.sharp_shapes = canvas.sharp_shapes;
        cache.fallback_emission_shapes = canvas.fallback_emission_shapes;
        cache.glow_batch = canvas.glow.finish(generation);
    }
}

} // verus!
