//! The decisions of the overlay window, apart from drawing it.
use crate::binary32::{num, number, Binary32, ONE_BITS, ZERO_BITS};
use crate::buffer::TelemetryBuffer;
use crate::model::TelemetryPoint;
use crate::plugins::{
    activation_needed, provider_config, steering_half_lock, trimmed, CollectorSettings, GameConfig, ProviderConfig,
    DEFAULT_HALF_LOCK_BITS,
};
use crate::renderer::color::saturated;
use crate::renderer::hud::steering_degrees;
use crate::time::{elapsed_between, in_seconds, Duration, Instant, MAX_NANOS};
use vstd::prelude::*;
use vstd::string::*;

verus! {

/// Seconds of telemetry that are buffered.
pub const BUFFER_CAPACITY_SECS: u64 = 60;

/// Polls of the telemetry source per second.
pub const POLL_RATE_HZ: u64 = 60;

/// Refreshes of the visualization per second at most.
pub const VISUALIZATION_CAP_HZ: u64 = 60;

/// Nanoseconds between two refreshes of the visualization at least.
pub const VISUALIZATION_INTERVAL_NANOS: u64 = 16_666_666;

/// Milliseconds between two repaints of an idle overlay.
pub const IDLE_REPAINT_MILLIS: u64 = 250;

/// Seconds between two reports of the runtime counters at least.
pub const RUNTIME_COUNTER_SECS: u64 = 30;

/// Seconds for which a point counts as live.
pub const LIVE_SECS: u64 = 2;

/// Bit pattern of 2: seconds for which a point is shown as live.
pub const LIVE_SECONDS_BITS: u32 = 0x4000_0000;

/// Bit pattern of 0.25: the longest time step of an animation in seconds.
pub const MAX_FRAME_BITS: u32 = 0x3e80_0000;

/// Bit pattern of 16: the rate at which the bar appears.
pub const BAR_IN_RATE_BITS: u32 = 0x4180_0000;

/// Bit pattern of 5: the rate at which the bar disappears.
pub const BAR_OUT_RATE_BITS: u32 = 0x40a0_0000;

/// Bit pattern of 0.001: the distance at which the bar has arrived.
pub const BAR_SETTLED_BITS: u32 = 0x3a83_126f;

/// Bit pattern of 300: the smallest width of the overlay.
pub const MIN_WIDTH_BITS: u32 = 0x4396_0000;

/// Bit pattern of 130: the smallest height of the overlay.
pub const MIN_HEIGHT_BITS: u32 = 0x4302_0000;

/// Bit pattern of 30: the height of the overlay when minimized.
pub const MINIMIZED_HEIGHT_BITS: u32 = 0x41f0_0000;

/// Bit pattern of 255.
pub const FULL_ALPHA_BITS: u32 = 0x437f_0000;

/// Whether a refresh that is due at a time may run.
pub open spec fn is_due(due: nat, now: nat) -> bool {
    due <= now
}

/// When the next refresh is due after one has been asked for.
pub open spec fn due_after(due: nat, now: nat) -> nat {
    if is_due(due, now) {
        now + VISUALIZATION_INTERVAL_NANOS as nat
    } else {
        due
    }
}

/// Limits how often the visualization is refreshed, however often the window
/// asks for it.
#[derive(Debug, Clone, Copy, PartialEq, Eq)]
pub struct VisualizationGate {
    next_due: Instant,
}

impl VisualizationGate {
    /// When the next refresh is due, in nanoseconds.
    pub closed spec fn due(self) -> nat {
        self.next_due@
    }

    /// A gate whose first refresh is due at once.
    pub fn new(now: Instant) -> (r: Self)
        ensures
            r.due() == now@,
    {
        VisualizationGate { next_due: now }
    }

    /// Whether a refresh is due; if so, the next one is due an interval from
    /// now, so a late refresh is not followed by others that catch up.
    pub fn take_due(&mut self, now: Instant) -> (r: bool)
        requires
            now@ + VISUALIZATION_INTERVAL_NANOS <= MAX_NANOS,
        ensures
            r == is_due(old(self).due(), now@),
            final(self).due() == due_after(old(self).due(), now@),
    {
        if now.is_before(&self.next_due) {
            return false;
        }
        self.next_due = now.plus(Duration::from_nanos(VISUALIZATION_INTERVAL_NANOS));
        true
    }

    /// The time until the next refresh.
    pub fn remaining(&self, now: Instant) -> (r: Duration)
        ensures
            r@ == elapsed_between(now@, self.due()),
    {
        self.next_due.saturating_duration_since(now)
    }
}

/// What the visualization shows.
#[derive(Debug, Clone, PartialEq, Eq)]
pub struct VisualizationSnapshot {
    pub latest: Option<TelemetryPoint>,
    pub points: Vec<TelemetryPoint>,
}

impl Default for VisualizationSnapshot {
    fn default() -> (r: Self)
        ensures
            r.latest is None,
            r.points@.len() == 0,
    {
        VisualizationSnapshot { latest: None, points: Vec::new() }
    }
}

/// Whether a point lies in the window that ends at `now`.
pub open spec fn in_window(point: TelemetryPoint, now: nat, window: nat) -> bool {
    elapsed_between(point.captured_at@, now) <= window
}

/// The points within the window that ends at `now`.
pub fn points_in_window(points: &Vec<TelemetryPoint>, now: Instant, window: Duration) -> (r: Vec<TelemetryPoint>)
    ensures
        r@ == points@.filter(|p: TelemetryPoint| in_window(p, now@, window@)),
{
    let mut kept: Vec<TelemetryPoint> = Vec::new();
    let mut i: usize = 0;
    let ghost wanted = |p: TelemetryPoint| in_window(p, now@, window@);
    proof {
        reveal(Seq::filter);
        assert(points@.take(0).filter(wanted) =~= Seq::<TelemetryPoint>::empty());
    }
    while i < points.len()
        invariant
            i <= points@.len(),
            wanted == (|p: TelemetryPoint| in_window(p, now@, window@)),
            kept@ == points@.take(i as int).filter(wanted),
        decreases points@.len() - i,
    {
        let point: TelemetryPoint = points[i];
        proof {
            reveal(Seq::filter);
            let longer = points@.take(i + 1);
            assert(longer.drop_last() =~= points@.take(i as int));
            assert(longer.last() == point);
        }
        if now.saturating_duration_since(point.captured_at).at_most(&window) {
            kept.push(point);
        }
        i = i + 1;
    }
    proof {
        assert(points@.take(i as int) =~= points@);
    }
    kept
}

/// The latest point that a snapshot shows.
pub open spec fn latest_shown(points: Seq<TelemetryPoint>, running: bool) -> Option<TelemetryPoint> {
    if running && points.len() > 0 {
        Some(points.last())
    } else {
        None
    }
}

/// The points that a snapshot shows.
pub open spec fn points_shown(points: Seq<TelemetryPoint>, running: bool, now: nat, window: nat) -> Seq<TelemetryPoint> {
    if running {
        points.filter(|p: TelemetryPoint| in_window(p, now, window))
    } else {
        Seq::empty()
    }
}

/// Takes a snapshot of the buffer; a stopped overlay shows nothing.
pub fn take_snapshot(buffer: &TelemetryBuffer, running: bool, now: Instant, window: Duration) -> (r:
    VisualizationSnapshot)
    ensures
        r.latest == latest_shown(buffer.points(), running),
        r.points@ == points_shown(buffer.points(), running, now@, window@),
{
    if running {
        VisualizationSnapshot { latest: buffer.latest(), points: points_in_window(&buffer.stored_points(), now, window) }
    } else {
        VisualizationSnapshot { latest: None, points: Vec::new() }
    }
}

/// The steering angle to show for the latest point, zero without one.
pub open spec fn shown_steering(latest: Option<TelemetryPoint>, max_steering_angle: Binary32) -> Binary32 {
    match latest {
        Some(point) => steering_degrees(point.telemetry, max_steering_angle),
        None => num(ZERO_BITS),
    }
}

/// The steering angle to show for the latest point, zero without one.
pub fn current_steering(latest: &Option<TelemetryPoint>, max_steering_angle: Binary32) -> (r: Binary32)
    ensures
        r == shown_steering(*latest, max_steering_angle),
{
    match latest {
        Some(point) => point.telemetry.effective_steering_degrees(max_steering_angle),
        None => number(ZERO_BITS),
    }
}

/// Whether the latest point is recent enough to keep the overlay animated.
pub open spec fn recent(latest: Option<TelemetryPoint>, now: nat) -> bool {
    match latest {
        Some(point) => elapsed_between(point.captured_at@, now) <= LIVE_SECS * 1_000_000_000,
        None => false,
    }
}

/// Whether the latest point is recent enough to keep the overlay animated.
pub fn is_live(latest: &Option<TelemetryPoint>, now: Instant) -> (r: bool)
    ensures
        r == recent(*latest, now@),
{
    match latest {
        Some(point) => now.saturating_duration_since(point.captured_at).at_most(&Duration::from_secs(LIVE_SECS)),
        None => false,
    }
}

/// Whether the latest point is shown as live.
pub open spec fn shown_live(latest: Option<TelemetryPoint>, now: nat) -> bool {
    match latest {
        Some(point) => in_seconds(elapsed_between(point.captured_at@, now)).at_most(num(LIVE_SECONDS_BITS)),
        None => false,
    }
}

/// Whether the latest point is shown as live; otherwise the overlay shows that
/// it waits for the game.
pub fn shows_live(latest: &Option<TelemetryPoint>, now: Instant) -> (r: bool)
    ensures
        r == shown_live(*latest, now@),
{
    match latest {
        Some(point) => now.saturating_duration_since(point.captured_at).as_secs_f32().le(number(LIVE_SECONDS_BITS)),
        None => false,
    }
}

/// How visible the title bar should be: fully while it can be used.
pub open spec fn bar_target(minimized: bool, hovered: bool, config_open: bool) -> Binary32 {
    if minimized || hovered || config_open {
        num(ONE_BITS)
    } else {
        num(ZERO_BITS)
    }
}

/// How fast the title bar changes: fast in, slow out.
pub open spec fn bar_rate(target: Binary32, alpha: Binary32) -> Binary32 {
    if alpha.below(target) {
        num(BAR_IN_RATE_BITS)
    } else {
        num(BAR_OUT_RATE_BITS)
    }
}

/// How visible the title bar is after a step that leaves a part of the way.
pub open spec fn bar_after(alpha: Binary32, target: Binary32, decay: Binary32) -> Binary32 {
    alpha.sum(target.difference(alpha).product(num(ONE_BITS).difference(decay)))
}

/// The opacity of the overlay as an alpha value.
pub fn overlay_alpha(opacity: Binary32) -> (r: u8)
    ensures
        r == saturated(opacity.product(num(FULL_ALPHA_BITS)).whole_part()),
{
    let alpha: u64 = opacity.times(number(FULL_ALPHA_BITS)).truncate_to_u64();
    if alpha > 255 {
        255
    } else {
        alpha as u8
    }
}

/// A part of an alpha value, cut off to an integer.
pub fn scaled_alpha(alpha: u8, scale: Binary32) -> (r: u8)
    ensures
        r == saturated(crate::arithmetic::whole(alpha as nat).product(scale).whole_part()),
{
    let scaled: u64 = Binary32::from_u64(alpha as u64).times(scale).truncate_to_u64();
    if scaled > 255 {
        255
    } else {
        scaled as u8
    }
}

/// What happens to the background poller.
#[derive(Debug, Clone, Copy, PartialEq, Eq, Structural)]
pub enum PollerAction {
    Stop,
    Start,
    Keep,
}

/// What happens to the background poller: it runs exactly while the overlay
/// does.
pub open spec fn action_for(running: bool, polling: bool) -> PollerAction {
    if running == polling {
        PollerAction::Keep
    } else if running {
        PollerAction::Start
    } else {
        PollerAction::Stop
    }
}

/// What happens to the background poller.
pub fn poller_action(running: bool, polling: bool) -> (r: PollerAction)
    ensures
        r == action_for(running, polling),
{
    if running == polling {
        PollerAction::Keep
    } else if running {
        PollerAction::Start
    } else {
        PollerAction::Stop
    }
}

/// Place and size of the overlay, as they are saved.
#[derive(Debug, Clone, Copy, PartialEq, Eq, Structural)]
pub struct OverlayGeometry {
    pub width: Binary32,
    pub height: Binary32,
    pub position_x: Binary32,
    pub position_y: Binary32,
}

/// The geometry after the window has reported its size and place. The height of
/// a minimized overlay is not its own and is not noted.
pub open spec fn noted(
    geometry: OverlayGeometry,
    inner_size: Option<(Binary32, Binary32)>,
    outer_position: Option<(Binary32, Binary32)>,
    minimized: bool,
) -> OverlayGeometry {
    let sized = match inner_size {
        Some((width, _)) if minimized => OverlayGeometry { width, ..geometry },
        Some((width, height)) => OverlayGeometry { width, height, ..geometry },
        None => geometry,
    };
    match outer_position {
        Some((position_x, position_y)) => OverlayGeometry { position_x, position_y, ..sized },
        None => sized,
    }
}

impl OverlayGeometry {
    /// Notes the size and place that the window reports.
    pub fn track(
        &mut self,
        inner_size: Option<(Binary32, Binary32)>,
        outer_position: Option<(Binary32, Binary32)>,
        minimized: bool,
    )
        ensures
            *final(self) == noted(*old(self), inner_size, outer_position, minimized),
    {
        if let Some((width, height)) = inner_size {
            self.width = width;
            if !minimized {
                self.height = height;
            }
        }
        if let Some((x, y)) = outer_position {
            self.position_x = x;
            self.position_y = y;
        }
    }
}

/// The size after dragging the resize handle.
pub fn resized(width: Binary32, height: Binary32, dx: Binary32, dy: Binary32) -> (r: (Binary32, Binary32))
    ensures
        r.0 == width.sum(dx).larger(num(MIN_WIDTH_BITS)),
        r.1 == height.sum(dy).larger(num(MIN_HEIGHT_BITS)),
{
    (width.plus(dx).max(number(MIN_WIDTH_BITS)), height.plus(dy).max(number(MIN_HEIGHT_BITS)))
}

/// Which parts of the overlay are open.
#[derive(Debug, Clone, Copy, PartialEq, Eq, Structural)]
pub struct OverlayPanels {
    pub minimized: bool,
    pub config_open: bool,
}

impl OverlayPanels {
    /// Minimizes or restores the overlay, and returns the size to take. A
    /// minimized overlay closes its settings.
    pub fn toggle_minimized(&mut self, geometry: &OverlayGeometry) -> (r: (Binary32, Binary32))
        ensures
            final(self).minimized == !old(self).minimized,
            final(self).config_open == (old(self).config_open && old(self).minimized),
            r.0 == geometry.width,
            r.1 == if old(self).minimized {
                geometry.height
            } else {
                num(MINIMIZED_HEIGHT_BITS)
            },
    {
        self.minimized = !self.minimized;
        if self.minimized {
            self.config_open = false;
            (geometry.width, number(MINIMIZED_HEIGHT_BITS))
        } else {
            (geometry.width, geometry.height)
        }
    }

    /// Opens or closes the settings.
    pub fn toggle_config(&mut self)
        ensures
            final(self).config_open == !old(self).config_open,
            final(self).minimized == old(self).minimized,
    {
        self.config_open = !self.config_open;
    }
}

/// Counts updates and refreshes between two reports.
#[derive(Debug, Clone, Copy, PartialEq, Eq)]
pub struct RuntimeCounters {
    pub started_at: Instant,
    pub ui_updates: u64,
    pub visualization_work: u64,
}

/// What a report of the runtime counters says.
#[derive(Debug, Clone, Copy, PartialEq, Eq)]
pub struct RuntimeReport {
    pub interval: Duration,
    pub ui_updates: u64,
    pub visualization_work: u64,
}

impl RuntimeCounters {
    /// Counters that start now.
    pub fn new(now: Instant) -> (r: Self)
        ensures
            r.started_at == now,
            r.ui_updates == 0,
            r.visualization_work == 0,
    {
        RuntimeCounters { started_at: now, ui_updates: 0, visualization_work: 0 }
    }

    /// The counters after an update.
    pub open spec fn counted(self, refreshed: bool) -> RuntimeCounters {
        RuntimeCounters {
            started_at: self.started_at,
            ui_updates: (self.ui_updates + 1) as u64,
            visualization_work: if refreshed {
                (self.visualization_work + 1) as u64
            } else {
                self.visualization_work
            },
        }
    }

    /// Counts an update, and a refresh if it was one.
    pub fn count(&mut self, refreshed: bool)
        requires
            old(self).ui_updates < u64::MAX,
            old(self).visualization_work < u64::MAX,
        ensures
            *final(self) == old(self).counted(refreshed),
    {
        self.ui_updates = self.ui_updates + 1;
        if refreshed {
            self.visualization_work = self.visualization_work + 1;
        }
    }

    /// The report, once its interval has passed; counting then starts again at
    /// `resumed_at`.
    pub fn take_report(&mut self, now: Instant, resumed_at: Instant) -> (r: Option<RuntimeReport>)
        ensures
            ({
                let elapsed = elapsed_between(old(self).started_at@, now@);
                if elapsed >= RUNTIME_COUNTER_SECS * 1_000_000_000 {
                    &&& r matches Some(report)
                    &&& report.interval@ == elapsed
                    &&& report.ui_updates == old(self).ui_updates
                    &&& report.visualization_work == old(self).visualization_work
                    &&& final(self).started_at == resumed_at
                    &&& final(self).ui_updates == 0
                    &&& final(self).visualization_work == 0
                } else {
                    r is None && *final(self) == *old(self)
                }
            }),
    {
        let interval = now.saturating_duration_since(self.started_at);
        if !Duration::from_secs(RUNTIME_COUNTER_SECS).at_most(&interval) {
            return None;
        }
        let report = RuntimeReport {
            interval,
            ui_updates: self.ui_updates,
            visualization_work: self.visualization_work,
        };
        self.started_at = resumed_at;
        self.ui_updates = 0;
        self.visualization_work = 0;
        Some(report)
    }
}

/// The layouts of the overlay.
#[derive(Debug, Clone, Copy, PartialEq, Eq, Structural)]
pub enum UiLayoutMode {
    Classic,
    F1OpenHudBeta,
}

/// Whether the F1 display is shown: it is chosen, and the provider is F1.
pub fn shows_f1_hud(mode: UiLayoutMode, f1_provider: bool) -> (r: bool)
    ensures
        r == (mode == UiLayoutMode::F1OpenHudBeta && f1_provider),
{
    mode == UiLayoutMode::F1OpenHudBeta && f1_provider
}

/// What an update of the overlay has to do.
#[derive(Debug, Clone, Copy, PartialEq, Eq, Structural)]
pub struct UpdatePlan {
    /// The time step of animations in seconds.
    pub frame_step: Binary32,
    /// What happens to the poller. When it stops, the buffer is cleared.
    pub poller: PollerAction,
    /// Whether the selected provider is activated and the buffer cleared.
    pub activate: bool,
    /// Whether the visualization is refreshed.
    pub refresh: bool,
}

/// The state of the overlay.
pub struct Overlay {
    pub running: bool,
    /// Whether the background poller runs.
    pub polling: bool,
    pub panels: OverlayPanels,
    pub geometry: OverlayGeometry,
    /// How visible the title bar is.
    pub bar_alpha: Binary32,
    pub current_steering: Binary32,
    /// The half-lock angle of the active provider in degrees.
    pub max_steering_angle: Binary32,
    pub active_plugin: String,
    pub active_provider_config: ProviderConfig,
    pub last_update_at: Instant,
    pub gate: VisualizationGate,
    pub snapshot: VisualizationSnapshot,
    pub counters: RuntimeCounters,
}

/// The half-lock angle that a provider states, or the default.
pub open spec fn half_lock_of(config: Option<GameConfig>) -> Binary32 {
    match config {
        Some(config) => config.max_steering_angle,
        None => num(DEFAULT_HALF_LOCK_BITS),
    }
}

/// Whether the settings ask for the provider and configuration that are active.
pub open spec fn is_active(settings: CollectorSettings, plugin: Seq<char>, config: ProviderConfig) -> bool {
    &&& settings.plugin@ == plugin
    &&& trimmed(settings.f1_bind_address@) == config.f1_bind_address@
    &&& settings.f1_udp_port == config.f1_udp_port
}

impl Overlay {
    /// The overlay at its start: running, with the bar visible. `config` is
    /// the configuration of the selected provider, if it exists.
    pub fn new(
        settings: &CollectorSettings,
        config: Option<GameConfig>,
        geometry: OverlayGeometry,
        now: Instant,
    ) -> (r: Self)
        ensures
            r.running,
            !r.polling,
            !r.panels.minimized,
            !r.panels.config_open,
            r.geometry == geometry,
            r.bar_alpha == num(ONE_BITS),
            r.current_steering == num(ZERO_BITS),
            r.max_steering_angle == half_lock_of(config),
            is_active(*settings, r.active_plugin@, r.active_provider_config),
            r.last_update_at == now,
            r.gate.due() == now@,
            r.snapshot.latest is None,
            r.snapshot.points@.len() == 0,
            r.counters.started_at == now,
            r.counters.ui_updates == 0,
            r.counters.visualization_work == 0,
    {
        Overlay {
            running: true,
            polling: false,
            panels: OverlayPanels { minimized: false, config_open: false },
            geometry,
            bar_alpha: number(ONE_BITS),
            current_steering: number(ZERO_BITS),
            max_steering_angle: steering_half_lock(config),
            active_plugin: settings.plugin.as_str().to_owned(),
            active_provider_config: provider_config(settings),
            last_update_at: now,
            gate: VisualizationGate::new(now),
            snapshot: VisualizationSnapshot::default(),
            counters: RuntimeCounters::new(now),
        }
    }

    /// Whether the counters have room for another update.
    pub open spec fn has_room(self) -> bool {
        self.counters.ui_updates < u64::MAX && self.counters.visualization_work < u64::MAX
    }

    /// Whether the counters have room for another update.
    pub fn can_count(&self) -> (r: bool)
        ensures
            r == self.has_room(),
    {
        self.counters.ui_updates < u64::MAX && self.counters.visualization_work < u64::MAX
    }

    /// Begins an update: notes the geometry of the window, starts and stops the
    /// poller, activates a newly selected provider, and asks for a refresh of
    /// the visualization if one is due. `config` is the configuration of the
    /// selected provider, if it exists.
    pub fn begin_update(
        &mut self,
        now: Instant,
        inner_size: Option<(Binary32, Binary32)>,
        outer_position: Option<(Binary32, Binary32)>,
        settings: &CollectorSettings,
        config: Option<GameConfig>,
    ) -> (r: UpdatePlan)
        requires
            now@ + VISUALIZATION_INTERVAL_NANOS <= MAX_NANOS,
            old(self).has_room(),
        ensures
            r.frame_step == in_seconds(elapsed_between(old(self).last_update_at@, now@)).smaller(num(MAX_FRAME_BITS)),
            r.poller == action_for(old(self).running, old(self).polling),
            r.activate == !is_active(*settings, old(self).active_plugin@, old(self).active_provider_config),
            r.refresh == is_due(old(self).gate.due(), now@),
            final(self).running == old(self).running,
            final(self).polling == old(self).running,
            final(self).panels == old(self).panels,
            final(self).geometry == noted(old(self).geometry, inner_size, outer_position, old(self).panels.minimized),
            final(self).bar_alpha == old(self).bar_alpha,
            final(self).current_steering == if r.poller == PollerAction::Stop || r.activate {
                num(ZERO_BITS)
            } else {
                old(self).current_steering
            },
            final(self).max_steering_angle == if r.activate {
                half_lock_of(config)
            } else {
                old(self).max_steering_angle
            },
            is_active(*settings, final(self).active_plugin@, final(self).active_provider_config),
            final(self).last_update_at == now,
            final(self).gate.due() == due_after(old(self).gate.due(), now@),
            final(self).snapshot == old(self).snapshot,
            final(self).counters == old(self).counters.counted(r.refresh),
    {
        let step = now.saturating_duration_since(self.last_update_at).as_secs_f32().min(number(MAX_FRAME_BITS));
        self.last_update_at = now;
        self.geometry.track(inner_size, outer_position, self.panels.minimized);
        let poller = poller_action(self.running, self.polling);
        if poller == PollerAction::Stop {
            self.current_steering = number(ZERO_BITS);
        }
        self.polling = self.running;
        let activate = activation_needed(settings, self.active_plugin.as_str(), &self.active_provider_config);
        if activate {
            self.current_steering = number(ZERO_BITS);
            self.max_steering_angle = steering_half_lock(config);
            self.active_plugin = settings.plugin.as_str().to_owned();
            self.active_provider_config = provider_config(settings);
        }
        let refresh = self.gate.take_due(now);
        self.counters.count(refresh);
        UpdatePlan { frame_step: step, poller, activate, refresh }
    }

    /// Refreshes what is shown from the buffer.
    pub fn refresh(&mut self, buffer: &TelemetryBuffer, now: Instant, window: Duration)
        ensures
            final(self).snapshot.latest == latest_shown(buffer.points(), old(self).running),
            final(self).snapshot.points@ == points_shown(buffer.points(), old(self).running, now@, window@),
            final(self).current_steering == shown_steering(
                final(self).snapshot.latest,
                old(self).max_steering_angle,
            ),
            *final(self) == (Overlay {
                snapshot: final(self).snapshot,
                current_steering: final(self).current_steering,
                ..*old(self)
            }),
    {
        self.snapshot = take_snapshot(buffer, self.running, now, window);
        self.current_steering = current_steering(&self.snapshot.latest, self.max_steering_angle);
    }

    /// How visible the title bar should be.
    pub open spec fn target(self, hovered: bool) -> Binary32 {
        bar_target(self.panels.minimized, hovered, self.panels.config_open)
    }

    fn target_of(&self, hovered: bool) -> (r: Binary32)
        ensures
            r == self.target(hovered),
    {
        if self.panels.minimized || hovered || self.panels.config_open {
            number(ONE_BITS)
        } else {
            number(ZERO_BITS)
        }
    }

    /// The exponent of the decay of the title bar over a time step.
    pub fn bar_exponent(&self, hovered: bool, frame_step: Binary32) -> (r: Binary32)
        ensures
            r == bar_rate(self.target(hovered), self.bar_alpha).opposite().product(frame_step),
    {
        let rate = if self.bar_alpha.lt(self.target_of(hovered)) {
            number(BAR_IN_RATE_BITS)
        } else {
            number(BAR_OUT_RATE_BITS)
        };
        rate.negate().times(frame_step)
    }

    /// Fades the title bar by a step that leaves the part `decay` of the way,
    /// and returns whether it still changes.
    pub fn fade_bar(&mut self, hovered: bool, decay: Binary32) -> (r: bool)
        ensures
            *final(self) == (Overlay {
                bar_alpha: bar_after(old(self).bar_alpha, old(self).target(hovered), decay),
                ..*old(self)
            }),
            r == num(BAR_SETTLED_BITS).below(
                old(self).target(hovered).difference(final(self).bar_alpha).absolute(),
            ),
    {
        let target = self.target_of(hovered);
        self.bar_alpha = self.bar_alpha.plus(
            target.minus(self.bar_alpha).times(number(ONE_BITS).minus(decay)),
        );
        number(BAR_SETTLED_BITS).lt(target.minus(self.bar_alpha).abs())
    }

    /// When to repaint: at the next refresh while anything moves, slowly while
    /// waiting for a game, and only on events when stopped.
    pub fn repaint_after(&self, bar_animation: bool, now: Instant) -> (r: Option<Duration>)
        ensures
            match r {
                Some(wait) => if (self.running && recent(self.snapshot.latest, now@)) || bar_animation {
                    wait@ == elapsed_between(now@, self.gate.due())
                } else {
                    self.running && wait@ == IDLE_REPAINT_MILLIS * 1_000_000
                },
                None => !self.running && !bar_animation,
            },
    {
        if (self.running && is_live(&self.snapshot.latest, now)) || bar_animation {
            Some(self.gate.remaining(now))
        } else if self.running {
            Some(Duration::from_millis(IDLE_REPAINT_MILLIS))
        } else {
            None
        }
    }
}

} // verus!
