//! The history of the traces: its layers, recency bands and lock runs.
use crate::arithmetic::{
    lemma_difference_with_itself, lemma_product_with_zero, lemma_sum_with_zero, lemma_whole_is_exact,
    lemma_whole_part_is_natural, whole,
};
use crate::binary32::{num, number, unit_value, Binary32, ONE_BITS, ZERO_BITS};
use crate::renderer::geometry::Pos2;
use vstd::prelude::*;

verus! {

/// Recency bands of the history.
pub const HISTORY_BANDS: usize = 8;

/// Bit pattern of 8: the number of bands.
pub const BAND_COUNT_BITS: u32 = 0x4100_0000;

/// Bit pattern of 0.08: the energy that the oldest part keeps.
pub const ENERGY_FLOOR_BITS: u32 = 0x3da3_d70a;

/// Bit pattern of 0.92: the energy that fades with age.
pub const ENERGY_RANGE_BITS: u32 = 0x3f6b_851f;

/// Bit pattern of 0.001: the shortest window in seconds.
pub const SHORTEST_WINDOW_BITS: u32 = 0x3a83_126f;

/// Bit pattern of 0.01: lock values up to this are no lock.
pub const LOCK_HISTORY_THRESHOLD_BITS: u32 = 0x3c23_d70a;

/// Which geometry produces the halo of the brake and throttle history.
#[derive(Debug, Clone, Copy, PartialEq, Eq, Structural)]
pub enum HistoryGlowMode {
    /// Additive ribbons for each segment.
    Legacy,
    /// One continuous mesh for each trace.
    Continuous,
}

impl Default for HistoryGlowMode {
    fn default() -> (r: Self)
        ensures
            r == HistoryGlowMode::Continuous,
    {
        HistoryGlowMode::Continuous
    }
}

/// Which visual layers of the history are shown.
#[derive(Debug, Clone, Copy, PartialEq, Eq, Structural)]
pub enum HistoryTraceLayers {
    /// The complete composition.
    Full,
    /// The painted body and core only.
    CoreOnly,
    /// The halo of brake and throttle only.
    HaloOnly,
    /// The complete composition without the heads of the traces.
    NoEndpoint,
    /// The complete composition without the lock projection.
    NoProjection,
}

impl Default for HistoryTraceLayers {
    fn default() -> (r: Self)
        ensures
            r == HistoryTraceLayers::Full,
    {
        HistoryTraceLayers::Full
    }
}

/// What a choice of layers switches on.
#[derive(Debug, Clone, Copy, PartialEq, Eq, Structural)]
pub struct HistoryTraceLayerPolicy {
    pub painter_core: bool,
    pub painter_emission: bool,
    pub history_halo: bool,
    pub endpoint: bool,
    pub lock_projection: bool,
}

impl HistoryTraceLayers {
    /// What the choice switches on: everything, except what it names.
    pub open spec fn switched_on(self) -> HistoryTraceLayerPolicy {
        HistoryTraceLayerPolicy {
            painter_core: self != HistoryTraceLayers::HaloOnly,
            painter_emission: self != HistoryTraceLayers::CoreOnly && self != HistoryTraceLayers::HaloOnly,
            history_halo: self != HistoryTraceLayers::CoreOnly,
            endpoint: self == HistoryTraceLayers::Full || self == HistoryTraceLayers::NoProjection,
            lock_projection: self == HistoryTraceLayers::Full || self == HistoryTraceLayers::NoEndpoint,
        }
    }

    /// What the choice switches on.
    pub fn policy(self) -> (r: HistoryTraceLayerPolicy)
        ensures
            r == self.switched_on(),
    {
        match self {
            HistoryTraceLayers::Full => HistoryTraceLayerPolicy {
                painter_core: true,
                painter_emission: true,
                history_halo: true,
                endpoint: true,
                lock_projection: true,
            },
            HistoryTraceLayers::CoreOnly => HistoryTraceLayerPolicy {
                painter_core: true,
                painter_emission: false,
                history_halo: false,
                endpoint: false,
                lock_projection: false,
            },
            HistoryTraceLayers::HaloOnly => HistoryTraceLayerPolicy {
                painter_core: false,
                painter_emission: false,
                history_halo: true,
                endpoint: false,
                lock_projection: false,
            },
            HistoryTraceLayers::NoEndpoint => HistoryTraceLayerPolicy {
                painter_core: true,
                painter_emission: true,
                history_halo: true,
                endpoint: false,
                lock_projection: true,
            },
            HistoryTraceLayers::NoProjection => HistoryTraceLayerPolicy {
                painter_core: true,
                painter_emission: true,
                history_halo: true,
                endpoint: true,
                lock_projection: false,
            },
        }
    }

    /// Whether the halo consists of ribbons.
    pub fn uses_legacy_halo(self, glow_mode: HistoryGlowMode) -> (r: bool)
        ensures
            r == (self.switched_on().history_halo && glow_mode == HistoryGlowMode::Legacy),
    {
        self.policy().history_halo && glow_mode == HistoryGlowMode::Legacy
    }

    /// Whether the halo is a continuous mesh.
    pub fn uses_continuous_halo(self, glow_mode: HistoryGlowMode) -> (r: bool)
        ensures
            r == (self.switched_on().history_halo && glow_mode == HistoryGlowMode::Continuous),
    {
        self.policy().history_halo && glow_mode == HistoryGlowMode::Continuous
    }
}

/// How recent a point is: one now, and zero at the age of the window. A window
/// has at least some length.
pub open spec fn recency_of(age: Binary32, window_seconds: Binary32) -> Binary32 {
    num(ONE_BITS).difference(age.quotient(window_seconds.larger(num(SHORTEST_WINDOW_BITS)))).unit()
}

/// How recent a point is.
pub fn recency(age: Binary32, window_seconds: Binary32) -> (r: Binary32)
    ensures
        r == recency_of(age, window_seconds),
{
    number(ONE_BITS).minus(age.over(window_seconds.max(number(SHORTEST_WINDOW_BITS)))).clamp_unit()
}

/// The band that a recency falls into.
pub open spec fn band_of(recency: Binary32) -> int {
    let band = recency.product(num(BAND_COUNT_BITS)).whole_part();
    if band < HISTORY_BANDS {
        band
    } else {
        HISTORY_BANDS - 1
    }
}

/// Every recency falls into one of the bands.
pub proof fn lemma_band_exists(recency: Binary32)
    ensures
        0 <= band_of(recency) < HISTORY_BANDS,
{
    lemma_whole_part_is_natural(recency.product(num(BAND_COUNT_BITS)));
}

/// The band that a recency falls into.
pub fn history_band(recency: Binary32) -> (r: usize)
    ensures
        r == band_of(recency),
        r < HISTORY_BANDS,
{
    let band: u64 = recency.times(number(BAND_COUNT_BITS)).truncate_to_u64();
    if band < 8 {
        band as usize
    } else {
        HISTORY_BANDS - 1
    }
}

/// The response curve at the upper edge of a band: the edge raised to the
/// power 1.6. Bands beyond the newest one count as the newest.
pub open spec fn band_response(band: int) -> Binary32 {
    if band == 0 {
        num(0x3d13_088c)
    } else if band == 1 {
        num(0x3dde_dc66)
    } else if band == 2 {
        num(0x3e55_2e86)
    } else if band == 3 {
        num(0x3ea8_e5a2)
    } else if band == 4 {
        num(0x3ef1_5df7)
    } else if band == 5 {
        num(0x3f21_8fc1)
    } else if band == 6 {
        num(0x3f4e_c0e5)
    } else {
        num(ONE_BITS)
    }
}

fn response_of(band: usize) -> (r: Binary32)
    ensures
        r == band_response(band as int),
{
    match band {
        0 => number(0x3d13_088c),
        1 => number(0x3dde_dc66),
        2 => number(0x3e55_2e86),
        3 => number(0x3ea8_e5a2),
        4 => number(0x3ef1_5df7),
        5 => number(0x3f21_8fc1),
        6 => number(0x3f4e_c0e5),
        _ => number(ONE_BITS),
    }
}

/// The energy of a band.
pub open spec fn energy_of_band(band: int, opacity: Binary32) -> Binary32 {
    num(ENERGY_FLOOR_BITS).sum(num(ENERGY_RANGE_BITS).product(band_response(band))).product(opacity)
}

/// The energy of a band.
pub fn band_energy(band: usize, opacity: Binary32) -> (r: Binary32)
    ensures
        r == energy_of_band(band as int, opacity),
{
    number(ENERGY_FLOOR_BITS).plus(number(ENERGY_RANGE_BITS).times(response_of(band))).times(opacity)
}

/// The energy at a recency: the energies of the bands, joined by straight
/// lines, so that it equals the energy of a band where the band starts and
/// never jumps.
pub open spec fn energy_at(recency: Binary32, opacity: Binary32) -> Binary32 {
    let scaled = recency.unit().product(num(BAND_COUNT_BITS)).smaller(num(BAND_COUNT_BITS));
    let band = scaled.whole_part();
    let t = scaled.difference(whole(band as nat)).unit();
    let current = energy_of_band(band, opacity);
    let next = energy_of_band((band + 1) as int, opacity);
    current.sum(next.difference(current).product(t))
}

/// The energy at a recency.
pub fn history_energy(recency: Binary32, opacity: Binary32) -> (r: Binary32)
    ensures
        r == energy_at(recency, opacity),
{
    let count = number(BAND_COUNT_BITS);
    let scaled = recency.clamp_unit().times(count).min(count);
    let band: u64 = scaled.truncate_to_u64();
    let t = scaled.minus(Binary32::from_u64(band)).clamp_unit();
    let index: usize = if band < 8 {
        band as usize
    } else {
        8
    };
    let current = band_energy(index, opacity);
    let next = band_energy(index + 1, opacity);
    current.plus(next.minus(current).times(t))
}

/// Where the three traces stand at one moment.
#[derive(Debug, Clone, Copy, PartialEq, Eq, Structural)]
pub struct TracePositions {
    pub brake: Pos2,
    pub throttle: Pos2,
    pub speed: Pos2,
}

/// The traces at one moment, with the lock history.
#[derive(Debug, Clone, Copy, PartialEq, Eq, Structural)]
pub struct BandSample {
    pub positions: TracePositions,
    pub lock: Binary32,
}

/// Bands after one more sample. At a change of band the previous band is
/// extended by this sample, and an empty new band starts at the previous one,
/// so that no band boundary cuts a segment.
pub open spec fn bridged(
    bands: Seq<Seq<BandSample>>,
    previous: Option<(usize, BandSample)>,
    band: usize,
    sample: BandSample,
) -> Seq<Seq<BandSample>> {
    let extended = match previous {
        Some((earlier, before)) => if earlier != band {
            let forward = bands.update(earlier as int, bands[earlier as int].push(sample));
            if forward[band as int].len() == 0 {
                forward.update(band as int, forward[band as int].push(before))
            } else {
                forward
            }
        } else {
            bands
        },
        None => bands,
    };
    extended.update(band as int, extended[band as int].push(sample))
}

/// No samples in any band.
pub open spec fn empty_bands() -> Seq<Seq<BandSample>> {
    Seq::new(HISTORY_BANDS as nat, |band: int| Seq::<BandSample>::empty())
}

/// The last sample with its band.
pub open spec fn last_of(samples: Seq<(usize, BandSample)>) -> Option<(usize, BandSample)> {
    if samples.len() == 0 {
        None
    } else {
        Some(samples.last())
    }
}

/// The bands after a sequence of samples, each with its band.
pub open spec fn banded(samples: Seq<(usize, BandSample)>) -> Seq<Seq<BandSample>>
    decreases samples.len(),
{
    if samples.len() == 0 {
        empty_bands()
    } else {
        bridged(
            banded(samples.drop_last()),
            last_of(samples.drop_last()),
            samples.last().0,
            samples.last().1,
        )
    }
}

/// Samples collected by band.
#[derive(Debug, Clone, PartialEq, Eq)]
pub struct HistoryBands {
    bands: Vec<Vec<BandSample>>,
    previous: Option<(usize, BandSample)>,
}

impl HistoryBands {
    /// The samples of each band.
    pub closed spec fn contents(self) -> Seq<Seq<BandSample>> {
        self.bands@.map_values(|band: Vec<BandSample>| band@)
    }

    /// The last sample with its band.
    pub closed spec fn previous(self) -> Option<(usize, BandSample)> {
        self.previous
    }

    /// Whether all bands exist.
    pub open spec fn well_formed(self) -> bool {
        &&& self.contents().len() == HISTORY_BANDS
        &&& self.previous() matches Some((band, _)) ==> band < HISTORY_BANDS
    }

    /// Empty bands.
    pub fn new() -> (r: Self)
        ensures
            r.well_formed(),
            r.contents() == empty_bands(),
            r.previous() is None,
    {
        let mut bands: Vec<Vec<BandSample>> = Vec::new();
        let mut i: usize = 0;
        while i < HISTORY_BANDS
            invariant
                i <= HISTORY_BANDS,
                bands@.len() == i,
                forall|j: int| 0 <= j < i ==> (#[trigger] bands@[j])@ == Seq::<BandSample>::empty(),
            decreases HISTORY_BANDS - i,
        {
            bands.push(Vec::new());
            i = i + 1;
        }
        let r = HistoryBands { bands, previous: None };
        proof {
            assert(r.contents() =~= empty_bands());
        }
        r
    }

    /// Adds a sample to a band without bridging.
    pub fn append(&mut self, band: usize, sample: BandSample)
        requires
            old(self).well_formed(),
            band < HISTORY_BANDS,
        ensures
            final(self).well_formed(),
            final(self).previous() == old(self).previous(),
            final(self).contents() == old(self).contents().update(
                band as int,
                old(self).contents()[band as int].push(sample),
            ),
    {
        self.bands[band].push(sample);
        proof {
            assert(self.contents() =~= old(self).contents().update(
                band as int,
                old(self).contents()[band as int].push(sample),
            ));
        }
    }

    /// Adds the next sample of the history.
    pub fn push(&mut self, band: usize, sample: BandSample)
        requires
            old(self).well_formed(),
            band < HISTORY_BANDS,
        ensures
            final(self).well_formed(),
            final(self).contents() == bridged(old(self).contents(), old(self).previous(), band, sample),
            final(self).previous() == Some((band, sample)),
    {
        if let Some((earlier, before)) = self.previous {
            if earlier != band {
                self.append(earlier, sample);
                if self.bands[band].len() == 0 {
                    self.append(band, before);
                }
            }
        }
        self.append(band, sample);
        self.previous = Some((band, sample));
    }

    /// The last sample with its band.
    pub fn last_sample(&self) -> (r: Option<(usize, BandSample)>)
        ensures
            r == self.previous(),
    {
        self.previous
    }

    /// The samples of a band.
    pub fn band(&self, band: usize) -> (r: &Vec<BandSample>)
        requires
            self.well_formed(),
            band < HISTORY_BANDS,
        ensures
            r@ == self.contents()[band as int],
    {
        &self.bands[band]
    }
}

/// The samples that connect the history to the head of the trace: the band of
/// the last sample is extended to the head, and the newest band, if it is
/// another one, gets that last segment as well. The head never occurs twice in
/// the newest band.
pub open spec fn head_bridge(
    previous: Option<(usize, BandSample)>,
    head: BandSample,
    band_count: usize,
) -> Seq<(usize, BandSample)> {
    let newest: usize = if band_count == 0 {
        0
    } else {
        (band_count - 1) as usize
    };
    match previous {
        Some((band, before)) => if band == newest {
            seq![(newest, head)]
        } else {
            seq![
                (if band < newest {
                    band
                } else {
                    newest
                }, head),
                (newest, before),
                (newest, head),
            ]
        },
        None => seq![(newest, head)],
    }
}

/// The samples that connect the history to the head of the trace.
pub fn head_bridge_samples(
    previous: Option<(usize, BandSample)>,
    head: BandSample,
    band_count: usize,
) -> (r: Vec<(usize, BandSample)>)
    ensures
        r@ == head_bridge(previous, head, band_count),
{
    let newest: usize = if band_count == 0 {
        0
    } else {
        band_count - 1
    };
    let mut samples: Vec<(usize, BandSample)> = Vec::new();
    if let Some((band, before)) = previous {
        let nearest: usize = if band < newest {
            band
        } else {
            newest
        };
        samples.push((nearest, head));
        if band != newest {
            samples.push((newest, before));
            samples.push((newest, head));
        }
    } else {
        samples.push((newest, head));
    }
    proof {
        assert(samples@ =~= head_bridge(previous, head, band_count));
    }
    samples
}

/// The lock value of a point; a missing one is zero.
pub open spec fn lock_value(locks: Seq<Binary32>, index: int) -> Binary32 {
    if index < locks.len() {
        locks[index]
    } else {
        num(ZERO_BITS)
    }
}

/// Whether a point counts as locked: its lock value exceeds the threshold.
pub open spec fn counts_as_lock(locks: Seq<Binary32>, index: int, threshold: Binary32) -> bool {
    threshold.below(lock_value(locks, index))
}

/// The finished runs and the current one after the first `count` points: a
/// wanted point extends the current run, any other one ends it.
pub open spec fn run_state(
    points: Seq<Pos2>,
    locks: Seq<Binary32>,
    threshold: Binary32,
    want_locked: bool,
    count: int,
) -> (Seq<Seq<Pos2>>, Seq<Pos2>)
    decreases count,
{
    if count <= 0 {
        (Seq::empty(), Seq::empty())
    } else {
        let (runs, current) = run_state(points, locks, threshold, want_locked, count - 1);
        if counts_as_lock(locks, count - 1, threshold) == want_locked {
            (runs, current.push(points[count - 1]))
        } else if current.len() > 0 {
            (runs.push(current), Seq::empty())
        } else {
            (runs, current)
        }
    }
}

/// The contiguous runs of points that are locked, or that are not. A missing
/// lock value counts as zero.
pub open spec fn runs_of(
    points: Seq<Pos2>,
    locks: Seq<Binary32>,
    threshold: Binary32,
    want_locked: bool,
) -> Seq<Seq<Pos2>> {
    let (runs, current) = run_state(points, locks, threshold, want_locked, points.len() as int);
    if current.len() > 0 {
        runs.push(current)
    } else {
        runs
    }
}

/// The contents of a list of lists.
pub open spec fn nested(lists: Seq<Vec<Pos2>>) -> Seq<Seq<Pos2>> {
    lists.map_values(|list: Vec<Pos2>| list@)
}

/// The contiguous runs of points that are locked, or that are not. Runs keep
/// every point as it is; a lock of a single sample is a run of one point.
pub fn collect_runs(points: &[Pos2], locks: &[Binary32], threshold: Binary32, want_locked: bool) -> (r: Vec<Vec<Pos2>>)
    ensures
        nested(r@) == runs_of(points@, locks@, threshold, want_locked),
{
    let mut runs: Vec<Vec<Pos2>> = Vec::new();
    let mut current: Vec<Pos2> = Vec::new();
    let mut index: usize = 0;
    proof {
        assert(nested(runs@) =~= Seq::<Seq<Pos2>>::empty());
    }
    while index < points.len()
        invariant
            index <= points@.len(),
            (nested(runs@), current@) == run_state(points@, locks@, threshold, want_locked, index as int),
        decreases points@.len() - index,
    {
        let lock = if index < locks.len() {
            locks[index]
        } else {
            number(ZERO_BITS)
        };
        let locked: bool = threshold.lt(lock);
        if locked == want_locked {
            current.push(points[index]);
        } else if current.len() > 0 {
            let ghost before = runs@;
            let ghost run = current;
            runs.push(current);
            current = Vec::new();
            proof {
                assert(nested(runs@) =~= nested(before).push(run@));
            }
        }
        index = index + 1;
    }
    if current.len() > 0 {
        let ghost before = runs@;
        let ghost run = current;
        runs.push(current);
        proof {
            assert(nested(runs@) =~= nested(before).push(run@));
        }
    }
    runs
}

/// Whether two samples follow each other within a list.
pub open spec fn adjacent(list: Seq<BandSample>, a: BandSample, b: BandSample) -> bool {
    exists|j: int| 0 <= j < list.len() - 1 && #[trigger] list[j] == a && list[j + 1] == b
}

/// Whether samples name existing bands only.
pub open spec fn bands_exist(samples: Seq<(usize, BandSample)>) -> bool {
    forall|i: int| 0 <= i < samples.len() ==> (#[trigger] samples[i]).0 < HISTORY_BANDS
}

proof fn lemma_bridged_extends(
    bands: Seq<Seq<BandSample>>,
    previous: Option<(usize, BandSample)>,
    band: usize,
    sample: BandSample,
    k: int,
)
    requires
        bands.len() == HISTORY_BANDS,
        band < HISTORY_BANDS,
        previous matches Some((earlier, _)) ==> earlier < HISTORY_BANDS,
        0 <= k < HISTORY_BANDS,
    ensures
        bridged(bands, previous, band, sample).len() == HISTORY_BANDS,
        bridged(bands, previous, band, sample)[k].len() >= bands[k].len(),
        forall|j: int| 0 <= j < bands[k].len() ==> #[trigger] bridged(bands, previous, band, sample)[k][j] == bands[k][j],
{
}

proof fn lemma_last_sample_ends_its_band(samples: Seq<(usize, BandSample)>)
    requires
        bands_exist(samples),
    ensures
        banded(samples).len() == HISTORY_BANDS,
        samples.len() > 0 ==> banded(samples)[samples.last().0 as int].len() > 0
            && banded(samples)[samples.last().0 as int].last() == samples.last().1,
    decreases samples.len(),
{
    if samples.len() > 0 {
        let rest = samples.drop_last();
        assert(bands_exist(rest));
        lemma_last_sample_ends_its_band(rest);
        assert(samples.last().0 < HISTORY_BANDS) by {
            assert(samples[samples.len() - 1].0 < HISTORY_BANDS);
        }
    }
}

/// No band boundary cuts a segment: two samples that follow each other in the
/// history follow each other in the band of the first.
pub proof fn law_bands_keep_every_segment(samples: Seq<(usize, BandSample)>, i: int)
    requires
        bands_exist(samples),
        0 <= i < samples.len() - 1,
    ensures
        adjacent(banded(samples)[samples[i].0 as int], samples[i].1, samples[i + 1].1),
    decreases samples.len(),
{
    let rest = samples.drop_last();
    assert(bands_exist(rest));
    lemma_last_sample_ends_its_band(rest);
    let before = banded(rest);
    let after = banded(samples);
    let k = samples[i].0 as int;
    assert(samples[i].0 < HISTORY_BANDS);
    assert(samples[samples.len() - 1].0 < HISTORY_BANDS);
    if i < samples.len() - 2 {
        law_bands_keep_every_segment(rest, i);
        assert(rest[i] == samples[i] && rest[i + 1] == samples[i + 1]);
        assert(rest[rest.len() - 1].0 < HISTORY_BANDS);
        lemma_bridged_extends(before, last_of(rest), samples.last().0, samples.last().1, k);
        let j = choose|j: int|
            0 <= j < before[k].len() - 1 && #[trigger] before[k][j] == samples[i].1 && before[k][j + 1] == samples[i
                + 1].1;
        assert(after[k][j] == samples[i].1 && after[k][j + 1] == samples[i + 1].1);
    } else {
        assert(rest.last() == samples[i]);
        let j = before[k].len() - 1;
        assert(rest[rest.len() - 1].0 < HISTORY_BANDS);
        lemma_bridged_extends(before, last_of(rest), samples.last().0, samples.last().1, k);
        assert(after[k][j] == samples[i].1);
        assert(after[k][j + 1] == samples[i + 1].1);
    }
}

/// The points of all runs, one after the other.
pub open spec fn flattened(runs: Seq<Seq<Pos2>>) -> Seq<Pos2>
    decreases runs.len(),
{
    if runs.len() == 0 {
        Seq::empty()
    } else {
        flattened(runs.drop_last()) + runs.last()
    }
}

/// The wanted points among the first `count`.
pub open spec fn wanted_points(
    points: Seq<Pos2>,
    locks: Seq<Binary32>,
    threshold: Binary32,
    want_locked: bool,
    count: int,
) -> Seq<Pos2>
    decreases count,
{
    if count <= 0 {
        Seq::empty()
    } else {
        let earlier = wanted_points(points, locks, threshold, want_locked, count - 1);
        if counts_as_lock(locks, count - 1, threshold) == want_locked {
            earlier.push(points[count - 1])
        } else {
            earlier
        }
    }
}

proof fn lemma_runs_hold_wanted_points(
    points: Seq<Pos2>,
    locks: Seq<Binary32>,
    threshold: Binary32,
    want_locked: bool,
    count: int,
)
    ensures
        ({
            let (runs, current) = run_state(points, locks, threshold, want_locked, count);
            &&& flattened(runs) + current == wanted_points(points, locks, threshold, want_locked, count)
            &&& forall|i: int| 0 <= i < runs.len() ==> (#[trigger] runs[i]).len() > 0
        }),
    decreases count,
{
    if count <= 0 {
        assert(flattened(Seq::empty()) + Seq::empty() =~= Seq::<Pos2>::empty());
    } else {
        lemma_runs_hold_wanted_points(points, locks, threshold, want_locked, count - 1);
        let (runs, current) = run_state(points, locks, threshold, want_locked, count - 1);
        let earlier = wanted_points(points, locks, threshold, want_locked, count - 1);
        if counts_as_lock(locks, count - 1, threshold) == want_locked {
            assert(flattened(runs) + current.push(points[count - 1]) =~= earlier.push(points[count - 1]));
        } else if current.len() > 0 {
            assert(runs.push(current).drop_last() =~= runs);
            assert(flattened(runs.push(current)) + Seq::empty() =~= flattened(runs) + current);
        }
    }
}

/// The runs hold exactly the wanted points, in their order and without
/// widening, and no run is empty.
pub proof fn law_runs_hold_exactly_the_wanted_points(
    points: Seq<Pos2>,
    locks: Seq<Binary32>,
    threshold: Binary32,
    want_locked: bool,
)
    ensures
        flattened(runs_of(points, locks, threshold, want_locked)) == wanted_points(
            points,
            locks,
            threshold,
            want_locked,
            points.len() as int,
        ),
        forall|i: int|
            0 <= i < runs_of(points, locks, threshold, want_locked).len() ==> (#[trigger] runs_of(
                points,
                locks,
                threshold,
                want_locked,
            )[i]).len() > 0,
{
    let (runs, current) = run_state(points, locks, threshold, want_locked, points.len() as int);
    lemma_runs_hold_wanted_points(points, locks, threshold, want_locked, points.len() as int);
    if current.len() > 0 {
        assert(runs.push(current).drop_last() =~= runs);
    } else {
        assert(flattened(runs) + current =~= flattened(runs));
    }
}

/// Every point is either in a locked run or in one that is not, never in both
/// and never lost.
pub proof fn law_every_point_is_in_one_kind_of_run(
    points: Seq<Pos2>,
    locks: Seq<Binary32>,
    threshold: Binary32,
    count: int,
)
    requires
        0 <= count,
    ensures
        wanted_points(points, locks, threshold, true, count).len() + wanted_points(
            points,
            locks,
            threshold,
            false,
            count,
        ).len() == count,
    decreases count,
{
    if count > 0 {
        law_every_point_is_in_one_kind_of_run(points, locks, threshold, count - 1);
    }
}

/// Where a band starts the energy is exactly that of the band, so it does not
/// jump from one band to the next.
pub proof fn law_energy_meets_the_bands(recency: Binary32, band: nat, opacity: Binary32)
    requires
        band <= HISTORY_BANDS,
        recency.unit().product(num(BAND_COUNT_BITS)).smaller(num(BAND_COUNT_BITS)) == whole(band),
        energy_of_band(band as int, opacity).finite(),
        energy_of_band(band as int, opacity).magnitude() != 0,
        energy_of_band((band + 1) as int, opacity).difference(energy_of_band(band as int, opacity)).finite(),
    ensures
        energy_at(recency, opacity) == energy_of_band(band as int, opacity),
{
    let scaled = whole(band);
    lemma_whole_is_exact(band);
    vstd::arithmetic::power2::lemma_pow2_pos(149);
    vstd::arithmetic::div_mod::lemma_div_multiples_vanish(band as int, unit_value());
    assert(unit_value() * band == band * unit_value()) by (nonlinear_arith);
    assert(scaled.whole_part() == band);
    lemma_difference_with_itself(scaled);
    let t = scaled.difference(scaled).unit();
    let current = energy_of_band(band as int, opacity);
    let next = energy_of_band((band + 1) as int, opacity);
    lemma_product_with_zero(t, next.difference(current));
    lemma_sum_with_zero(current, next.difference(current).product(t));
}

} // verus!
