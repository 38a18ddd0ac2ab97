//! Counters over received datagrams, and what of them is worth logging.
use crate::f1::f1_2025;
use crate::f1::f1_2026;
use crate::f1::layout::{PACKET_CAR_STATUS, PACKET_CAR_TELEMETRY, PACKET_LAP_DATA, PACKET_SESSION};
use crate::f1::protocol::{
    little_endian, reject_reason, DecodeRejection, RejectReason, Rejected, HEADER_LEN, REJECT_REASON_COUNT,
};
use crate::model::TelemetryData;
use crate::time::{elapsed_between, Clock, Duration, Instant};
use vstd::prelude::*;

verus! {

/// Distinct headers remembered, and logged, at most.
pub const DISTINCT_HEADER_LOG_LIMIT: usize = 12;

/// Rejections logged for each reason at most.
pub const REJECTION_LOG_LIMIT_PER_REASON: u64 = 3;

/// Normalized frames logged at most.
pub const FRAME_LOG_LIMIT: u64 = 3;

/// Seconds between two periodic summaries at least.
pub const SUMMARY_INTERVAL_SECS: u64 = 5;

/// The header fields of a datagram, read without interpreting its layout.
#[derive(Debug, Clone, Copy, PartialEq, Eq, Hash, Structural)]
pub struct HeaderPreview {
    pub packet_format: u16,
    pub game_year: u8,
    pub game_major_version: u8,
    pub game_minor_version: u8,
    pub packet_version: u8,
    pub packet_id: u8,
    pub player_car_index: u8,
    pub packet_len: usize,
}

/// The preview of a datagram that holds a whole header.
pub open spec fn preview_of(bytes: Seq<u8>) -> HeaderPreview {
    HeaderPreview {
        packet_format: little_endian(bytes, 0, 2) as u16,
        game_year: bytes[2],
        game_major_version: bytes[3],
        game_minor_version: bytes[4],
        packet_version: bytes[5],
        packet_id: bytes[6],
        player_car_index: bytes[27],
        packet_len: bytes.len() as usize,
    }
}

impl HeaderPreview {
    /// Reads the header of a datagram that is long enough to hold one.
    pub fn read(bytes: &[u8]) -> (r: Option<Self>)
        ensures
            r == (if bytes@.len() < HEADER_LEN {
                None
            } else {
                Some(preview_of(bytes@))
            }),
    {
        if bytes.len() < HEADER_LEN {
            return None;
        }
        proof {
            reveal_with_fuel(little_endian, 3);
        }
        Some(
            HeaderPreview {
                packet_format: (bytes[0] as u16) + 256 * (bytes[1] as u16),
                game_year: bytes[2],
                game_major_version: bytes[3],
                game_minor_version: bytes[4],
                packet_version: bytes[5],
                packet_id: bytes[6],
                player_car_index: bytes[27],
                packet_len: bytes.len(),
            },
        )
    }
}

/// Counters of a [`Diagnostics`].
#[derive(Debug, Clone, Copy, PartialEq, Eq, Structural)]
pub struct DiagnosticCounts {
    pub datagrams_received: u64,
    pub headers_recognized: u64,
    pub format_2025_detected: u64,
    pub format_2026_detected: u64,
    pub other_formats: u64,
    pub packets_validated: u64,
    pub player_indices_validated: u64,
    pub telemetry_decoded: u64,
    pub status_decoded: u64,
    pub normalized_frames: u64,
    pub stale_telemetry_frames: u64,
    pub ignored_packet_ids: u64,
}

/// All counters at zero.
pub open spec fn no_counts() -> DiagnosticCounts {
    DiagnosticCounts {
        datagrams_received: 0,
        headers_recognized: 0,
        format_2025_detected: 0,
        format_2026_detected: 0,
        other_formats: 0,
        packets_validated: 0,
        player_indices_validated: 0,
        telemetry_decoded: 0,
        status_decoded: 0,
        normalized_frames: 0,
        stale_telemetry_frames: 0,
        ignored_packet_ids: 0,
    }
}

/// Whether a packet of this kind is decoded.
pub open spec fn decoded_kind(packet_id: u8) -> bool {
    packet_id == PACKET_SESSION || packet_id == PACKET_LAP_DATA || packet_id == PACKET_CAR_TELEMETRY || packet_id
        == PACKET_CAR_STATUS
}

impl DiagnosticCounts {
    /// The counters after a datagram whose header, if it has one, is `header`.
    pub open spec fn with_datagram(self, header: Option<HeaderPreview>) -> Self {
        let received = DiagnosticCounts { datagrams_received: (self.datagrams_received + 1) as u64, ..self };
        match header {
            None => received,
            Some(header) => {
                let recognized = DiagnosticCounts {
                    headers_recognized: (received.headers_recognized + 1) as u64,
                    ..received
                };
                if header.packet_format == f1_2025::PACKET_FORMAT {
                    DiagnosticCounts {
                        format_2025_detected: (recognized.format_2025_detected + 1) as u64,
                        ..recognized
                    }
                } else if header.packet_format == f1_2026::PACKET_FORMAT {
                    DiagnosticCounts {
                        format_2026_detected: (recognized.format_2026_detected + 1) as u64,
                        ..recognized
                    }
                } else {
                    DiagnosticCounts { other_formats: (recognized.other_formats + 1) as u64, ..recognized }
                }
            },
        }
    }

    /// The counters after an accepted packet of the given kind, with or
    /// without a frame.
    pub open spec fn with_packet(self, packet_id: u8, frame: bool) -> Self {
        let counted = if decoded_kind(packet_id) {
            DiagnosticCounts {
                packets_validated: (self.packets_validated + 1) as u64,
                player_indices_validated: (self.player_indices_validated + 1) as u64,
                ..self
            }
        } else {
            DiagnosticCounts { ignored_packet_ids: (self.ignored_packet_ids + 1) as u64, ..self }
        };
        if packet_id == PACKET_CAR_TELEMETRY {
            DiagnosticCounts {
                telemetry_decoded: (counted.telemetry_decoded + 1) as u64,
                stale_telemetry_frames: if frame {
                    counted.stale_telemetry_frames
                } else {
                    (counted.stale_telemetry_frames + 1) as u64
                },
                ..counted
            }
        } else if packet_id == PACKET_CAR_STATUS {
            DiagnosticCounts { status_decoded: (counted.status_decoded + 1) as u64, ..counted }
        } else {
            counted
        }
    }

    /// The counters after a datagram was accepted, with or without a frame.
    pub open spec fn with_accepted(self, header: Option<HeaderPreview>, frame: bool) -> Self {
        let counted = match header {
            None => self,
            Some(header) => self.with_packet(header.packet_id, frame),
        };
        if frame {
            DiagnosticCounts { normalized_frames: (counted.normalized_frames + 1) as u64, ..counted }
        } else {
            counted
        }
    }
}

/// The sum of all counts.
pub open spec fn total(counts: Seq<u64>) -> int
    decreases counts.len(),
{
    if counts.len() == 0 {
        0
    } else {
        total(counts.drop_last()) + counts.last()
    }
}

/// The positions whose count is not zero, each with its count, in order.
pub open spec fn nonzero(counts: Seq<u64>) -> Seq<(usize, u64)>
    decreases counts.len(),
{
    if counts.len() == 0 {
        Seq::empty()
    } else if counts.last() > 0 {
        nonzero(counts.drop_last()).push(((counts.len() - 1) as usize, counts.last()))
    } else {
        nonzero(counts.drop_last())
    }
}

/// The content of a [`Diagnostics`].
pub struct DiagnosticsView {
    pub counts: DiagnosticCounts,
    /// Datagrams by packet identifier.
    pub packet_ids: Seq<u64>,
    /// Rejections by the position of their reason.
    pub rejected: Seq<u64>,
    /// The first distinct headers, in the order of their arrival.
    pub distinct_headers: Seq<HeaderPreview>,
    /// When the last summary was made.
    pub last_summary_at: nat,
    /// How many datagrams the last summary covered.
    pub last_summary_received: u64,
}

impl DiagnosticsView {
    /// What every operation keeps.
    pub open spec fn consistent(self) -> bool {
        &&& self.packet_ids.len() == 256
        &&& self.rejected.len() == REJECT_REASON_COUNT
        &&& self.counts.headers_recognized <= self.counts.datagrams_received
        &&& self.counts.headers_recognized == self.counts.format_2025_detected + self.counts.format_2026_detected
            + self.counts.other_formats
        &&& self.counts.headers_recognized == total(self.packet_ids)
        &&& self.counts.player_indices_validated == self.counts.packets_validated
        &&& self.counts.telemetry_decoded + self.counts.status_decoded <= self.counts.packets_validated
        &&& self.counts.stale_telemetry_frames <= self.counts.telemetry_decoded
        &&& self.distinct_headers.no_duplicates()
        &&& self.distinct_headers.len() <= DISTINCT_HEADER_LOG_LIMIT
    }

    /// After a datagram.
    pub open spec fn with_datagram(self, bytes: Seq<u8>) -> Self {
        if bytes.len() < HEADER_LEN {
            DiagnosticsView { counts: self.counts.with_datagram(None), ..self }
        } else {
            let header = preview_of(bytes);
            let id = header.packet_id as int;
            DiagnosticsView {
                counts: self.counts.with_datagram(Some(header)),
                packet_ids: self.packet_ids.update(id, (self.packet_ids[id] + 1) as u64),
                distinct_headers: if self.distinct_headers.len() < DISTINCT_HEADER_LOG_LIMIT
                    && !self.distinct_headers.contains(header) {
                    self.distinct_headers.push(header)
                } else {
                    self.distinct_headers
                },
                ..self
            }
        }
    }

    /// After a rejection.
    pub open spec fn with_rejection(self, reason: RejectReason) -> Self {
        let position = reason.position() as int;
        DiagnosticsView {
            rejected: self.rejected.update(position, (self.rejected[position] + 1) as u64),
            ..self
        }
    }

    /// After the outcome of decoding.
    pub open spec fn with_outcome(
        self,
        header: Option<HeaderPreview>,
        result: Result<Option<TelemetryData>, Rejected>,
    ) -> Self {
        match result {
            Ok(sample) => DiagnosticsView { counts: self.counts.with_accepted(header, sample is Some), ..self },
            Err(rejected) => self.with_rejection(rejected.reason),
        }
    }

    /// Whether a periodic summary is due: long enough after the last one, and
    /// only when datagrams have arrived since.
    pub open spec fn summary_due(self, now: nat) -> bool {
        &&& elapsed_between(self.last_summary_at, now) >= SUMMARY_INTERVAL_SECS * 1_000_000_000
        &&& self.counts.datagrams_received != self.last_summary_received
    }

    /// After a look at the clock at `now`; the next interval starts at `resumed_at`.
    pub open spec fn with_summary(self, now: nat, resumed_at: nat) -> Self {
        if self.summary_due(now) {
            DiagnosticsView {
                last_summary_at: resumed_at,
                last_summary_received: self.counts.datagrams_received,
                ..self
            }
        } else {
            self
        }
    }

    /// Whether one more datagram can be counted.
    pub open spec fn room_for_datagram(self) -> bool {
        self.counts.datagrams_received < u64::MAX
    }

    /// Whether one more outcome can be counted.
    pub open spec fn room_for_result(self) -> bool {
        &&& self.counts.packets_validated < u64::MAX
        &&& self.counts.ignored_packet_ids < u64::MAX
        &&& self.counts.normalized_frames < u64::MAX
        &&& forall|i: int| 0 <= i < self.rejected.len() ==> #[trigger] self.rejected[i] < u64::MAX
    }
}

/// A rejection to log.
#[derive(Debug, Clone, Copy, PartialEq, Eq, Structural)]
pub struct RejectionReport {
    pub reason: RejectReason,
    /// How many datagrams have been rejected for this reason, this one included.
    pub occurrence: u64,
}

/// A summary to log.
#[derive(Debug, Clone, PartialEq, Eq)]
pub struct DiagnosticSummary {
    pub counts: DiagnosticCounts,
    /// Packet identifiers that occurred, with their counts.
    pub packet_ids: Vec<(usize, u64)>,
    /// Reasons that occurred, with their counts.
    pub rejections: Vec<(RejectReason, u64)>,
}

impl DiagnosticSummary {
    /// Whether this is the summary of the given diagnostics.
    pub open spec fn summarizes(&self, diagnostics: DiagnosticsView) -> bool {
        &&& self.counts == diagnostics.counts
        &&& self.packet_ids@ == nonzero(diagnostics.packet_ids)
        &&& self.rejections@.len() == nonzero(diagnostics.rejected).len()
        &&& forall|i: int|
            0 <= i < self.rejections@.len() ==> {
                &&& (#[trigger] self.rejections@[i]).0.position() == nonzero(diagnostics.rejected)[i].0
                &&& self.rejections@[i].1 == nonzero(diagnostics.rejected)[i].1
            }
    }
}

/// What is to be logged after the outcome of a datagram.
#[derive(Debug, Clone, PartialEq, Eq)]
pub struct ResultReport {
    /// Whether the frame is among the first ones.
    pub log_frame: bool,
    /// The rejection, if it is among the first ones for its reason.
    pub rejection: Option<RejectionReport>,
    /// The periodic summary, if it is due.
    pub summary: Option<DiagnosticSummary>,
}

/// The rejection to log, given the count of its reason.
pub open spec fn rejection_report(reason: RejectReason, occurrence: u64) -> Option<RejectionReport> {
    if occurrence <= REJECTION_LOG_LIMIT_PER_REASON {
        Some(RejectionReport { reason, occurrence })
    } else {
        None
    }
}

impl ResultReport {
    /// Whether this is the report on an outcome that led to `counted`, with
    /// the clock at `now`.
    pub open spec fn reports(
        &self,
        result: Result<Option<TelemetryData>, Rejected>,
        counted: DiagnosticsView,
        now: nat,
    ) -> bool {
        &&& self.log_frame == (result is Ok && result->Ok_0 is Some && counted.counts.normalized_frames
            <= FRAME_LOG_LIMIT)
        &&& self.rejection == match result {
            Ok(_) => None::<RejectionReport>,
            Err(rejected) => rejection_report(
                rejected.reason,
                counted.rejected[rejected.reason.position() as int],
            ),
        }
        &&& match self.summary {
            Some(summary) => counted.summary_due(now) && counted.counts.datagrams_received > 0
                && summary.summarizes(counted),
            None => !(counted.summary_due(now) && counted.counts.datagrams_received > 0),
        }
    }
}

/// The content of a decoding result.
pub open spec fn result_view(result: Result<Option<TelemetryData>, DecodeRejection>) -> Result<
    Option<TelemetryData>,
    Rejected,
> {
    match result {
        Ok(sample) => Ok(sample),
        Err(rejection) => Err(rejection@),
    }
}

/// Counters over received datagrams.
pub struct Diagnostics {
    clock: Clock,
    counts: DiagnosticCounts,
    packet_ids: [u64; 256],
    rejected: [u64; 10],
    distinct_headers: Vec<HeaderPreview>,
    last_summary_at: Instant,
    last_summary_received: u64,
}

impl View for Diagnostics {
    type V = DiagnosticsView;

    closed spec fn view(&self) -> DiagnosticsView {
        DiagnosticsView {
            counts: self.counts,
            packet_ids: self.packet_ids@,
            rejected: self.rejected@,
            distinct_headers: self.distinct_headers@,
            last_summary_at: self.last_summary_at@,
            last_summary_received: self.last_summary_received,
        }
    }
}

proof fn lemma_total_update(counts: Seq<u64>, i: int, count: u64)
    requires
        0 <= i < counts.len(),
    ensures
        total(counts.update(i, count)) == total(counts) - counts[i] + count,
        0 <= counts[i] <= total(counts),
    decreases counts.len(),
{
    lemma_total_nonnegative(counts.drop_last());
    if i == counts.len() - 1 {
        assert(counts.update(i, count).drop_last() =~= counts.drop_last());
    } else {
        lemma_total_update(counts.drop_last(), i, count);
        assert(counts.update(i, count).drop_last() =~= counts.drop_last().update(i, count));
    }
}

proof fn lemma_total_nonnegative(counts: Seq<u64>)
    ensures
        total(counts) >= 0,
    decreases counts.len(),
{
    if counts.len() > 0 {
        lemma_total_nonnegative(counts.drop_last());
    }
}

proof fn lemma_total_of_zeros(counts: Seq<u64>)
    requires
        forall|i: int| 0 <= i < counts.len() ==> counts[i] == 0,
    ensures
        total(counts) == 0,
    decreases counts.len(),
{
    if counts.len() > 0 {
        lemma_total_of_zeros(counts.drop_last());
    }
}

impl Diagnostics {
    /// Whether one more datagram can be counted.
    pub fn has_room_for_datagram(&self) -> (r: bool)
        ensures
            r == self@.room_for_datagram(),
    {
        self.counts.datagrams_received < u64::MAX
    }

    /// Whether one more outcome can be counted.
    pub fn has_room_for_result(&self) -> (r: bool)
        ensures
            r == self@.room_for_result(),
    {
        if self.counts.packets_validated == u64::MAX || self.counts.ignored_packet_ids == u64::MAX
            || self.counts.normalized_frames == u64::MAX {
            return false;
        }
        let mut i: usize = 0;
        while i < REJECT_REASON_COUNT
            invariant
                i <= REJECT_REASON_COUNT,
                forall|j: int| 0 <= j < i ==> #[trigger] self@.rejected[j] < u64::MAX,
            decreases REJECT_REASON_COUNT - i,
        {
            if self.rejected[i] == u64::MAX {
                assert(!(self@.rejected[i as int] < u64::MAX));
                return false;
            }
            i = i + 1;
        }
        true
    }

    /// Counts a datagram and returns its header, if it holds one.
    pub fn observe_datagram(&mut self, bytes: &[u8]) -> (r: Option<HeaderPreview>)
        requires
            old(self)@.consistent(),
            old(self)@.room_for_datagram(),
        ensures
            final(self)@ == old(self)@.with_datagram(bytes@),
            final(self)@.consistent(),
            r == (if bytes@.len() < HEADER_LEN {
                None
            } else {
                Some(preview_of(bytes@))
            }),
    {
        self.counts.datagrams_received = self.counts.datagrams_received + 1;
        let header = match HeaderPreview::read(bytes) {
            Some(header) => header,
            None => {
                return None;
            },
        };
        let id: usize = header.packet_id as usize;
        proof {
            lemma_total_update(old(self)@.packet_ids, id as int, (old(self)@.packet_ids[id as int] + 1) as u64);
        }
        self.counts.headers_recognized = self.counts.headers_recognized + 1;
        self.packet_ids[id] = self.packet_ids[id] + 1;
        if header.packet_format == f1_2025::PACKET_FORMAT {
            self.counts.format_2025_detected = self.counts.format_2025_detected + 1;
        } else if header.packet_format == f1_2026::PACKET_FORMAT {
            self.counts.format_2026_detected = self.counts.format_2026_detected + 1;
        } else {
            self.counts.other_formats = self.counts.other_formats + 1;
        }
        if self.distinct_headers.len() < DISTINCT_HEADER_LOG_LIMIT && !self.knows(&header) {
            self.distinct_headers.push(header);
        }
        Some(header)
    }

    /// Whether a header is among the remembered ones.
    fn knows(&self, header: &HeaderPreview) -> (r: bool)
        ensures
            r == self@.distinct_headers.contains(*header),
    {
        let mut i: usize = 0;
        while i < self.distinct_headers.len()
            invariant
                i <= self.distinct_headers@.len(),
                forall|j: int| 0 <= j < i ==> self.distinct_headers@[j] != *header,
            decreases self.distinct_headers@.len() - i,
        {
            if self.distinct_headers[i] == *header {
                return true;
            }
            i = i + 1;
        }
        false
    }

    /// Counts the outcome of decoding a datagram, and says what to log now.
    pub fn observe_result(
        &mut self,
        header: Option<HeaderPreview>,
        result: &Result<Option<TelemetryData>, DecodeRejection>,
    ) -> (r: ResultReport)
        requires
            old(self)@.consistent(),
            old(self)@.room_for_result(),
        ensures
            final(self)@.consistent(),
            exists|now: Instant, resumed_at: Instant|
                {
                    let counted = old(self)@.with_outcome(header, result_view(*result));
                    &&& final(self)@ == counted.with_summary(#[trigger] now@, #[trigger] resumed_at@)
                    &&& r.reports(result_view(*result), counted, now@)
                    &&& old(self)@.last_summary_at <= now@ <= resumed_at@
                },
    {
        let now = self.clock.now_after(self.last_summary_at);
        let resumed_at = self.clock.now_after(now);
        self.observe_result_at(header, result, now, resumed_at)
    }

    /// Counts the outcome of decoding a datagram, and says what to log when
    /// the clock is at `now` and the next interval starts at `resumed_at`.
    pub fn observe_result_at(
        &mut self,
        header: Option<HeaderPreview>,
        result: &Result<Option<TelemetryData>, DecodeRejection>,
        now: Instant,
        resumed_at: Instant,
    ) -> (r: ResultReport)
        requires
            old(self)@.consistent(),
            old(self)@.room_for_result(),
        ensures
            final(self)@ == old(self)@.with_outcome(header, result_view(*result)).with_summary(now@, resumed_at@),
            final(self)@.consistent(),
            r.reports(result_view(*result), old(self)@.with_outcome(header, result_view(*result)), now@),
    {
        let mut log_frame = false;
        let mut rejection: Option<RejectionReport> = None;
        match result {
            Ok(sample) => {
                if let Some(header) = header {
                    self.count_packet(header.packet_id, sample.is_some());
                }
                if sample.is_some() {
                    self.counts.normalized_frames = self.counts.normalized_frames + 1;
                    log_frame = self.counts.normalized_frames <= FRAME_LOG_LIMIT;
                }
            },
            Err(error) => {
                rejection = self.observe_rejection(error);
            },
        }
        assert(self@ =~= old(self)@.with_outcome(header, result_view(*result)));
        let summary = self.maybe_log_summary(now, resumed_at);
        ResultReport { log_frame, rejection, summary }
    }

    /// Counts an accepted packet of the given kind.
    fn count_packet(&mut self, packet_id: u8, frame: bool)
        requires
            old(self)@.consistent(),
            old(self)@.room_for_result(),
        ensures
            final(self)@ == (DiagnosticsView {
                counts: old(self)@.counts.with_packet(packet_id, frame),
                ..old(self)@
            }),
            final(self)@.consistent(),
            final(self)@.counts.normalized_frames == old(self)@.counts.normalized_frames,
    {
        if packet_id == PACKET_SESSION || packet_id == PACKET_LAP_DATA || packet_id == PACKET_CAR_TELEMETRY
            || packet_id == PACKET_CAR_STATUS {
            self.counts.packets_validated = self.counts.packets_validated + 1;
            self.counts.player_indices_validated = self.counts.player_indices_validated + 1;
        } else {
            self.counts.ignored_packet_ids = self.counts.ignored_packet_ids + 1;
        }
        if packet_id == PACKET_CAR_TELEMETRY {
            self.counts.telemetry_decoded = self.counts.telemetry_decoded + 1;
            if !frame {
                self.counts.stale_telemetry_frames = self.counts.stale_telemetry_frames + 1;
            }
        } else if packet_id == PACKET_CAR_STATUS {
            self.counts.status_decoded = self.counts.status_decoded + 1;
        }
    }

    /// Counts a rejection, and reports it if it is among the first ones for
    /// its reason.
    fn observe_rejection(&mut self, error: &DecodeRejection) -> (r: Option<RejectionReport>)
        requires
            old(self)@.consistent(),
            old(self)@.room_for_result(),
        ensures
            final(self)@ == old(self)@.with_rejection(error@.reason),
            final(self)@.consistent(),
            r == rejection_report(
                error@.reason,
                final(self)@.rejected[error@.reason.position() as int],
            ),
    {
        let reason = reject_reason(error);
        let index: usize = reason.index();
        assert(self@.rejected[index as int] < u64::MAX);
        self.rejected[index] = self.rejected[index] + 1;
        let occurrence: u64 = self.rejected[index];
        if occurrence <= REJECTION_LOG_LIMIT_PER_REASON {
            Some(RejectionReport { reason, occurrence })
        } else {
            None
        }
    }

    /// The periodic summary, if it is due.
    fn maybe_log_summary(&mut self, now: Instant, resumed_at: Instant) -> (r: Option<DiagnosticSummary>)
        requires
            old(self)@.consistent(),
        ensures
            final(self)@ == old(self)@.with_summary(now@, resumed_at@),
            final(self)@.consistent(),
            match r {
                Some(summary) => old(self)@.summary_due(now@) && old(self)@.counts.datagrams_received > 0
                    && summary.summarizes(old(self)@),
                None => !(old(self)@.summary_due(now@) && old(self)@.counts.datagrams_received > 0),
            },
    {
        let elapsed = now.saturating_duration_since(self.last_summary_at);
        if Duration::from_secs(SUMMARY_INTERVAL_SECS).at_most(&elapsed) && self.counts.datagrams_received
            != self.last_summary_received {
            let summary = self.log_summary();
            self.last_summary_at = resumed_at;
            self.last_summary_received = self.counts.datagrams_received;
            summary
        } else {
            None
        }
    }

    /// The summary of all counters, unless nothing has been received.
    pub fn log_summary(&self) -> (r: Option<DiagnosticSummary>)
        ensures
            match r {
                Some(summary) => self@.counts.datagrams_received > 0 && summary.summarizes(self@),
                None => self@.counts.datagrams_received == 0,
            },
    {
        if self.counts.datagrams_received == 0 {
            return None;
        }
        let mut packet_ids: Vec<(usize, u64)> = Vec::new();
        let mut id: usize = 0;
        while id < 256
            invariant
                id <= 256,
                packet_ids@ == nonzero(self.packet_ids@.take(id as int)),
            decreases 256 - id,
        {
            if self.packet_ids[id] > 0 {
                packet_ids.push((id, self.packet_ids[id]));
            }
            id = id + 1;
            assert(self.packet_ids@.take(id as int).drop_last() =~= self.packet_ids@.take(id - 1));
        }
        assert(self.packet_ids@.take(256) =~= self.packet_ids@);
        let reasons = RejectReason::all();
        let mut rejections: Vec<(RejectReason, u64)> = Vec::new();
        let mut i: usize = 0;
        while i < REJECT_REASON_COUNT
            invariant
                i <= REJECT_REASON_COUNT,
                forall|j: int| 0 <= j < 10 ==> (#[trigger] reasons@[j]).position() == j,
                rejections@.len() == nonzero(self.rejected@.take(i as int)).len(),
                forall|j: int|
                    0 <= j < rejections@.len() ==> {
                        &&& (#[trigger] rejections@[j]).0.position() == nonzero(self.rejected@.take(i as int))[j].0
                        &&& rejections@[j].1 == nonzero(self.rejected@.take(i as int))[j].1
                    },
            decreases REJECT_REASON_COUNT - i,
        {
            let reason = reasons[i];
            let count: u64 = self.rejected[reason.index()];
            if count > 0 {
                rejections.push((reason, count));
            }
            i = i + 1;
            assert(self.rejected@.take(i as int).drop_last() =~= self.rejected@.take(i - 1));
        }
        assert(self.rejected@.take(10) =~= self.rejected@);
        Some(DiagnosticSummary { counts: self.counts, packet_ids, rejections })
    }

    /// The counters.
    pub fn counts(&self) -> (r: DiagnosticCounts)
        ensures
            r == self@.counts,
    {
        self.counts
    }

    /// The number of datagrams with the given packet identifier.
    pub fn packet_count(&self, packet_id: u8) -> (r: u64)
        ensures
            r == self@.packet_ids[packet_id as int],
    {
        self.packet_ids[packet_id as usize]
    }

    /// The number of rejections for the given reason.
    pub fn rejection_count(&self, reason: RejectReason) -> (r: u64)
        ensures
            r == self@.rejected[reason.position() as int],
    {
        self.rejected[reason.index()]
    }

    /// The number of distinct headers remembered.
    pub fn distinct_header_count(&self) -> (r: usize)
        ensures
            r == self@.distinct_headers.len(),
    {
        self.distinct_headers.len()
    }
}

impl Default for Diagnostics {
    fn default() -> (r: Self)
        ensures
            r@.consistent(),
            r@.counts == no_counts(),
            r@.packet_ids == Seq::new(256, |i: int| 0u64),
            r@.rejected == Seq::new(REJECT_REASON_COUNT as nat, |i: int| 0u64),
            r@.distinct_headers == Seq::<HeaderPreview>::empty(),
            r@.last_summary_received == 0,
    {
        let clock = Clock::start();
        let last_summary_at = clock.now();
        let packet_ids: [u64; 256] = [0; 256];
        proof {
            lemma_total_of_zeros(packet_ids@);
        }
        Diagnostics {
            clock,
            counts: DiagnosticCounts {
                datagrams_received: 0,
                headers_recognized: 0,
                format_2025_detected: 0,
                format_2026_detected: 0,
                other_formats: 0,
                packets_validated: 0,
                player_indices_validated: 0,
                telemetry_decoded: 0,
                status_decoded: 0,
                normalized_frames: 0,
                stale_telemetry_frames: 0,
                ignored_packet_ids: 0,
            },
            packet_ids,
            rejected: [0; 10],
            distinct_headers: Vec::new(),
            last_summary_at,
            last_summary_received: 0,
        }
    }
}

/// The name of a packet kind in logs.
pub open spec fn packet_name(packet_id: u8) -> Seq<char> {
    match packet_id {
        0 => "Motion"@,
        1 => "Session"@,
        2 => "LapData"@,
        3 => "Event"@,
        4 => "Participants"@,
        5 => "CarSetups"@,
        6 => "CarTelemetry"@,
        7 => "CarStatus"@,
        8 => "FinalClassification"@,
        9 => "LobbyInfo"@,
        10 => "CarDamage"@,
        11 => "SessionHistory"@,
        12 => "TyreSets"@,
        13 => "MotionEx"@,
        14 => "TimeTrial"@,
        15 => "LapPositions"@,
        16 => "CarTelemetry2"@,
        _ => "Unknown"@,
    }
}

/// The name of a packet kind in logs.
pub fn packet_type_name(packet_id: u8) -> (r: &'static str)
    ensures
        r@ == packet_name(packet_id),
{
    match packet_id {
        0 => "Motion",
        1 => "Session",
        2 => "LapData",
        3 => "Event",
        4 => "Participants",
        5 => "CarSetups",
        6 => "CarTelemetry",
        7 => "CarStatus",
        8 => "FinalClassification",
        9 => "LobbyInfo",
        10 => "CarDamage",
        11 => "SessionHistory",
        12 => "TyreSets",
        13 => "MotionEx",
        14 => "TimeTrial",
        15 => "LapPositions",
        16 => "CarTelemetry2",
        _ => "Unknown",
    }
}

/// Every datagram with a header counts for exactly one format and one packet
/// identifier, and no other counter of datagrams changes.
pub proof fn law_datagram_is_counted_once(diagnostics: DiagnosticsView, bytes: Seq<u8>)
    requires
        diagnostics.consistent(),
        diagnostics.room_for_datagram(),
    ensures
        ({
            let after = diagnostics.with_datagram(bytes);
            let one: int = if bytes.len() < HEADER_LEN { 0 } else { 1 };
            &&& after.counts.datagrams_received == diagnostics.counts.datagrams_received + 1
            &&& after.counts.headers_recognized == diagnostics.counts.headers_recognized + one
            &&& after.counts.format_2025_detected + after.counts.format_2026_detected + after.counts.other_formats
                == diagnostics.counts.format_2025_detected + diagnostics.counts.format_2026_detected
                + diagnostics.counts.other_formats + one
            &&& total(after.packet_ids) == total(diagnostics.packet_ids) + one
            &&& after.rejected == diagnostics.rejected
        }),
{
    if bytes.len() >= HEADER_LEN {
        let id = preview_of(bytes).packet_id as int;
        lemma_total_update(diagnostics.packet_ids, id, (diagnostics.packet_ids[id] + 1) as u64);
    }
}

/// A rejected datagram counts for its reason alone.
pub proof fn law_rejection_counts_for_its_reason(
    diagnostics: DiagnosticsView,
    header: Option<HeaderPreview>,
    rejected: Rejected,
)
    requires
        diagnostics.consistent(),
        diagnostics.room_for_result(),
    ensures
        ({
            let after = diagnostics.with_outcome(header, Err(rejected));
            &&& after.counts == diagnostics.counts
            &&& after.packet_ids == diagnostics.packet_ids
            &&& forall|reason: RejectReason|
                (#[trigger] after.rejected[reason.position() as int]) == diagnostics.rejected[reason.position() as int]
                    + (if reason == rejected.reason { 1int } else { 0int })
        }),
{
    let after = diagnostics.with_outcome(header, Err(rejected));
    assert forall|reason: RejectReason|
        (#[trigger] after.rejected[reason.position() as int]) == diagnostics.rejected[reason.position() as int] + (
        if reason == rejected.reason { 1int } else { 0int }) by {
        assert(diagnostics.rejected[reason.position() as int] < u64::MAX);
    }
}

/// A summary is taken exactly when the interval has passed and datagrams have
/// arrived since the last one. It is then remembered and the interval starts
/// again; otherwise nothing changes, and no counter changes in either case.
pub proof fn law_summary_is_taken_when_due(diagnostics: DiagnosticsView, now: nat, resumed_at: nat)
    requires
        diagnostics.last_summary_at <= now,
    ensures
        ({
            let after = diagnostics.with_summary(now, resumed_at);
            &&& diagnostics.summary_due(now) <==> now - diagnostics.last_summary_at >= SUMMARY_INTERVAL_SECS
                * 1_000_000_000 && diagnostics.counts.datagrams_received != diagnostics.last_summary_received
            &&& diagnostics.summary_due(now) ==> after.last_summary_received == after.counts.datagrams_received
                && after.last_summary_at == resumed_at
            &&& !diagnostics.summary_due(now) ==> after == diagnostics
            &&& after.counts == diagnostics.counts
            &&& after.packet_ids == diagnostics.packet_ids
            &&& after.rejected == diagnostics.rejected
            &&& after.distinct_headers == diagnostics.distinct_headers
        }),
{
}

/// A periodic summary is followed by another only after the interval, and
/// only when more datagrams have arrived.
pub proof fn law_summaries_keep_their_distance(
    diagnostics: DiagnosticsView,
    now: nat,
    resumed_at: nat,
    bytes: Seq<u8>,
    later: nat,
)
    requires
        diagnostics.summary_due(now),
    ensures
        ({
            let after = diagnostics.with_summary(now, resumed_at);
            &&& !after.summary_due(later)
            &&& after.with_datagram(bytes).summary_due(later) ==> later >= resumed_at + SUMMARY_INTERVAL_SECS
                * 1_000_000_000
        }),
{
}

/// How many of a number of rejections for one reason are logged.
pub open spec fn logged_rejections(reason: RejectReason, rejections: nat) -> nat
    decreases rejections,
{
    if rejections == 0 {
        0
    } else {
        logged_rejections(reason, (rejections - 1) as nat) + (if rejection_report(reason, rejections as u64) is Some {
            1nat
        } else {
            0nat
        })
    }
}

/// However many datagrams are rejected for a reason, only the first few are
/// logged.
pub proof fn law_each_reason_is_logged_a_few_times(reason: RejectReason, rejections: nat)
    requires
        rejections <= u64::MAX,
    ensures
        logged_rejections(reason, rejections) == if rejections <= REJECTION_LOG_LIMIT_PER_REASON {
            rejections
        } else {
            REJECTION_LOG_LIMIT_PER_REASON as nat
        },
    decreases rejections,
{
    if rejections > 0 {
        law_each_reason_is_logged_a_few_times(reason, (rejections - 1) as nat);
    }
}

} // verus!
