//! What the diagnostics count, datagram by datagram.
use crate::f1::diagnostics::{
    decoded_kind, nonzero, packet_name, preview_of, DiagnosticsView, HeaderPreview, ResultReport,
};
use crate::f1::packet_laws::short_at;
use crate::f1::protocol::{little_endian, RejectReason, Rejected};
use crate::model::TelemetryData;
use vstd::prelude::*;

verus! {

/// The preview of a header holds the bytes of the header, each field where the
/// formats have it, and the length of the datagram.
pub proof fn law_preview_shows_the_header(bytes: Seq<u8>)
    requires
        29 <= bytes.len() <= usize::MAX,
    ensures
        ({
            let header = preview_of(bytes);
            &&& header.packet_format == short_at(bytes, 0)
            &&& header.game_year == bytes[2]
            &&& header.game_major_version == bytes[3]
            &&& header.game_minor_version == bytes[4]
            &&& header.packet_version == bytes[5]
            &&& header.packet_id == bytes[6]
            &&& header.player_car_index == bytes[27]
            &&& header.packet_len == bytes.len()
        }),
{
    reveal_with_fuel(little_endian, 3);
}

/// The increase of a counter.
pub open spec fn rise(before: u64, after: u64) -> int {
    after - before
}

/// One if a condition holds.
pub open spec fn one_if(condition: bool) -> int {
    if condition {
        1
    } else {
        0
    }
}

/// A datagram raises the counter of received ones, and with a header the one of
/// its format and of its packet identifier, each by one. It touches no counter
/// of outcomes.
pub proof fn law_datagram_raises_its_counters(diagnostics: DiagnosticsView, bytes: Seq<u8>, id: u8)
    requires
        diagnostics.consistent(),
        diagnostics.counts.datagrams_received < u64::MAX,
        diagnostics.packet_ids[id as int] < u64::MAX,
        bytes.len() <= usize::MAX,
    ensures
        ({
            let after = diagnostics.with_datagram(bytes);
            let (old, new) = (diagnostics.counts, after.counts);
            let whole = bytes.len() >= 29;
            let format = short_at(bytes, 0);
            &&& rise(old.datagrams_received, new.datagrams_received) == 1
            &&& rise(old.headers_recognized, new.headers_recognized) == one_if(whole)
            &&& rise(old.format_2025_detected, new.format_2025_detected) == one_if(whole && format == 2025)
            &&& rise(old.format_2026_detected, new.format_2026_detected) == one_if(whole && format == 2026)
            &&& rise(old.other_formats, new.other_formats) == one_if(whole && format != 2025 && format != 2026)
            &&& rise(diagnostics.packet_ids[id as int], after.packet_ids[id as int]) == one_if(whole && bytes[6] == id)
            &&& new.packets_validated == old.packets_validated
            &&& new.player_indices_validated == old.player_indices_validated
            &&& new.telemetry_decoded == old.telemetry_decoded
            &&& new.status_decoded == old.status_decoded
            &&& new.normalized_frames == old.normalized_frames
            &&& new.stale_telemetry_frames == old.stale_telemetry_frames
            &&& new.ignored_packet_ids == old.ignored_packet_ids
            &&& after.rejected == diagnostics.rejected
        }),
{
    reveal_with_fuel(little_endian, 3);
    crate::f1::diagnostics::law_datagram_is_counted_once(diagnostics, bytes);
}

/// The first twelve distinct headers are remembered in the order of their
/// arrival, each once; a known header, or one beyond these, changes nothing.
pub proof fn law_distinct_headers_are_remembered(diagnostics: DiagnosticsView, bytes: Seq<u8>)
    requires
        bytes.len() >= 29,
    ensures
        ({
            let before = diagnostics.distinct_headers;
            let after = diagnostics.with_datagram(bytes).distinct_headers;
            let header = preview_of(bytes);
            if before.len() < 12 && !before.contains(header) {
                after == before.push(header)
            } else {
                after == before
            }
        }),
{
}

/// An accepted packet raises the counters of its kind: session, lap, telemetry
/// and status packets are validated, others ignored; telemetry that yields no
/// frame is stale; every frame is counted. Nothing that was received before is
/// counted again.
pub proof fn law_accepted_packet_raises_its_counters(
    diagnostics: DiagnosticsView,
    header: HeaderPreview,
    sample: Option<TelemetryData>,
)
    requires
        diagnostics.consistent(),
        diagnostics.room_for_result(),
    ensures
        ({
            let after = diagnostics.with_outcome(Some(header), Ok(sample));
            let (old, new) = (diagnostics.counts, after.counts);
            let id = header.packet_id;
            let known = id == 1 || id == 2 || id == 6 || id == 7;
            &&& rise(old.packets_validated, new.packets_validated) == one_if(known)
            &&& rise(old.player_indices_validated, new.player_indices_validated) == one_if(known)
            &&& rise(old.ignored_packet_ids, new.ignored_packet_ids) == one_if(!known)
            &&& rise(old.telemetry_decoded, new.telemetry_decoded) == one_if(id == 6)
            &&& rise(old.status_decoded, new.status_decoded) == one_if(id == 7)
            &&& rise(old.stale_telemetry_frames, new.stale_telemetry_frames) == one_if(id == 6 && sample is None)
            &&& rise(old.normalized_frames, new.normalized_frames) == one_if(sample is Some)
            &&& new.datagrams_received == old.datagrams_received
            &&& new.headers_recognized == old.headers_recognized
            &&& after.rejected == diagnostics.rejected
            &&& after.packet_ids == diagnostics.packet_ids
        }),
{
}

/// The first three frames are logged, and of the rejections the first three for
/// each reason, with their number.
pub proof fn law_first_outcomes_are_logged(
    report: ResultReport,
    diagnostics: DiagnosticsView,
    header: Option<HeaderPreview>,
    result: Result<Option<TelemetryData>, Rejected>,
    now: nat,
)
    requires
        diagnostics.consistent(),
        diagnostics.room_for_result(),
        report.reports(result, diagnostics.with_outcome(header, result), now),
    ensures
        report.log_frame <==> result is Ok && result->Ok_0 is Some && diagnostics.counts.normalized_frames < 3,
        result is Ok ==> report.rejection is None,
        result is Err ==> {
            let reason = result->Err_0.reason;
            let before = diagnostics.rejected[reason.position() as int];
            &&& report.rejection is Some <==> before < 3
            &&& report.rejection is Some ==> report.rejection->0.reason == reason && report.rejection->0.occurrence
                == before + 1
        },
{
    if result is Err {
        let reason = result->Err_0.reason;
        assert(diagnostics.rejected[reason.position() as int] < u64::MAX);
        crate::f1::protocol::law_reason_positions_are_distinct(reason, reason);
    }
}

/// A summary lists exactly the counters that are not zero, with their counts.
pub proof fn law_summary_lists_what_occurred(counts: Seq<u64>, i: usize, count: u64)
    requires
        counts.len() <= 0x1_0000,
    ensures
        nonzero(counts).contains((i, count)) <==> i < counts.len() && counts[i as int] == count && count > 0,
    decreases counts.len(),
{
    if counts.len() > 0 {
        let rest = counts.drop_last();
        law_summary_lists_what_occurred(rest, i, count);
        let listed = nonzero(rest);
        if counts.last() > 0 {
            let entry = ((counts.len() - 1) as usize, counts.last());
            let all = listed.push(entry);
            assert(all.contains((i, count)) <==> listed.contains((i, count)) || entry == (i, count)) by {
                if listed.contains((i, count)) {
                    let k = choose|k: int| 0 <= k < listed.len() && listed[k] == (i, count);
                    assert(all[k] == (i, count));
                }
                if entry == (i, count) {
                    assert(all[listed.len() as int] == (i, count));
                }
            }
        }
    }
}

/// A summary is due five seconds after the last one, if anything has arrived
/// since. Taking it starts the next interval and remembers what had arrived.
pub proof fn law_summaries_are_five_seconds_apart(diagnostics: DiagnosticsView, now: nat, resumed_at: nat)
    requires
        diagnostics.last_summary_at <= now,
    ensures
        ({
            let due = now >= diagnostics.last_summary_at + 5_000_000_000 && diagnostics.counts.datagrams_received
                != diagnostics.last_summary_received;
            let after = diagnostics.with_summary(now, resumed_at);
            &&& diagnostics.summary_due(now) <==> due
            &&& due ==> after.last_summary_at == resumed_at && after.last_summary_received
                == diagnostics.counts.datagrams_received
            &&& !due ==> after == diagnostics
            &&& after.counts == diagnostics.counts && after.packet_ids == diagnostics.packet_ids && after.rejected
                == diagnostics.rejected
        }),
{
}

/// Each reason for a rejection raises its own counter by one and no other.
pub proof fn law_rejections_are_counted_apart(diagnostics: DiagnosticsView, reason: RejectReason, other: RejectReason)
    requires
        diagnostics.consistent(),
        diagnostics.room_for_result(),
    ensures
        ({
            let after = diagnostics.with_rejection(reason);
            let (i, j) = (reason.position() as int, other.position() as int);
            &&& after.rejected[i] == diagnostics.rejected[i] + 1
            &&& other != reason ==> after.rejected[j] == diagnostics.rejected[j]
            &&& after.counts == diagnostics.counts && after.packet_ids == diagnostics.packet_ids
        }),
{
    crate::f1::protocol::law_reason_positions_are_distinct(reason, other);
    assert(diagnostics.rejected[reason.position() as int] < u64::MAX);
}

/// The packets that are decoded have these names, and packets beyond the known
/// kinds have none.
pub proof fn law_packets_have_their_names(packet_id: u8)
    ensures
        packet_name(1) == "Session"@,
        packet_name(2) == "LapData"@,
        packet_name(6) == "CarTelemetry"@,
        packet_name(7) == "CarStatus"@,
        packet_name(13) == "MotionEx"@,
        packet_id > 16 ==> packet_name(packet_id) == "Unknown"@,
        decoded_kind(packet_id) <==> packet_id == 1 || packet_id == 2 || packet_id == 6 || packet_id == 7,
{
}

} // verus!
