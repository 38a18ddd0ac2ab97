//! Where decoding finds the fields of a packet, byte by byte.
use crate::arithmetic::{lemma_whole_is_exact, whole};
use crate::binary32::{magnitude_value, unit_value, Binary32};
use crate::f1::f1_2026::layout_2026;
use crate::f1::layout::{car_fields_at, decoded, PacketLayout};
use crate::f1::protocol::{
    header_of, item_offset, little_endian, Header, RejectReason, Rejected,
};
use crate::f1::router::ProtocolRouter;
use crate::f1::state::{DecoderState, VehicleFields};
use vstd::arithmetic::power2::lemma_pow2_pos;
use vstd::prelude::*;

verus! {

/// The 16-bit number whose low byte is at `i`.
pub open spec fn short_at(bytes: Seq<u8>, i: int) -> int {
    bytes[i] + 256 * bytes[i + 1]
}

/// The 32-bit number whose lowest byte is at `i`.
pub open spec fn word_at(bytes: Seq<u8>, i: int) -> int {
    bytes[i] + 0x100 * bytes[i + 1] + 0x1_0000 * bytes[i + 2] + 0x100_0000 * bytes[i + 3]
}

/// The signed number in a byte.
pub open spec fn signed_byte(byte: u8) -> int {
    if byte < 128 {
        byte as int
    } else {
        byte - 256
    }
}

proof fn lemma_words(bytes: Seq<u8>, i: int)
    ensures
        little_endian(bytes, i, 2) == short_at(bytes, i),
        little_endian(bytes, i, 4) == word_at(bytes, i),
        little_endian(bytes, i, 8) == word_at(bytes, i) + 0x1_0000_0000 * word_at(bytes, i + 4),
        0 <= short_at(bytes, i) < 0x1_0000,
        0 <= word_at(bytes, i) < 0x1_0000_0000,
{
    reveal_with_fuel(little_endian, 9);
}

/// Whether the header of a packet is the given one, byte by byte.
pub open spec fn is_header(header: Header, bytes: Seq<u8>) -> bool {
    &&& header.packet_version == bytes[5]
    &&& header.packet_id == bytes[6]
    &&& header.session_uid == word_at(bytes, 7) + 0x1_0000_0000 * word_at(bytes, 11)
    &&& header.session_time.bits == word_at(bytes, 15)
    &&& header.frame_identifier == word_at(bytes, 19)
    &&& header.overall_frame_identifier == word_at(bytes, 23)
    &&& header.player_car_index == bytes[27]
}

/// Whether the header of a datagram is acceptable: whole, of the format, of an
/// accepted or unset game year, and with a player among the cars.
pub open spec fn acceptable(bytes: Seq<u8>, layout: PacketLayout, years: Seq<u8>) -> bool {
    &&& bytes.len() >= 29
    &&& short_at(bytes, 0) == layout.packet_format
    &&& bytes[2] == 0 || years.contains(bytes[2])
    &&& bytes[27] < layout.max_cars
}

/// A header is accepted exactly if it is acceptable, and its fields stand where
/// the format has them.
pub proof fn law_header_fields_are_read(layout: PacketLayout, years: Seq<u8>, bytes: Seq<u8>)
    ensures
        ({
            let header = header_of(bytes, layout.packet_format, years, layout.max_cars);
            &&& header is Ok <==> acceptable(bytes, layout, years)
            &&& header matches Ok(header) ==> is_header(header, bytes)
            &&& header matches Err(rejected) ==> rejected.reason == if bytes.len() < 29 {
                RejectReason::HeaderLength
            } else if short_at(bytes, 0) != layout.packet_format {
                RejectReason::PacketFormat
            } else if bytes[2] != 0 && !years.contains(bytes[2]) {
                RejectReason::GameYear
            } else {
                RejectReason::PlayerIndex
            }
        }),
{
    lemma_words(bytes, 0);
    lemma_words(bytes, 7);
    lemma_words(bytes, 11);
    lemma_words(bytes, 15);
    lemma_words(bytes, 19);
    lemma_words(bytes, 23);
}

/// Where the record of the player's car starts.
pub open spec fn player_record(bytes: Seq<u8>, record_len: int) -> int {
    29 + bytes[27] * record_len
}

proof fn lemma_player_record(bytes: Seq<u8>, layout: PacketLayout, record_len: usize, packet_len: usize)
    requires
        bytes.len() == packet_len,
        bytes[27] < layout.max_cars <= 256,
        record_len <= 65535,
        29 + layout.max_cars * record_len <= packet_len,
    ensures
        item_offset(bytes[27] as usize, record_len) == Ok::<usize, Rejected>(
            player_record(bytes, record_len as int) as usize,
        ),
        29 <= player_record(bytes, record_len as int),
        player_record(bytes, record_len as int) + record_len <= bytes.len(),
{
    let (i, n, r) = (bytes[27] as int, layout.max_cars as int, record_len as int);
    assert(0 <= i * r && i * r + r <= n * r) by (nonlinear_arith)
        requires
            0 <= i,
            i + 1 <= n,
            0 <= r,
    ;
}

/// Whether fields are those of the CarTelemetry record at `base`: speed,
/// throttle, steering, brake, clutch, gear and engine speed.
pub open spec fn is_car_record(fields: VehicleFields, bytes: Seq<u8>, base: int) -> bool {
    &&& fields.speed_kph == short_at(bytes, base)
    &&& fields.throttle.bits == word_at(bytes, base + 2)
    &&& fields.steer.bits == word_at(bytes, base + 6)
    &&& fields.brake.bits == word_at(bytes, base + 10)
    &&& fields.clutch == bytes[base + 14]
    &&& fields.gear == signed_byte(bytes[base + 15])
    &&& fields.rpm == short_at(bytes, base + 16)
    &&& fields.rev_lights is None
}

/// A CarTelemetry packet of the right version and length feeds the player's
/// record to the state of its session, and yields what that yields. Inputs that
/// are no finite numbers are refused and change nothing.
pub proof fn law_telemetry_packet_feeds_the_player_record(
    state: DecoderState,
    layout: PacketLayout,
    years: Seq<u8>,
    bytes: Seq<u8>,
    header: Header,
    fields: VehicleFields,
)
    requires
        layout.complete(),
        acceptable(bytes, layout, years),
        bytes[5] == 1,
        bytes[6] == 6,
        bytes.len() == layout.car_telemetry_packet_len,
        is_header(header, bytes),
        is_car_record(fields, bytes, player_record(bytes, layout.car_telemetry_data_len as int)),
    ensures
        ({
            let (next, result) = decoded(state, layout, years, bytes);
            let entered = state.in_session(header.session_uid);
            let (stepped, frame) = entered.car_step(layout.packet_format, header, fields);
            if fields.throttle.finite() && fields.steer.finite() && fields.brake.finite() {
                next == stepped && result == Ok::<_, Rejected>(frame)
            } else {
                next == entered && result is Err && result->Err_0.reason == RejectReason::InvalidValue
            }
        }),
{
    law_header_fields_are_read(layout, years, bytes);
    lemma_player_record(bytes, layout, layout.car_telemetry_data_len, layout.car_telemetry_packet_len);
    let base = player_record(bytes, layout.car_telemetry_data_len as int);
    lemma_words(bytes, base);
    lemma_words(bytes, base + 2);
    lemma_words(bytes, base + 6);
    lemma_words(bytes, base + 10);
    lemma_words(bytes, base + 16);
    let found = header_of(bytes, layout.packet_format, years, layout.max_cars)->Ok_0;
    assert(found == header);
    let read = car_fields_at(bytes, base);
    assert(read is Ok);
    assert(read->Ok_0 == fields);
}

/// A status packet tells the assists: traction control in the first byte of the
/// player's record, ABS in the second. Unknown levels are refused and change
/// nothing.
pub proof fn law_status_packet_tells_the_assists(
    state: DecoderState,
    layout: PacketLayout,
    years: Seq<u8>,
    bytes: Seq<u8>,
)
    requires
        layout.complete(),
        acceptable(bytes, layout, years),
        bytes[5] == 1,
        bytes[6] == 7,
        bytes.len() == layout.car_status_packet_len,
    ensures
        ({
            let (next, result) = decoded(state, layout, years, bytes);
            let base = player_record(bytes, layout.car_status_data_len as int);
            let (tc, abs) = (bytes[base], bytes[base + 1]);
            if tc <= 2 && abs <= 1 {
                &&& result matches Ok(frame) && frame is None
                &&& next.assists_known
                &&& next.assists.traction_control_level == Some(tc)
                &&& next.assists.abs_enabled == Some(abs == 1)
            } else {
                result matches Err(rejected) && rejected.reason == RejectReason::InvalidValue
            }
        }),
{
    law_header_fields_are_read(layout, years, bytes);
    lemma_player_record(bytes, layout, layout.car_status_data_len, layout.car_status_packet_len);
}

/// A session packet tells the track length in meters, if it is not zero.
pub proof fn law_session_packet_tells_the_track_length(
    state: DecoderState,
    layout: PacketLayout,
    years: Seq<u8>,
    bytes: Seq<u8>,
)
    requires
        layout.complete(),
        acceptable(bytes, layout, years),
        bytes[5] == 1,
        bytes[6] == 1,
        bytes.len() == layout.session_packet_len,
    ensures
        ({
            let (next, result) = decoded(state, layout, years, bytes);
            let meters = short_at(bytes, 33);
            &&& result matches Ok(frame) && frame is None
            &&& meters == 0 ==> next.track_length_m is None
            &&& meters > 0 ==> next.track_length_m is Some && {
                let length = next.track_length_m->0;
                length.finite() && !length.negative() && length.value() == meters * unit_value()
            }
        }),
{
    law_header_fields_are_read(layout, years, bytes);
    lemma_words(bytes, 33);
    let meters = short_at(bytes, 33);
    lemma_whole_is_exact(meters as nat);
    let length = whole(meters as nat);
    let zero = Binary32 { bits: 0 };
    zero.lemma_rank_orders_values(length);
    lemma_pow2_pos(149);
    assert(magnitude_value(0) == 0);
    assert(meters > 0 ==> meters * unit_value() > 0) by (nonlinear_arith)
        requires
            unit_value() > 0,
    ;
    assert(0 * unit_value() == 0);
}

/// A lap packet tells the player's distance along the lap, if it is finite.
pub proof fn law_lap_packet_tells_the_lap_distance(
    state: DecoderState,
    layout: PacketLayout,
    years: Seq<u8>,
    bytes: Seq<u8>,
)
    requires
        layout.complete(),
        acceptable(bytes, layout, years),
        bytes[5] == 1,
        bytes[6] == 2,
        bytes.len() == layout.lap_packet_len,
    ensures
        ({
            let (next, result) = decoded(state, layout, years, bytes);
            let base = player_record(bytes, layout.lap_data_len as int);
            let distance = Binary32 { bits: word_at(bytes, base + 20) as u32 };
            &&& result matches Ok(frame) && frame is None
            &&& distance.finite() ==> next.player_lap_distance_m == Some(distance)
            &&& !distance.finite() ==> next.player_lap_distance_m is None
        }),
{
    law_header_fields_are_read(layout, years, bytes);
    lemma_player_record(bytes, layout, layout.lap_data_len, layout.lap_packet_len);
    lemma_words(bytes, player_record(bytes, layout.lap_data_len as int) + 20);
}

/// Packets of the four decoded kinds must have version one and exactly the
/// length of their kind; nothing but the session is noted otherwise. Packets of
/// other kinds are ignored, whatever their length and version.
pub proof fn law_other_packets_are_refused_or_ignored(
    state: DecoderState,
    layout: PacketLayout,
    years: Seq<u8>,
    bytes: Seq<u8>,
    header: Header,
)
    requires
        acceptable(bytes, layout, years),
        is_header(header, bytes),
    ensures
        ({
            let (next, result) = decoded(state, layout, years, bytes);
            let entered = state.in_session(header.session_uid);
            let id = bytes[6];
            let expected = if id == 1 {
                layout.session_packet_len
            } else if id == 2 {
                layout.lap_packet_len
            } else if id == 6 {
                layout.car_telemetry_packet_len
            } else {
                layout.car_status_packet_len
            };
            let decoded_kind = id == 1 || id == 2 || id == 6 || id == 7;
            &&& !decoded_kind ==> next == entered && result is Ok && result->Ok_0 is None
            &&& decoded_kind && bytes[5] != 1 ==> next == entered && result is Err && result->Err_0.reason
                == RejectReason::PacketVersion
            &&& decoded_kind && bytes[5] == 1 && bytes.len() != expected ==> next == entered
                && result is Err && result->Err_0.reason == RejectReason::PacketLength
        }),
{
    law_header_fields_are_read(layout, years, bytes);
    let found = header_of(bytes, layout.packet_format, years, layout.max_cars)->Ok_0;
    assert(found == header);
}

/// The first two bytes choose the decoder: those of 2025 packets the one for
/// that year alone, and those of 2026 packets the other, which takes packets of
/// both game years. The decoder that is not chosen does not change.
pub proof fn law_format_chooses_the_decoder(router: ProtocolRouter, bytes: Seq<u8>)
    requires
        bytes.len() >= 2,
    ensures
        ({
            let routed = router.routed(bytes);
            let format = short_at(bytes, 0);
            let year: Seq<u8> = seq![25];
            let years: Seq<u8> = seq![25, 26];
            &&& format == 2025 ==> (routed.state_2025, routed.result) == decoded(
                router.f1_2025.state,
                router.f1_2025.layout,
                year,
                bytes,
            )
            &&& format == 2026 ==> (routed.state_2026, routed.result) == decoded(
                router.f1_2026.state,
                layout_2026(),
                years,
                bytes,
            )
            &&& format != 2025 ==> routed.state_2025 == router.f1_2025.state
            &&& format != 2026 ==> routed.state_2026 == router.f1_2026.state
            &&& format != 2025 && format != 2026 ==> routed.result is Err
        }),
{
    reveal_with_fuel(little_endian, 3);
    lemma_pow2_pos(149);
    assert(little_endian(bytes, 0, 2) == short_at(bytes, 0));
}

/// The records and packets of the 2026 format have the sizes that the game
/// sends.
pub proof fn law_packets_of_2026_have_their_sizes()
    ensures
        ({
            let layout = layout_2026();
            &&& layout.packet_format == 2026 && layout.max_cars == 24
            &&& layout.session_packet_len == 926
            &&& layout.lap_packet_len == 1399 && layout.lap_data_len == 57
            &&& layout.car_telemetry_packet_len == 1448 && layout.car_telemetry_data_len == 59
            &&& layout.car_status_packet_len == 1445 && layout.car_status_data_len == 59
        }),
{
}

} // verus!
