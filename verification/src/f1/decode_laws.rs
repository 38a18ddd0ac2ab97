//! What holds of decoding and routing for all datagrams.
use crate::f1::f1_2025;
use crate::f1::f1_2026;
use crate::f1::layout::{car_fields_at, decoded, PacketLayout, PACKET_CAR_TELEMETRY};
use crate::f1::protocol::{
    format_of, header_of, item_offset, little_endian, packet_check, RejectReason, Rejected, HEADER_LEN,
};
use crate::f1::router::ProtocolRouter;
use crate::f1::state::DecoderState;
use vstd::prelude::*;

verus! {

proof fn lemma_record_in_packet(index: usize, max_cars: usize, item_len: usize, packet_len: usize)
    requires
        index < max_cars <= 256,
        item_len <= 65535,
        HEADER_LEN + max_cars * item_len <= packet_len,
    ensures
        item_offset(index, item_len) == Ok::<usize, Rejected>((HEADER_LEN + index * item_len) as usize),
        HEADER_LEN + index * item_len + item_len <= packet_len,
{
    assert(index * item_len + item_len <= max_cars * item_len) by (nonlinear_arith)
        requires
            index + 1 <= max_cars,
            item_len >= 0,
    ;
}

/// With a complete layout, a packet that passes the header, version and length
/// tests is never found truncated.
pub proof fn law_accepted_length_is_never_truncated(
    state: DecoderState,
    layout: PacketLayout,
    accepted_game_years: Seq<u8>,
    bytes: Seq<u8>,
)
    requires
        layout.complete(),
    ensures
        decoded(state, layout, accepted_game_years, bytes).1 matches Err(rejected) ==> {
            &&& rejected.reason != RejectReason::PayloadField
            &&& rejected.reason != RejectReason::HeaderField
            &&& rejected.reason != RejectReason::Other
        },
{
    if let Ok(header) = header_of(bytes, layout.packet_format, accepted_game_years, layout.max_cars) {
        let index = header.player_car_index;
        lemma_record_in_packet(index, layout.max_cars, layout.lap_data_len, layout.lap_packet_len);
        lemma_record_in_packet(index, layout.max_cars, layout.car_telemetry_data_len, layout.car_telemetry_packet_len);
        lemma_record_in_packet(index, layout.max_cars, layout.car_status_data_len, layout.car_status_packet_len);
    }
}

/// A datagram whose header is not acceptable changes nothing.
pub proof fn law_bad_header_changes_nothing(
    state: DecoderState,
    layout: PacketLayout,
    accepted_game_years: Seq<u8>,
    bytes: Seq<u8>,
)
    requires
        header_of(bytes, layout.packet_format, accepted_game_years, layout.max_cars) is Err,
    ensures
        decoded(state, layout, accepted_game_years, bytes).0 == state,
        decoded(state, layout, accepted_game_years, bytes).1 is Err,
{
}

/// Whether two packets agree on the bytes from `from` up to `to`.
pub open spec fn agree(a: Seq<u8>, b: Seq<u8>, from: int, to: int) -> bool {
    forall|i: int| from <= i < to ==> #[trigger] a[i] == b[i]
}

proof fn lemma_little_endian_agrees(a: Seq<u8>, b: Seq<u8>, offset: int, count: nat)
    requires
        agree(a, b, offset, offset + count),
    ensures
        little_endian(a, offset, count) == little_endian(b, offset, count),
    decreases count,
{
    if count > 0 {
        assert(a[offset] == b[offset]);
        lemma_little_endian_agrees(a, b, offset + 1, (count - 1) as nat);
    }
}

proof fn lemma_header_agrees(a: Seq<u8>, b: Seq<u8>, format: u16, years: Seq<u8>, max_cars: usize)
    requires
        a.len() == b.len(),
        agree(a, b, 0, HEADER_LEN as int),
    ensures
        header_of(a, format, years, max_cars) == header_of(b, format, years, max_cars),
{
    lemma_little_endian_agrees(a, b, 0, 2);
    lemma_little_endian_agrees(a, b, 7, 8);
    lemma_little_endian_agrees(a, b, 15, 4);
    lemma_little_endian_agrees(a, b, 19, 4);
    lemma_little_endian_agrees(a, b, 23, 4);
    assert(a[2] == b[2] && a[5] == b[5] && a[6] == b[6] && a[27] == b[27]);
}

/// Of a telemetry packet only the header and the record of the player's car
/// matter: whatever the records of other cars hold, the result is the same.
pub proof fn law_only_the_player_record_matters(
    state: DecoderState,
    layout: PacketLayout,
    accepted_game_years: Seq<u8>,
    a: Seq<u8>,
    b: Seq<u8>,
)
    requires
        layout.complete(),
        a.len() == b.len(),
        a.len() >= HEADER_LEN,
        a[6] == PACKET_CAR_TELEMETRY,
        agree(a, b, 0, HEADER_LEN as int),
        agree(
            a,
            b,
            HEADER_LEN + a[27] * layout.car_telemetry_data_len,
            HEADER_LEN + a[27] * layout.car_telemetry_data_len + layout.car_telemetry_data_len,
        ),
    ensures
        decoded(state, layout, accepted_game_years, a) == decoded(state, layout, accepted_game_years, b),
{
    lemma_header_agrees(a, b, layout.packet_format, accepted_game_years, layout.max_cars);
    if let Ok(header) = header_of(a, layout.packet_format, accepted_game_years, layout.max_cars) {
        let index = header.player_car_index;
        lemma_record_in_packet(index, layout.max_cars, layout.car_telemetry_data_len, layout.car_telemetry_packet_len);
        let base = HEADER_LEN + index * layout.car_telemetry_data_len;
        assert(a[27] * layout.car_telemetry_data_len == index * layout.car_telemetry_data_len);
        if packet_check(a, layout.car_telemetry_packet_len, header.packet_version) is Ok {
            lemma_little_endian_agrees(a, b, base, 2);
            lemma_little_endian_agrees(a, b, base + 2, 4);
            lemma_little_endian_agrees(a, b, base + 6, 4);
            lemma_little_endian_agrees(a, b, base + 10, 4);
            lemma_little_endian_agrees(a, b, base + 16, 2);
            assert(a[base + 14] == b[base + 14]);
            assert(a[base + 15] == b[base + 15]);
            assert(car_fields_at(a, base) == car_fields_at(b, base));
        }
    }
}

/// A datagram of an unknown format is rejected whatever follows the
/// identifier, and no decoder sees it.
pub proof fn law_unknown_format_reaches_no_decoder(router: ProtocolRouter, bytes: Seq<u8>)
    requires
        bytes.len() >= 2,
        format_of(bytes)->Ok_0 != f1_2025::PACKET_FORMAT,
        format_of(bytes)->Ok_0 != f1_2026::PACKET_FORMAT,
    ensures
        router.routed(bytes).result matches Err(rejected) && rejected.reason == RejectReason::Other,
        router.routed(bytes).state_2025 == router.f1_2025.state,
        router.routed(bytes).state_2026 == router.f1_2026.state,
{
}

/// A datagram changes the state of at most the decoder of its own format, and
/// a frame carries that format.
pub proof fn law_formats_do_not_interfere(router: ProtocolRouter, bytes: Seq<u8>)
    requires
        router.f1_2025.layout.packet_format == f1_2025::PACKET_FORMAT,
    ensures
        format_of(bytes) != Ok::<u16, Rejected>(f1_2025::PACKET_FORMAT) ==> router.routed(bytes).state_2025
            == router.f1_2025.state,
        format_of(bytes) != Ok::<u16, Rejected>(f1_2026::PACKET_FORMAT) ==> router.routed(bytes).state_2026
            == router.f1_2026.state,
        router.routed(bytes).result matches Ok(Some(frame)) ==> format_of(bytes) is Ok && frame.source.protocol_format
            == Some(format_of(bytes)->Ok_0),
{
}

/// Once the 2026 format has selected its decoder, game years 25 and 26 and an
/// unset game year are all accepted.
pub proof fn law_selected_2026_accepts_both_years(router: ProtocolRouter, bytes: Seq<u8>)
    requires
        bytes.len() >= HEADER_LEN,
        format_of(bytes) == Ok::<u16, Rejected>(f1_2026::PACKET_FORMAT),
        bytes[2] == 0 || bytes[2] == 25 || bytes[2] == 26,
    ensures
        router.routed(bytes).result matches Err(rejected) ==> rejected.reason != RejectReason::GameYear,
{
    let years = seq![f1_2026::LIVE_GAME_YEAR, f1_2026::GAME_YEAR];
    assert(years[0] == 25 && years[1] == 26);
    assert(bytes[2] != 0 ==> years.contains(bytes[2]));
}

} // verus!
