use simtrace::binary32::Binary32;
use simtrace::f1::diagnostics::{packet_type_name, Diagnostics, HeaderPreview};
use simtrace::f1::drain::{DatagramDrain, MAX_DATAGRAMS_PER_DRAIN};
use simtrace::f1::f1_2026::{
    Decoder, CAR_STATUS_DATA_LEN, CAR_STATUS_PACKET_LEN, CAR_TELEMETRY_DATA_LEN, CAR_TELEMETRY_PACKET_LEN, GAME_YEAR,
    LAP_DATA_LEN, LAP_PACKET_LEN, PACKET_FORMAT, SESSION_PACKET_LEN,
};
use simtrace::f1::layout::{
    PacketLayout, PACKET_CAR_STATUS, PACKET_CAR_TELEMETRY, PACKET_LAP_DATA, PACKET_SESSION,
};
use simtrace::f1::protocol::{
    packet_format, parse_header, player_offset, read_arr4, read_f32, read_i8, read_u16, read_u32, read_u64, read_u8,
    reject, reject_reason, require_packet, Header, RejectReason, HEADER_LEN, REJECT_REASON_COUNT,
};
use simtrace::f1::router::ProtocolRouter;
use simtrace::f1::state::{DecoderState, MotionFields, VehicleFields};
use simtrace::model::{RevLights, TelemetryData};
use simtrace::time::{Duration, Instant};

fn f(x: f32) -> Binary32 {
    Binary32 { bits: x.to_bits() }
}

fn layout_2025() -> PacketLayout {
    PacketLayout {
        packet_format: 2025,
        max_cars: 22,
        session_packet_len: 753,
        lap_packet_len: 1285,
        car_telemetry_packet_len: 1352,
        car_status_packet_len: 1239,
        lap_data_len: 57,
        car_telemetry_data_len: 60,
        car_status_data_len: 55,
    }
}

fn router() -> ProtocolRouter {
    ProtocolRouter::new(layout_2025())
}

fn packet(format: u16, year: u8, id: u8, len: usize, player: usize, frame: u32) -> Vec<u8> {
    let mut bytes = vec![0_u8; len];
    bytes[0..2].copy_from_slice(&format.to_le_bytes());
    bytes[2] = year;
    bytes[5] = 1;
    bytes[6] = id;
    bytes[7..15].copy_from_slice(&5678_u64.to_le_bytes());
    bytes[15..19].copy_from_slice(&12.5_f32.to_le_bytes());
    bytes[19..23].copy_from_slice(&frame.to_le_bytes());
    bytes[23..27].copy_from_slice(&frame.to_le_bytes());
    bytes[27] = player as u8;
    bytes[28] = 255;
    bytes
}

fn test_packet(id: u8, len: usize, player: usize, frame: u32) -> Vec<u8> {
    packet(PACKET_FORMAT, GAME_YEAR, id, len, player, frame)
}

fn fill_telemetry(bytes: &mut [u8], base: usize) {
    bytes[base..base + 2].copy_from_slice(&288_u16.to_le_bytes());
    bytes[base + 2..base + 6].copy_from_slice(&0.75_f32.to_le_bytes());
    bytes[base + 6..base + 10].copy_from_slice(&(-0.5_f32).to_le_bytes());
    bytes[base + 10..base + 14].copy_from_slice(&0.25_f32.to_le_bytes());
    bytes[base + 14] = 40;
    bytes[base + 15] = 7;
    bytes[base + 16..base + 18].copy_from_slice(&12_345_u16.to_le_bytes());
}

fn test_telemetry_packet(player: usize, frame: u32) -> Vec<u8> {
    let mut bytes = test_packet(PACKET_CAR_TELEMETRY, CAR_TELEMETRY_PACKET_LEN, player, frame);
    fill_telemetry(&mut bytes, HEADER_LEN + player * CAR_TELEMETRY_DATA_LEN);
    bytes
}

fn telemetry_packet_2025(player: usize, frame: u32) -> Vec<u8> {
    let layout = layout_2025();
    let mut bytes = packet(2025, 25, PACKET_CAR_TELEMETRY, layout.car_telemetry_packet_len, player, frame);
    fill_telemetry(&mut bytes, HEADER_LEN + player * layout.car_telemetry_data_len);
    bytes
}

#[test]
fn previews_current_header_fields_without_decoding_layout() {
    let mut bytes = vec![0_u8; HEADER_LEN];
    bytes[0..2].copy_from_slice(&2026_u16.to_le_bytes());
    bytes[2..7].copy_from_slice(&[26, 1, 3, 2, 16]);
    bytes[27] = 23;
    let preview = HeaderPreview::read(&bytes).unwrap();
    assert_eq!(preview.packet_format, 2026);
    assert_eq!(preview.game_year, 26);
    assert_eq!(preview.game_major_version, 1);
    assert_eq!(preview.game_minor_version, 3);
    assert_eq!(preview.packet_version, 2);
    assert_eq!(preview.packet_id, 16);
    assert_eq!(preview.player_car_index, 23);
}

#[test]
fn preview_needs_a_whole_header() {
    assert!(HeaderPreview::read(&vec![0_u8; HEADER_LEN - 1]).is_none());
    assert!(HeaderPreview::read(&[]).is_none());
}

#[test]
fn counts_received_2026_telemetry_through_normalized_acceptance() {
    let bytes = test_telemetry_packet(3, 7);
    let mut diagnostics = Diagnostics::default();
    let header = diagnostics.observe_datagram(&bytes);
    let result = router().decode(&bytes);
    diagnostics.observe_result(header, &result);

    let counts = diagnostics.counts();
    assert_eq!(counts.datagrams_received, 1);
    assert_eq!(counts.headers_recognized, 1);
    assert_eq!(counts.format_2026_detected, 1);
    assert_eq!(diagnostics.packet_count(6), 1);
    assert_eq!(counts.packets_validated, 1);
    assert_eq!(counts.player_indices_validated, 1);
    assert_eq!(counts.telemetry_decoded, 1);
    assert_eq!(counts.normalized_frames, 1);
}

#[test]
fn classifies_length_rejection_without_changing_layout() {
    let mut bytes = test_telemetry_packet(0, 1);
    bytes.pop();
    let mut diagnostics = Diagnostics::default();
    let header = diagnostics.observe_datagram(&bytes);
    let result = router().decode(&bytes);
    diagnostics.observe_result(header, &result);

    assert!(result.is_err());
    assert_eq!(diagnostics.counts().datagrams_received, 1);
    assert_eq!(diagnostics.counts().format_2026_detected, 1);
    assert_eq!(diagnostics.rejection_count(RejectReason::PacketLength), 1);
    assert_eq!(diagnostics.counts().normalized_frames, 0);
}

#[test]
fn decodes_native_2026_player_values_and_identity() {
    let data = Decoder::default().decode(&test_telemetry_packet(23, 7)).unwrap().unwrap();
    assert_eq!(data.vehicle.speed, f(80.0));
    assert_eq!(data.vehicle.throttle, f(0.75));
    assert_eq!(data.vehicle.brake, f(0.25));
    assert_eq!(data.vehicle.clutch, f(0.4));
    assert_eq!(data.vehicle.steering_input, f(-0.5));
    assert_eq!(data.vehicle.gear, 7);
    assert_eq!(data.vehicle.rpm, f(12_345.0));
    assert_eq!(data.source.protocol_format, Some(2026));
}

#[test]
fn validates_2026_version_length_year_and_car_limit() {
    let mut wrong_version = test_telemetry_packet(0, 1);
    wrong_version[5] = 2;
    assert!(Decoder::default().decode(&wrong_version).is_err());
    let mut wrong_year = test_telemetry_packet(0, 1);
    wrong_year[2] = 25;
    assert!(Decoder::default().decode(&wrong_year).is_err());
    assert!(Decoder::default().decode(&test_telemetry_packet(0, 1)[..100]).is_err());
    let mut wrong_car = test_telemetry_packet(0, 1);
    wrong_car[27] = 24;
    assert!(Decoder::default().decode(&wrong_car).is_err());
}

#[test]
fn uses_2026_specific_item_sizes_for_player_selection() {
    let mut bytes = test_telemetry_packet(5, 8);
    bytes[HEADER_LEN + 2..HEADER_LEN + 6].copy_from_slice(&0.1_f32.to_le_bytes());
    let data = Decoder::default().decode(&bytes).unwrap().unwrap();
    assert_eq!(data.vehicle.throttle, f(0.75));
}

#[test]
fn ignores_stale_telemetry_frames() {
    let mut decoder = Decoder::default();
    assert!(decoder.decode(&test_telemetry_packet(0, 10)).unwrap().is_some());
    assert!(decoder.decode(&test_telemetry_packet(0, 10)).unwrap().is_none());
    assert!(decoder.decode(&test_telemetry_packet(0, 9)).unwrap().is_none());
}

#[test]
fn preserves_2026_assists_and_track_position() {
    let mut decoder = Decoder::default();
    let mut session = test_packet(PACKET_SESSION, SESSION_PACKET_LEN, 2, 1);
    session[HEADER_LEN + 4..HEADER_LEN + 6].copy_from_slice(&5000_u16.to_le_bytes());
    decoder.decode(&session).unwrap();
    let mut lap = test_packet(PACKET_LAP_DATA, LAP_PACKET_LEN, 2, 2);
    let lap_base = HEADER_LEN + 2 * LAP_DATA_LEN;
    lap[lap_base + 20..lap_base + 24].copy_from_slice(&1250.0_f32.to_le_bytes());
    decoder.decode(&lap).unwrap();
    let mut status = test_packet(PACKET_CAR_STATUS, CAR_STATUS_PACKET_LEN, 2, 3);
    let status_base = HEADER_LEN + 2 * CAR_STATUS_DATA_LEN;
    status[status_base] = 2;
    status[status_base + 1] = 1;
    decoder.decode(&status).unwrap();
    let data = decoder.decode(&test_telemetry_packet(2, 4)).unwrap().unwrap();
    assert_eq!(data.vehicle.track_position, f(0.25));
    assert_eq!(data.vehicle.assists.abs_enabled, Some(true));
    assert_eq!(data.vehicle.assists.traction_control_level, Some(2));
}

#[test]
fn router_selects_each_protocol_by_packet_format() {
    let mut router = router();
    let p25 = telemetry_packet_2025(2, 10);
    let p26 = test_telemetry_packet(3, 10);
    let d25 = router.decode(&p25).unwrap().unwrap();
    let d26 = router.decode(&p26).unwrap().unwrap();
    assert_eq!(d25.source.protocol_format, Some(2025));
    assert_eq!(d26.source.protocol_format, Some(2026));
    assert_eq!(d25.vehicle.throttle, d26.vehicle.throttle);
}

#[test]
fn router_rejects_unknown_protocol_before_layout_decode() {
    let mut bytes = vec![0_u8; 29];
    bytes[0..2].copy_from_slice(&2024_u16.to_le_bytes());
    assert!(router().decode(&bytes).is_err());
}

#[test]
fn router_names_the_unknown_format() {
    let mut bytes = vec![0_u8; 29];
    bytes[0..2].copy_from_slice(&2024_u16.to_le_bytes());
    let error = router().decode(&bytes).unwrap_err();
    assert_eq!(reject_reason(&error), RejectReason::Other);
    assert_eq!(error.detail, "unsupported F1 UDP format 2024");
}

#[test]
fn live_2026_build_with_previous_year_is_accepted_after_routing() {
    let mut bytes = test_telemetry_packet(0, 1);
    bytes[2] = 25;
    assert!(router().decode(&bytes).unwrap().is_some());
    bytes[2] = 24;
    assert_eq!(reject_reason(&router().decode(&bytes).unwrap_err()), RejectReason::GameYear);
    bytes[2] = 0;
    assert!(router().decode(&bytes).unwrap().is_some());
}

#[test]
fn formats_keep_separate_histories() {
    let mut router = router();
    assert!(router.decode(&telemetry_packet_2025(0, 10)).unwrap().is_some());
    assert!(router.decode(&test_telemetry_packet(0, 5)).unwrap().is_some());
    assert!(router.decode(&telemetry_packet_2025(0, 9)).unwrap().is_none());
    assert!(router.decode(&test_telemetry_packet(0, 6)).unwrap().is_some());
}

#[test]
fn other_cars_do_not_matter() {
    let bytes = test_telemetry_packet(1, 7);
    let expected = Decoder::default().decode(&bytes).unwrap().unwrap();
    let mut changed = bytes.clone();
    for byte in &mut changed[HEADER_LEN..HEADER_LEN + CAR_TELEMETRY_DATA_LEN] {
        *byte = 0xff;
    }
    let data = Decoder::default().decode(&changed).unwrap().unwrap();
    assert_eq!(data.vehicle, expected.vehicle);
    assert_eq!(data.source, expected.source);
}

#[test]
fn header_errors_come_with_their_reasons() {
    let decode = |bytes: &[u8]| reject_reason(&Decoder::default().decode(bytes).unwrap_err());
    assert_eq!(decode(&[1, 2, 3]), RejectReason::HeaderLength);
    let mut bytes = test_telemetry_packet(0, 1);
    bytes[0..2].copy_from_slice(&2025_u16.to_le_bytes());
    assert_eq!(decode(&bytes), RejectReason::PacketFormat);
    let mut bytes = test_telemetry_packet(0, 1);
    bytes[2] = 25;
    assert_eq!(decode(&bytes), RejectReason::GameYear);
    let mut bytes = test_telemetry_packet(0, 1);
    bytes[27] = 24;
    assert_eq!(decode(&bytes), RejectReason::PlayerIndex);
    let mut bytes = test_telemetry_packet(0, 1);
    bytes[5] = 2;
    assert_eq!(decode(&bytes), RejectReason::PacketVersion);
    let mut bytes = test_telemetry_packet(0, 1);
    bytes.push(0);
    assert_eq!(decode(&bytes), RejectReason::PacketLength);
}

#[test]
fn unknown_assist_values_are_invalid() {
    for (tc, abs) in [(3_u8, 0_u8), (0, 2)] {
        let mut decoder = Decoder::default();
        let mut status = test_packet(PACKET_CAR_STATUS, CAR_STATUS_PACKET_LEN, 0, 3);
        status[HEADER_LEN] = tc;
        status[HEADER_LEN + 1] = abs;
        let error = decoder.decode(&status).unwrap_err();
        assert_eq!(reject_reason(&error), RejectReason::InvalidValue);
    }
}

#[test]
fn non_finite_values_are_invalid() {
    let mut bytes = test_telemetry_packet(0, 1);
    bytes[HEADER_LEN + 2..HEADER_LEN + 6].copy_from_slice(&f32::NAN.to_le_bytes());
    let error = Decoder::default().decode(&bytes).unwrap_err();
    assert_eq!(reject_reason(&error), RejectReason::InvalidValue);
}

#[test]
fn ignored_packets_yield_no_frame() {
    let bytes = test_packet(13, 300, 0, 1);
    assert!(Decoder::default().decode(&bytes).unwrap().is_none());
}

#[test]
fn readers_report_the_field_that_is_missing() {
    let bytes = [1_u8, 2, 3, 4, 5, 6, 7, 0xff];
    assert_eq!(read_u8(&bytes, 7).unwrap(), 255);
    assert_eq!(read_i8(&bytes, 7).unwrap(), -1);
    assert_eq!(read_u16(&bytes, 1).unwrap(), 0x0302);
    assert_eq!(read_u32(&bytes, 0).unwrap(), 0x0403_0201);
    assert_eq!(read_u64(&bytes, 0).unwrap(), 0xff07_0605_0403_0201);
    assert_eq!(read_f32(&1.5_f32.to_le_bytes(), 0).unwrap(), f(1.5));
    assert_eq!(reject_reason(&read_u8(&bytes, 8).unwrap_err()), RejectReason::PayloadField);
    assert_eq!(reject_reason(&read_u16(&bytes, 7).unwrap_err()), RejectReason::PayloadField);
    assert_eq!(reject_reason(&read_u32(&bytes, 5).unwrap_err()), RejectReason::PayloadField);
    assert_eq!(reject_reason(&read_u64(&bytes, usize::MAX).unwrap_err()), RejectReason::PayloadField);
    assert_eq!(reject_reason(&read_f32(&bytes, 6).unwrap_err()), RejectReason::PayloadField);
    let mut four = Vec::new();
    for value in [1.0_f32, -2.0, 0.5, 8.0] {
        four.extend_from_slice(&value.to_le_bytes());
    }
    assert_eq!(read_arr4(&four, 0).unwrap(), [f(1.0), f(-2.0), f(0.5), f(8.0)]);
    assert!(read_arr4(&four, 1).is_err());
}

#[test]
fn format_is_read_from_short_datagrams() {
    assert_eq!(packet_format(&[0xea, 0x07]).unwrap(), 2026);
    let error = packet_format(&[0xea]).unwrap_err();
    assert_eq!(reject_reason(&error), RejectReason::HeaderField);
    assert_eq!(error.detail, "F1 packet missing format identifier");
}

#[test]
fn header_is_parsed_in_full() {
    let header = parse_header(&test_telemetry_packet(3, 9), 2026, &[26], 24).unwrap();
    assert_eq!(header.packet_id, PACKET_CAR_TELEMETRY);
    assert_eq!(header.packet_version, 1);
    assert_eq!(header.session_uid, 5678);
    assert_eq!(header.overall_frame_identifier, 9);
    assert!(require_packet(&[0; 10], 10, 1).is_ok());
    assert_eq!(player_offset(2, 57).unwrap(), HEADER_LEN + 114);
    assert_eq!(reject_reason(&player_offset(usize::MAX, 2).unwrap_err()), RejectReason::PlayerIndex);
}

#[test]
fn reasons_have_names_and_positions() {
    let names = [
        "header_length",
        "header_field",
        "packet_format",
        "game_year",
        "packet_version",
        "packet_length",
        "player_index",
        "payload_field",
        "invalid_value",
        "other",
    ];
    let all = RejectReason::all();
    assert_eq!(REJECT_REASON_COUNT, names.len());
    for (i, reason) in all.iter().enumerate() {
        assert_eq!(reason.index(), i);
        assert_eq!(reason.as_str(), names[i]);
    }
    let rejection = reject(RejectReason::Other, "no".to_owned());
    assert_eq!(reject_reason(&rejection), RejectReason::Other);
    assert_eq!(rejection.detail, "no");
}

#[test]
fn packets_have_names() {
    assert_eq!(packet_type_name(6), "CarTelemetry");
    assert_eq!(packet_type_name(13), "MotionEx");
    assert_eq!(packet_type_name(16), "CarTelemetry2");
    assert_eq!(packet_type_name(17), "Unknown");
}

#[test]
fn only_the_first_rejections_of_a_reason_are_logged() {
    let mut diagnostics = Diagnostics::default();
    let mut logged = 0;
    for _ in 0..5 {
        let bytes = [0xea, 0x07, 3];
        let header = diagnostics.observe_datagram(&bytes);
        assert!(header.is_none());
        let result = router().decode(&bytes);
        let report = diagnostics.observe_result(header, &result);
        if let Some(rejection) = report.rejection {
            logged += 1;
            assert_eq!(rejection.reason, RejectReason::HeaderLength);
            assert_eq!(rejection.occurrence, logged);
        }
    }
    assert_eq!(logged, 3);
    assert_eq!(diagnostics.rejection_count(RejectReason::HeaderLength), 5);
    assert_eq!(diagnostics.counts().headers_recognized, 0);
}

#[test]
fn summaries_come_every_five_seconds_while_packets_arrive() {
    let mut diagnostics = Diagnostics::default();
    assert!(diagnostics.log_summary().is_none());
    let mut router = router();
    let mut feed = |diagnostics: &mut Diagnostics, frame: u32, now: Instant| {
        let bytes = test_telemetry_packet(0, frame);
        let header = diagnostics.observe_datagram(&bytes);
        let result = router.decode(&bytes);
        diagnostics.observe_result_at(header, &result, now, now).summary
    };
    let start = Instant::at(Duration::from_secs(100));
    assert!(feed(&mut diagnostics, 1, start).is_some());
    assert!(feed(&mut diagnostics, 2, Instant::at(Duration::from_millis(104_999))).is_none());
    let summary = feed(&mut diagnostics, 3, Instant::at(Duration::from_secs(105))).unwrap();
    assert_eq!(summary.counts.datagrams_received, 3);
    assert_eq!(summary.packet_ids, vec![(6, 3)]);
    assert!(summary.rejections.is_empty());
}

#[test]
fn distinct_headers_are_bounded() {
    let mut diagnostics = Diagnostics::default();
    for id in 0..40_u8 {
        let bytes = test_packet(id, HEADER_LEN, 0, 1);
        diagnostics.observe_datagram(&bytes);
        diagnostics.observe_datagram(&bytes);
    }
    assert_eq!(diagnostics.distinct_header_count(), 12);
    assert_eq!(diagnostics.packet_count(39), 2);
    assert!(diagnostics.has_room_for_datagram());
    assert!(diagnostics.has_room_for_result());
}

#[test]
fn stale_and_ignored_packets_are_counted_apart() {
    let mut diagnostics = Diagnostics::default();
    let mut router = router();
    for bytes in [
        test_telemetry_packet(0, 5),
        test_telemetry_packet(0, 5),
        test_packet(3, 100, 0, 5),
        test_packet(PACKET_CAR_STATUS, CAR_STATUS_PACKET_LEN, 0, 5),
    ] {
        let header = diagnostics.observe_datagram(&bytes);
        let result = router.decode(&bytes);
        diagnostics.observe_result(header, &result);
    }
    let counts = diagnostics.counts();
    assert_eq!(counts.normalized_frames, 1);
    assert_eq!(counts.stale_telemetry_frames, 1);
    assert_eq!(counts.ignored_packet_ids, 1);
    assert_eq!(counts.status_decoded, 1);
}

#[test]
fn drain_stops_at_its_bounds() {
    let mut router = router();
    let mut drain = DatagramDrain::new(2);
    let mut frame = 0;
    while drain.wants_datagram() {
        frame += 1;
        assert!(drain.accept(&mut router, &test_telemetry_packet(0, frame)).is_none());
    }
    assert_eq!(frame, 2);
    assert_eq!(drain.into_samples().len(), 2);

    let mut drain = DatagramDrain::new(usize::MAX);
    let mut handled = 0;
    while drain.wants_datagram() {
        handled += 1;
        let rejection = drain.accept(&mut router, &[0]).unwrap();
        assert_eq!(reject_reason(&rejection), RejectReason::HeaderField);
    }
    assert_eq!(handled, MAX_DATAGRAMS_PER_DRAIN);
    assert!(drain.into_samples().is_empty());
}

fn header(frame: u32, session_uid: u64) -> Header {
    let mut bytes = test_telemetry_packet(0, frame);
    bytes[7..15].copy_from_slice(&session_uid.to_le_bytes());
    parse_header(&bytes, 2026, &[26], 24).unwrap()
}

fn fields(throttle: f32) -> VehicleFields {
    VehicleFields {
        speed_kph: 180,
        throttle: f(throttle),
        steer: f(0.5),
        brake: f(0.0),
        clutch: 100,
        gear: -1,
        rpm: 9000,
        rev_lights: Some(RevLights { percent: 50, bit_value: 0x1f }),
    }
}

fn motion(slip: f32) -> MotionFields {
    MotionFields { wheel_slip_ratio: [f(slip); 4], ..MotionFields::default() }
}

fn push(state: &mut DecoderState, frame: u32, throttle: f32) -> Option<TelemetryData> {
    state.push_car(2025, header(frame, 1), fields(throttle)).unwrap()
}

#[test]
fn car_frames_wait_for_their_motion() {
    let mut state = DecoderState::default();
    state.observe_session(1);
    let first = push(&mut state, 1, 0.1).unwrap();
    assert_eq!(first.vehicle.wheel_slip, None);
    assert_eq!(first.vehicle.gear, -1);
    assert_eq!(first.vehicle.speed, f(180.0 / 3.6));
    assert_eq!(first.vehicle.steering_angle, f(90.0));
    assert_eq!(first.timestamp, 12_500);
    assert!(state.observe_motion(2025, &header(1, 1), motion(0.0)).unwrap().is_none());
    assert!(push(&mut state, 2, 0.2).is_none());
    let paired = state.observe_motion(2025, &header(2, 1), motion(-0.3)).unwrap().unwrap();
    assert_eq!(paired.vehicle.throttle, f(0.2));
    assert_eq!(paired.vehicle.wheel_slip, Some([f(-0.3); 4]));
    assert!(paired.vehicle.capabilities.wheel_slip);
}

#[test]
fn held_frame_is_emitted_when_its_motion_is_lost() {
    let mut state = DecoderState::default();
    state.observe_session(1);
    assert!(push(&mut state, 1, 0.1).is_some());
    state.observe_motion(2025, &header(1, 1), motion(0.0)).unwrap();
    assert!(push(&mut state, 2, 0.2).is_none());
    let late = push(&mut state, 3, 0.3).unwrap();
    assert_eq!(late.vehicle.throttle, f(0.2));
    assert_eq!(late.vehicle.wheel_slip, None);
}

#[test]
fn new_session_is_a_discontinuity() {
    let mut state = DecoderState::default();
    state.observe_session(1);
    assert!(!push(&mut state, 5, 0.1).unwrap().source.discontinuity);
    state.set_track_length(f(5000.0));
    state.observe_session(2);
    assert_eq!(state.track_length_m, None);
    let next = state.push_car(2025, header(1, 2), fields(0.2)).unwrap().unwrap();
    assert!(next.source.discontinuity);
    assert_eq!(next.source.session_uid, Some(2));
}

#[test]
fn track_position_is_a_part_of_the_lap() {
    let mut state = DecoderState::default();
    state.observe_session(1);
    state.set_track_length(f(4000.0));
    state.set_lap_distance(f(-1000.0));
    let data = push(&mut state, 1, 0.1).unwrap();
    assert_eq!(data.vehicle.track_position, f((-1000.0_f32 / 4000.0).rem_euclid(1.0)));
    assert!(data.vehicle.capabilities.track_position);
}

#[test]
fn assists_are_known_after_a_status_packet() {
    let mut state = DecoderState::default();
    state.observe_session(1);
    assert!(!state.assists_known);
    state.set_assists(1, 0).unwrap();
    assert!(state.assists_known);
    let data = push(&mut state, 1, 0.0).unwrap();
    assert_eq!(data.vehicle.assists.traction_control_level, Some(1));
    assert_eq!(data.vehicle.assists.abs_enabled, Some(false));
    assert!(!data.vehicle.capabilities.abs_activity);
    let error = state.set_assists(9, 9).unwrap_err();
    assert_eq!(reject_reason(&error), RejectReason::InvalidValue);
}
