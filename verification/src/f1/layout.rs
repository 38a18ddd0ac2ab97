//! Decoding of the packets that one protocol variant defines by its sizes.
use crate::arithmetic::whole;
use crate::binary32::Binary32;
use crate::f1::protocol::{
    f32_at, header_of, i8_at, item_offset, outcome, packet_check, parse_header, player_offset, read_f32,
    read_i8, read_u16, read_u8, rejection, require_packet, u16_at, u8_at, DecodeRejection, Header,
    RejectReason, Rejected, HEADER_LEN,
};
use crate::f1::state::{assist_check, DecoderState, VehicleFields};
use crate::model::TelemetryData;
use vstd::prelude::*;

verus! {

pub const PACKET_SESSION: u8 = 1;

pub const PACKET_LAP_DATA: u8 = 2;

pub const PACKET_CAR_TELEMETRY: u8 = 6;

pub const PACKET_CAR_STATUS: u8 = 7;

/// Longest per-car record that a layout may have.
pub const MAX_RECORD_LEN: usize = 65535;

/// Identity, packet sizes and per-car record sizes of one protocol variant.
#[derive(Debug, Clone, Copy, PartialEq, Eq, Structural)]
pub struct PacketLayout {
    pub packet_format: u16,
    pub max_cars: usize,
    pub session_packet_len: usize,
    pub lap_packet_len: usize,
    pub car_telemetry_packet_len: usize,
    pub car_status_packet_len: usize,
    pub lap_data_len: usize,
    pub car_telemetry_data_len: usize,
    pub car_status_data_len: usize,
}

impl PacketLayout {
    /// Whether the per-car records are of a length that fits a datagram.
    pub open spec fn plausible(self) -> bool {
        &&& self.lap_data_len <= MAX_RECORD_LEN
        &&& self.car_telemetry_data_len <= MAX_RECORD_LEN
        &&& self.car_status_data_len <= MAX_RECORD_LEN
    }

    /// Whether every packet is long enough for the records of all its cars,
    /// and every record for the fields that are read.
    pub open spec fn complete(self) -> bool {
        &&& self.plausible()
        &&& self.max_cars <= 256
        &&& HEADER_LEN + 6 <= self.session_packet_len
        &&& HEADER_LEN + self.max_cars * self.lap_data_len <= self.lap_packet_len
        &&& HEADER_LEN + self.max_cars * self.car_telemetry_data_len <= self.car_telemetry_packet_len
        &&& HEADER_LEN + self.max_cars * self.car_status_data_len <= self.car_status_packet_len
        &&& 24 <= self.lap_data_len
        &&& 18 <= self.car_telemetry_data_len
        &&& 2 <= self.car_status_data_len
    }
}

/// The player's CarTelemetry channels in the record at `base`.
pub open spec fn car_fields_at(bytes: Seq<u8>, base: int) -> Result<VehicleFields, Rejected> {
    match u16_at(bytes, base) {
        Err(rejected) => Err(rejected),
        Ok(speed_kph) => match f32_at(bytes, base + 2) {
            Err(rejected) => Err(rejected),
            Ok(throttle) => match f32_at(bytes, base + 6) {
                Err(rejected) => Err(rejected),
                Ok(steer) => match f32_at(bytes, base + 10) {
                    Err(rejected) => Err(rejected),
                    Ok(brake) => match u8_at(bytes, base + 14) {
                        Err(rejected) => Err(rejected),
                        Ok(clutch) => match i8_at(bytes, base + 15) {
                            Err(rejected) => Err(rejected),
                            Ok(gear) => match u16_at(bytes, base + 16) {
                                Err(rejected) => Err(rejected),
                                Ok(rpm) => Ok(
                                    VehicleFields {
                                        speed_kph,
                                        throttle,
                                        steer,
                                        brake,
                                        clutch,
                                        gear,
                                        rpm,
                                        rev_lights: None,
                                    },
                                ),
                            },
                        },
                    },
                },
            },
        },
    }
}

/// The result of a packet: the new state, and a frame or a rejection.
pub type Decoded = (DecoderState, Result<Option<TelemetryData>, Rejected>);

/// A packet is rejected and leaves the state as given.
pub open spec fn refused(state: DecoderState, rejected: Rejected) -> Decoded {
    (state, Err(rejected))
}

/// A session packet tells the track length.
pub open spec fn session_decoded(state: DecoderState, layout: PacketLayout, header: Header, bytes: Seq<u8>) -> Decoded {
    match packet_check(bytes, layout.session_packet_len, header.packet_version) {
        Err(rejected) => refused(state, rejected),
        Ok(_) => match u16_at(bytes, HEADER_LEN + 4) {
            Err(rejected) => refused(state, rejected),
            Ok(length) => (state.with_track_length(whole(length as nat)), Ok(None)),
        },
    }
}

/// A lap packet tells the player's distance along the lap.
pub open spec fn lap_decoded(state: DecoderState, layout: PacketLayout, header: Header, bytes: Seq<u8>) -> Decoded {
    match packet_check(bytes, layout.lap_packet_len, header.packet_version) {
        Err(rejected) => refused(state, rejected),
        Ok(_) => match item_offset(header.player_car_index, layout.lap_data_len) {
            Err(rejected) => refused(state, rejected),
            Ok(base) => match f32_at(bytes, base + 20) {
                Err(rejected) => refused(state, rejected),
                Ok(distance) => (state.with_lap_distance(distance), Ok(None)),
            },
        },
    }
}

/// A status packet tells the configured assists.
pub open spec fn status_decoded(state: DecoderState, layout: PacketLayout, header: Header, bytes: Seq<u8>) -> Decoded {
    match packet_check(bytes, layout.car_status_packet_len, header.packet_version) {
        Err(rejected) => refused(state, rejected),
        Ok(_) => match item_offset(header.player_car_index, layout.car_status_data_len) {
            Err(rejected) => refused(state, rejected),
            Ok(base) => match (u8_at(bytes, base as int), u8_at(bytes, base + 1)) {
                (Err(rejected), _) => refused(state, rejected),
                (_, Err(rejected)) => refused(state, rejected),
                (Ok(tc), Ok(abs)) => match assist_check(tc, abs) {
                    Err(rejected) => refused(state, rejected),
                    Ok(_) => (state.with_assists(tc, abs), Ok(None)),
                },
            },
        },
    }
}

/// A telemetry packet carries the player's channels.
pub open spec fn telemetry_decoded(state: DecoderState, layout: PacketLayout, header: Header, bytes: Seq<u8>) -> Decoded {
    match packet_check(bytes, layout.car_telemetry_packet_len, header.packet_version) {
        Err(rejected) => refused(state, rejected),
        Ok(_) => match item_offset(header.player_car_index, layout.car_telemetry_data_len) {
            Err(rejected) => refused(state, rejected),
            Ok(base) => match car_fields_at(bytes, base as int) {
                Err(rejected) => refused(state, rejected),
                Ok(fields) => if fields.finite() {
                    let (next, frame) = state.car_step(layout.packet_format, header, fields);
                    (next, Ok(frame))
                } else {
                    (state, rejection(RejectReason::InvalidValue, "non-finite F1 telemetry input"@))
                },
            },
        },
    }
}

/// What a datagram does: an acceptable header is noted with its session even
/// if the rest of the packet is rejected; packets of other kinds are ignored.
pub open spec fn decoded(state: DecoderState, layout: PacketLayout, accepted_game_years: Seq<u8>, bytes: Seq<u8>) -> Decoded {
    match header_of(bytes, layout.packet_format, accepted_game_years, layout.max_cars) {
        Err(rejected) => refused(state, rejected),
        Ok(header) => {
            let entered = state.in_session(header.session_uid);
            if header.packet_id == PACKET_SESSION {
                session_decoded(entered, layout, header, bytes)
            } else if header.packet_id == PACKET_LAP_DATA {
                lap_decoded(entered, layout, header, bytes)
            } else if header.packet_id == PACKET_CAR_STATUS {
                status_decoded(entered, layout, header, bytes)
            } else if header.packet_id == PACKET_CAR_TELEMETRY {
                telemetry_decoded(entered, layout, header, bytes)
            } else {
                (entered, Ok(None))
            }
        },
    }
}

fn read_car_fields(bytes: &[u8], base: usize) -> (r: Result<VehicleFields, DecodeRejection>)
    requires
        base + 16 <= usize::MAX,
    ensures
        outcome(r, car_fields_at(bytes@, base as int)),
{
    Ok(
        VehicleFields {
            speed_kph: read_u16(bytes, base)?,
            throttle: read_f32(bytes, base + 2)?,
            steer: read_f32(bytes, base + 6)?,
            brake: read_f32(bytes, base + 10)?,
            clutch: read_u8(bytes, base + 14)?,
            gear: read_i8(bytes, base + 15)?,
            rpm: read_u16(bytes, base + 16)?,
            rev_lights: None,
        },
    )
}

proof fn lemma_offset_is_small(index: usize, item_len: usize)
    requires
        index < 256,
        item_len <= MAX_RECORD_LEN,
    ensures
        HEADER_LEN + index * item_len + 64 <= usize::MAX,
        item_offset(index, item_len) == Ok::<usize, Rejected>((HEADER_LEN + index * item_len) as usize),
{
    assert(index * item_len <= 255 * 65535) by (nonlinear_arith)
        requires
            index <= 255,
            item_len <= 65535,
    ;
}

/// Decodes one datagram.
pub fn decode_packet(state: &mut DecoderState, layout: &PacketLayout, accepted_game_years: &[u8], bytes: &[u8]) -> (r:
    Result<Option<TelemetryData>, DecodeRejection>)
    requires
        layout.plausible(),
    ensures
        outcome(r, decoded(*old(state), *layout, accepted_game_years@, bytes@).1),
        *final(state) == decoded(*old(state), *layout, accepted_game_years@, bytes@).0,
{
    let header = parse_header(bytes, layout.packet_format, accepted_game_years, layout.max_cars)?;
    state.observe_session(header.session_uid);
    proof {
        lemma_offset_is_small(header.player_car_index, layout.lap_data_len);
        lemma_offset_is_small(header.player_car_index, layout.car_status_data_len);
        lemma_offset_is_small(header.player_car_index, layout.car_telemetry_data_len);
    }
    if header.packet_id == PACKET_SESSION {
        require_packet(bytes, layout.session_packet_len, header.packet_version)?;
        let length: u16 = read_u16(bytes, HEADER_LEN + 4)?;
        state.set_track_length(Binary32::from_u64(length as u64));
        Ok(None)
    } else if header.packet_id == PACKET_LAP_DATA {
        require_packet(bytes, layout.lap_packet_len, header.packet_version)?;
        let base: usize = player_offset(header.player_car_index, layout.lap_data_len)?;
        let distance = read_f32(bytes, base + 20)?;
        state.set_lap_distance(distance);
        Ok(None)
    } else if header.packet_id == PACKET_CAR_STATUS {
        require_packet(bytes, layout.car_status_packet_len, header.packet_version)?;
        let base: usize = player_offset(header.player_car_index, layout.car_status_data_len)?;
        let tc: u8 = read_u8(bytes, base)?;
        let abs: u8 = read_u8(bytes, base + 1)?;
        state.set_assists(tc, abs)?;
        Ok(None)
    } else if header.packet_id == PACKET_CAR_TELEMETRY {
        require_packet(bytes, layout.car_telemetry_packet_len, header.packet_version)?;
        let base: usize = player_offset(header.player_car_index, layout.car_telemetry_data_len)?;
        let fields = read_car_fields(bytes, base)?;
        state.push_car(layout.packet_format, header, fields)
    } else {
        Ok(None)
    }
}

} // verus!
