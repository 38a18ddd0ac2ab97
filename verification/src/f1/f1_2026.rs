//! Decoder for the native UDP layout of the F1 25: 2026 Season Pack.
use crate::f1::layout::{decode_packet, decoded, PacketLayout};
use crate::f1::protocol::{outcome, DecodeRejection};
use crate::f1::state::{fresh_state, DecoderState};
use crate::model::TelemetryData;
use vstd::prelude::*;

verus! {

pub const PACKET_FORMAT: u16 = 2026;

/// The game year of the published packet structures.
pub const GAME_YEAR: u8 = 26;

/// The game year that released builds send along with the 2026 format.
pub const LIVE_GAME_YEAR: u8 = 25;

pub const MAX_CARS: usize = 24;

pub const SESSION_PACKET_LEN: usize = 926;

pub const LAP_PACKET_LEN: usize = 1399;

pub const CAR_TELEMETRY_PACKET_LEN: usize = 1448;

pub const CAR_STATUS_PACKET_LEN: usize = 1445;

pub const LAP_DATA_LEN: usize = 57;

pub const CAR_TELEMETRY_DATA_LEN: usize = 59;

pub const CAR_STATUS_DATA_LEN: usize = 59;

/// The sizes of the 2026 format.
pub open spec fn layout_2026() -> PacketLayout {
    PacketLayout {
        packet_format: PACKET_FORMAT,
        max_cars: MAX_CARS,
        session_packet_len: SESSION_PACKET_LEN,
        lap_packet_len: LAP_PACKET_LEN,
        car_telemetry_packet_len: CAR_TELEMETRY_PACKET_LEN,
        car_status_packet_len: CAR_STATUS_PACKET_LEN,
        lap_data_len: LAP_DATA_LEN,
        car_telemetry_data_len: CAR_TELEMETRY_DATA_LEN,
        car_status_data_len: CAR_STATUS_DATA_LEN,
    }
}

/// The sizes of the 2026 format.
pub fn layout() -> (r: PacketLayout)
    ensures
        r == layout_2026(),
        r.complete(),
{
    PacketLayout {
        packet_format: PACKET_FORMAT,
        max_cars: MAX_CARS,
        session_packet_len: SESSION_PACKET_LEN,
        lap_packet_len: LAP_PACKET_LEN,
        car_telemetry_packet_len: CAR_TELEMETRY_PACKET_LEN,
        car_status_packet_len: CAR_STATUS_PACKET_LEN,
        lap_data_len: LAP_DATA_LEN,
        car_telemetry_data_len: CAR_TELEMETRY_DATA_LEN,
        car_status_data_len: CAR_STATUS_DATA_LEN,
    }
}

/// Decodes the packets of one 2026 stream.
#[derive(Debug, Clone, Copy, PartialEq, Eq)]
pub struct Decoder {
    pub state: DecoderState,
}

impl Default for Decoder {
    fn default() -> (r: Self)
        ensures
            r.state == fresh_state(),
    {
        Decoder { state: DecoderState::default() }
    }
}

impl Decoder {
    /// Decodes one datagram of the published 2026 structures.
    pub fn decode(&mut self, bytes: &[u8]) -> (r: Result<Option<TelemetryData>, DecodeRejection>)
        ensures
            outcome(r, decoded(old(self).state, layout_2026(), seq![GAME_YEAR], bytes@).1),
            final(self).state == decoded(old(self).state, layout_2026(), seq![GAME_YEAR], bytes@).0,
    {
        let years: [u8; 1] = [GAME_YEAR];
        proof {
            assert(years@ =~= seq![GAME_YEAR]);
        }
        decode_packet(&mut self.state, &layout(), &years, bytes)
    }

    /// Decodes one datagram whose format identifier has already selected this
    /// decoder. Released builds send the 2026 format with the previous game
    /// year, which is accepted here as well.
    pub fn decode_selected(&mut self, bytes: &[u8]) -> (r: Result<Option<TelemetryData>, DecodeRejection>)
        ensures
            outcome(r, decoded(old(self).state, layout_2026(), seq![LIVE_GAME_YEAR, GAME_YEAR], bytes@).1),
            final(self).state == decoded(old(self).state, layout_2026(), seq![LIVE_GAME_YEAR, GAME_YEAR], bytes@).0,
    {
        let years: [u8; 2] = [LIVE_GAME_YEAR, GAME_YEAR];
        proof {
            assert(years@ =~= seq![LIVE_GAME_YEAR, GAME_YEAR]);
        }
        decode_packet(&mut self.state, &layout(), &years, bytes)
    }
}

} // verus!
