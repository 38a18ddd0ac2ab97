//! Decoder for the F1 25 UDP format 2025.
use crate::f1::layout::{decode_packet, decoded, PacketLayout};
use crate::f1::protocol::{outcome, DecodeRejection};
use crate::f1::state::{fresh_state, DecoderState};
use crate::model::TelemetryData;
use vstd::prelude::*;

verus! {

pub const PACKET_FORMAT: u16 = 2025;

/// The game year of the format.
pub const GAME_YEAR: u8 = 25;

/// Decodes the packets of one 2025 stream. The packet sizes are configuration:
/// they come with the published structures of the game.
#[derive(Debug, Clone, Copy, PartialEq, Eq)]
pub struct Decoder {
    pub layout: PacketLayout,
    pub state: DecoderState,
}

impl Decoder {
    /// A decoder for the given packet sizes.
    pub fn new(layout: PacketLayout) -> (r: Self)
        ensures
            r.layout == layout,
            r.state == fresh_state(),
    {
        Decoder { layout, state: DecoderState::default() }
    }

    /// Decodes one datagram.
    pub fn decode(&mut self, bytes: &[u8]) -> (r: Result<Option<TelemetryData>, DecodeRejection>)
        requires
            old(self).layout.plausible(),
        ensures
            outcome(r, decoded(old(self).state, old(self).layout, seq![GAME_YEAR], bytes@).1),
            final(self).state == decoded(old(self).state, old(self).layout, seq![GAME_YEAR], bytes@).0,
            final(self).layout == old(self).layout,
    {
        let years: [u8; 1] = [GAME_YEAR];
        proof {
            assert(years@ =~= seq![GAME_YEAR]);
        }
        let layout = self.layout;
        decode_packet(&mut self.state, &layout, &years, bytes)
    }
}

} // verus!
