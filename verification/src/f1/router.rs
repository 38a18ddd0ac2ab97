//! Selection of a decoder by the format identifier of each datagram.
use crate::f1::f1_2025;
use crate::f1::f1_2026;
use crate::f1::layout::{decoded, PacketLayout};
use crate::f1::protocol::{
    format_of, outcome, packet_format, reject, rejection, DecodeRejection, RejectReason, Rejected,
};
use crate::f1::state::{fresh_state, DecoderState};
use crate::model::TelemetryData;
use crate::text::{decimal, decimal_text};
use vstd::prelude::*;
use vstd::string::*;

verus! {

/// One decoder per protocol variant.
#[derive(Debug, Clone, Copy, PartialEq, Eq)]
pub struct ProtocolRouter {
    pub f1_2025: f1_2025::Decoder,
    pub f1_2026: f1_2026::Decoder,
}

/// The states of both decoders after a datagram, and a frame or a rejection.
pub struct Routed {
    pub state_2025: DecoderState,
    pub state_2026: DecoderState,
    pub result: Result<Option<TelemetryData>, Rejected>,
}

impl ProtocolRouter {
    /// What a datagram does: its format identifier selects the decoder, and
    /// the other decoder is not touched.
    pub open spec fn routed(self, bytes: Seq<u8>) -> Routed {
        match format_of(bytes) {
            Err(rejected) => Routed {
                state_2025: self.f1_2025.state,
                state_2026: self.f1_2026.state,
                result: Err(rejected),
            },
            Ok(format) => if format == f1_2025::PACKET_FORMAT {
                let (state, result) = decoded(
                    self.f1_2025.state,
                    self.f1_2025.layout,
                    seq![f1_2025::GAME_YEAR],
                    bytes,
                );
                Routed { state_2025: state, state_2026: self.f1_2026.state, result }
            } else if format == f1_2026::PACKET_FORMAT {
                let (state, result) = decoded(
                    self.f1_2026.state,
                    f1_2026::layout_2026(),
                    seq![f1_2026::LIVE_GAME_YEAR, f1_2026::GAME_YEAR],
                    bytes,
                );
                Routed { state_2025: self.f1_2025.state, state_2026: state, result }
            } else {
                Routed {
                    state_2025: self.f1_2025.state,
                    state_2026: self.f1_2026.state,
                    result: rejection(RejectReason::Other, "unsupported F1 UDP format "@ + decimal(format as nat)),
                }
            },
        }
    }

    /// A router without history, for the given sizes of the 2025 format.
    pub fn new(layout_2025: PacketLayout) -> (r: Self)
        ensures
            r.f1_2025.layout == layout_2025,
            r.f1_2025.state == fresh_state(),
            r.f1_2026.state == fresh_state(),
    {
        ProtocolRouter { f1_2025: f1_2025::Decoder::new(layout_2025), f1_2026: f1_2026::Decoder::default() }
    }

    /// Decodes one datagram with the decoder of its format.
    pub fn decode(&mut self, bytes: &[u8]) -> (r: Result<Option<TelemetryData>, DecodeRejection>)
        requires
            old(self).f1_2025.layout.plausible(),
        ensures
            outcome(r, old(self).routed(bytes@).result),
            final(self).f1_2025.state == old(self).routed(bytes@).state_2025,
            final(self).f1_2026.state == old(self).routed(bytes@).state_2026,
            final(self).f1_2025.layout == old(self).f1_2025.layout,
    {
        let format: u16 = packet_format(bytes)?;
        if format == f1_2025::PACKET_FORMAT {
            self.f1_2025.decode(bytes)
        } else if format == f1_2026::PACKET_FORMAT {
            self.f1_2026.decode_selected(bytes)
        } else {
            let mut detail = "unsupported F1 UDP format ".to_owned();
            detail.append(decimal_text(format as u64).as_str());
            Err(reject(RejectReason::Other, detail))
        }
    }
}

} // verus!
