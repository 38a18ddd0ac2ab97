//! Bounded draining of a socket.
use crate::f1::protocol::DecodeRejection;
use crate::f1::router::ProtocolRouter;
use crate::model::TelemetryData;
use vstd::prelude::*;

verus! {

/// Datagrams handled in one drain at most.
pub const MAX_DATAGRAMS_PER_DRAIN: usize = 1024;

/// The progress of one drain.
#[derive(Debug)]
pub struct DatagramDrain {
    max_samples: usize,
    handled: usize,
    samples: Vec<TelemetryData>,
}

impl DatagramDrain {
    /// The most samples that are wanted.
    pub closed spec fn limit(&self) -> nat {
        self.max_samples as nat
    }

    /// The number of datagrams handled so far.
    pub closed spec fn handled(&self) -> nat {
        self.handled as nat
    }

    /// The samples so far, in the order of their datagrams.
    pub closed spec fn samples(&self) -> Seq<TelemetryData> {
        self.samples@
    }

    /// Whether another datagram is to be received.
    pub open spec fn unfinished(&self) -> bool {
        self.handled() < MAX_DATAGRAMS_PER_DRAIN && self.samples().len() < self.limit()
    }

    /// No drain handles or yields more than its bounds.
    pub open spec fn within_bounds(&self) -> bool {
        &&& self.handled() <= MAX_DATAGRAMS_PER_DRAIN
        &&& self.samples().len() <= self.limit()
        &&& self.samples().len() <= self.handled()
    }

    /// Starts a drain for at most `max_samples` samples.
    pub fn new(max_samples: usize) -> (r: Self)
        ensures
            r.limit() == max_samples,
            r.handled() == 0,
            r.samples() == Seq::<TelemetryData>::empty(),
            r.within_bounds(),
    {
        DatagramDrain { max_samples, handled: 0, samples: Vec::new() }
    }

    /// Whether another datagram is to be received.
    pub fn wants_datagram(&self) -> (r: bool)
        ensures
            r == self.unfinished(),
    {
        self.handled < MAX_DATAGRAMS_PER_DRAIN && self.samples.len() < self.max_samples
    }

    /// Takes the result of one received datagram. An invalid one is discarded
    /// and its rejection returned for the log.
    pub fn accept_result(&mut self, result: Result<Option<TelemetryData>, DecodeRejection>) -> (r: Option<
        DecodeRejection,
    >)
        requires
            old(self).unfinished(),
            old(self).within_bounds(),
        ensures
            final(self).limit() == old(self).limit(),
            final(self).handled() == old(self).handled() + 1,
            final(self).within_bounds(),
            match result {
                Ok(Some(frame)) => r is None && final(self).samples() == old(self).samples().push(frame),
                Ok(None) => r is None && final(self).samples() == old(self).samples(),
                Err(rejection) => r == Some(rejection) && final(self).samples() == old(self).samples(),
            },
    {
        self.handled = self.handled + 1;
        match result {
            Ok(Some(frame)) => {
                self.samples.push(frame);
                None
            },
            Ok(None) => None,
            Err(rejection) => Some(rejection),
        }
    }

    /// Decodes one received datagram and takes the result. An invalid datagram
    /// is discarded and its rejection returned for the log.
    pub fn accept(&mut self, router: &mut ProtocolRouter, bytes: &[u8]) -> (r: Option<DecodeRejection>)
        requires
            old(self).unfinished(),
            old(self).within_bounds(),
            old(router).f1_2025.layout.plausible(),
        ensures
            final(self).limit() == old(self).limit(),
            final(self).handled() == old(self).handled() + 1,
            final(self).within_bounds(),
            match old(router).routed(bytes@).result {
                Ok(Some(frame)) => r is None && final(self).samples() == old(self).samples().push(frame),
                Ok(None) => r is None && final(self).samples() == old(self).samples(),
                Err(rejected) => r is Some && r->0@ == rejected && final(self).samples() == old(self).samples(),
            },
            final(router).f1_2025.layout == old(router).f1_2025.layout,
            final(router).f1_2025.state == old(router).routed(bytes@).state_2025,
            final(router).f1_2026.state == old(router).routed(bytes@).state_2026,
    {
        self.accept_result(router.decode(bytes))
    }

    /// The samples of the drain.
    pub fn into_samples(self) -> (r: Vec<TelemetryData>)
        ensures
            r@ == self.samples(),
    {
        self.samples
    }
}

} // verus!
