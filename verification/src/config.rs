//! Settings of one streaming session.

use vstd::prelude::*;

verus! {

/// Sample rate setting that leaves the choice to the backend.
pub const BACKEND_RATE: u32 = 0;

/// Buffer size announced to the receiver unless another is asked for.
pub const DEFAULT_BUFFER: u16 = 2048;

/// What the command line configures.
pub struct Args {
    /// Sample rate to ask the backend for; zero asks for none.
    pub rate: u32,
    /// Buffer size of the receiver, repeated in every announcement.
    pub buffer: u16,
    /// Address of the receiver, as `host:port`.
    pub address: String,
}

impl Args {
    /// The sample rate to ask the backend for: `None` where the setting is
    /// zero, which leaves the rate to the backend.
    pub fn requested_rate(&self) -> (rate: Option<u32>)
        ensures
            rate == if self.rate == BACKEND_RATE {
                None
            } else {
                Some(self.rate)
            },
    {
        if self.rate == BACKEND_RATE {
            None
        } else {
            Some(self.rate)
        }
    }

    /// The sample rate of the session where the backend takes whatever it is
    /// given: the configured rate, or `fallback` where none is configured.
    pub fn rate_or(&self, fallback: u32) -> (rate: u32)
        ensures
            rate == if self.rate == BACKEND_RATE {
                fallback
            } else {
                self.rate
            },
    {
        match self.requested_rate() {
            Some(rate) => rate,
            None => fallback,
        }
    }
}

} // verus!
