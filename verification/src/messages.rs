//! The integers that carry the protocol's messages between processes.
use vstd::prelude::*;
use crate::tree::Signal;

verus! {

/// The message that tells a listening process that the round is over.
pub const STOP_CODE: i32 = 2;

/// The integer that carries a signal: 0 for the token, 1 for a request.
pub open spec fn signal_code(s: Signal) -> i32 {
    match s {
        Signal::Marker => 0,
        Signal::Request => 1,
    }
}

/// The signal that an integer carries, if any.
pub open spec fn decoded(code: i32) -> Option<Signal> {
    if code == 0 {
        Some(Signal::Marker)
    } else if code == 1 {
        Some(Signal::Request)
    } else {
        None
    }
}

impl Signal {
    /// The integer sent for this signal.
    pub fn code(self) -> (c: i32)
        ensures
            c == signal_code(self),
    {
        match self {
            Signal::Marker => 0,
            Signal::Request => 1,
        }
    }

    /// The signal that a received integer carries; `None` for any other
    /// integer, `STOP_CODE` among them.
    pub fn decode(code: i32) -> (s: Option<Signal>)
        ensures
            s == decoded(code),
    {
        match code {
            0 => Some(Signal::Marker),
            1 => Some(Signal::Request),
            _ => None,
        }
    }
}

/// Every signal comes back from its code, and the stop code carries none.
pub proof fn law_codes_round_trip(s: Signal)
    ensures
        decoded(signal_code(s)) == Some(s),
        decoded(STOP_CODE) is None,
        signal_code(s) != STOP_CODE,
{
}

} // verus!
