//! What an encoder hands to the publisher.

use vstd::prelude::*;

verus! {

/// A span of time since the start of the stream: whole seconds and the
/// nanoseconds of the second begun.
#[derive(Clone, Copy, Debug, PartialEq, Eq, Structural)]
pub struct Timestamp {
    pub secs: u64,
    pub nanos: u32,
}

impl Timestamp {
    /// The nanoseconds stay below one second.
    pub open spec fn wf(self) -> bool {
        self.nanos < 1_000_000_000
    }

    /// The span in nanoseconds.
    pub open spec fn as_nanos(self) -> nat {
        (self.secs * 1_000_000_000 + self.nanos) as nat
    }

    /// The span of `millis` milliseconds.
    pub fn from_millis(millis: u64) -> (t: Timestamp)
        ensures
            t.wf(),
            t.as_nanos() == millis * 1_000_000,
            t.secs == millis / 1000,
    {
        let rest: u32 = (millis % 1000) as u32;
        Timestamp { secs: millis / 1000, nanos: rest * 1_000_000 }
    }

    /// The span of `micros` microseconds.
    pub fn from_micros(micros: u64) -> (t: Timestamp)
        ensures
            t.wf(),
            t.as_nanos() == micros * 1000,
    {
        let rest: u32 = (micros % 1_000_000) as u32;
        Timestamp { secs: micros / 1_000_000, nanos: rest * 1000 }
    }

    /// Whether this span is shorter than `other`.
    pub fn is_less_than(&self, other: &Timestamp) -> (less: bool)
        requires
            self.wf(),
            other.wf(),
        ensures
            less == (self.as_nanos() < other.as_nanos()),
    {
        self.secs < other.secs || (self.secs == other.secs && self.nanos < other.nanos)
    }

    /// What is left of this span when `other` is taken away, or `None`
    /// where `other` is the longer one.
    pub fn checked_sub(&self, other: &Timestamp) -> (rest: Option<Timestamp>)
        requires
            self.wf(),
            other.wf(),
        ensures
            rest is Some <==> self.as_nanos() >= other.as_nanos(),
            rest is Some ==> rest->0.wf() && rest->0.as_nanos() == self.as_nanos()
                - other.as_nanos(),
    {
        if self.is_less_than(other) {
            return None;
        }
        if self.nanos >= other.nanos {
            Some(Timestamp { secs: self.secs - other.secs, nanos: self.nanos - other.nanos })
        } else {
            Some(
                Timestamp {
                    secs: self.secs - other.secs - 1,
                    nanos: self.nanos + 1_000_000_000 - other.nanos,
                },
            )
        }
    }

    /// The whole seconds of the span.
    pub fn as_secs(&self) -> (secs: u64)
        ensures
            secs == self.secs,
    {
        self.secs
    }
}

/// One encoded picture: its bytes, its place in time and whether a decoder
/// can start from it.
#[derive(Clone, Debug)]
pub struct EncodedFrame {
    pub data: Vec<u8>,
    pub timestamp: Timestamp,
    pub is_keyframe: bool,
}

} // verus!
