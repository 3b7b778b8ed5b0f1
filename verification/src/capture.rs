//! The capture session: the in-memory log being built during one bounded
//! capture run. The caller polls the physical source, stamps each observed
//! event with the time elapsed since the session started, and hands the
//! classification, payload and stamp here; the session decides when the
//! duration limit has been reached.

use vstd::prelude::*;

use crate::event::EventClass;
use crate::event::EventRecord;

verus! {

/// One bounded capture run: the duration limit it was started with and the
/// ordered log of records observed so far, in arrival order.
pub struct CaptureSession {
    limit_nanos: u64,
    log: Vec<EventRecord>,
}

impl CaptureSession {
    /// The duration limit this session was started with, in nanoseconds.
    pub closed spec fn spec_limit_nanos(self) -> u64 {
        self.limit_nanos
    }

    /// The log recorded so far, in arrival order.
    pub closed spec fn spec_log(self) -> Seq<EventRecord> {
        self.log@
    }

    /// Start a capture session with the given wall-clock duration limit.
    pub fn new(limit_nanos: u64) -> (s: CaptureSession)
        ensures
            s.spec_limit_nanos() == limit_nanos,
            s.spec_log() == Seq::<EventRecord>::empty(),
    {
        let s = CaptureSession { limit_nanos, log: Vec::new() };
        proof {
            assert(s.spec_log() =~= Seq::<EventRecord>::empty());
        }
        s
    }

    /// Whether the session's duration limit has been exceeded at the given
    /// elapsed time. The capture loop checks this once per polling iteration
    /// and stops at the first check past the limit.
    pub fn past_deadline(&self, elapsed_nanos: u64) -> (b: bool)
        ensures
            b == (elapsed_nanos > self.spec_limit_nanos()),
    {
        elapsed_nanos > self.limit_nanos
    }

    /// Append one observed event, stamped with the elapsed time at which it
    /// was observed, to the log. Records are appended in arrival order and
    /// never altered afterwards.
    pub fn observe(&mut self, classification: EventClass, value: i32, elapsed_nanos: u64)
        ensures
            final(self).spec_limit_nanos() == old(self).spec_limit_nanos(),
            final(self).spec_log() == old(self).spec_log().push(
                EventRecord { classification, value, elapsed_nanos },
            ),
    {
        self.log.push(EventRecord { classification, value, elapsed_nanos });
    }

    /// End the session and hand the completed log over, in arrival order.
    pub fn into_log(self) -> (log: Vec<EventRecord>)
        ensures
            log@ == self.spec_log(),
    {
        self.log
    }
}

/// The duration bound on capture: the loop stops at the first poll check past
/// the limit, so the session's total elapsed time at exit is at least the
/// limit, and exceeds it by no more than the span between the last in-limit
/// check and the exit check — one polling iteration.
pub proof fn lemma_capture_duration_bound(limit_nanos: u64, prev_check: u64, exit_check: u64)
    requires
        prev_check <= limit_nanos,
        exit_check > limit_nanos,
    ensures
        exit_check >= limit_nanos,
        exit_check - limit_nanos <= exit_check - prev_check,
{
}

} // verus!
