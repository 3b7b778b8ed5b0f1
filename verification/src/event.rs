//! The event model: what one captured input event is, and the error
//! taxonomy of the engine's phases.

use vstd::prelude::*;

verus! {

/// The semantic channel of an input event: a synchronization marker, a
/// relative-axis motion or an absolute-axis position, each with the sub-code
/// of the concrete axis or marker, or an unrecognized channel.
#[derive(Clone, Copy, Debug, PartialEq, Eq, Structural)]
pub enum EventClass {
    Synchronization(u16),
    RelativeAxis(u16),
    AbsoluteAxis(u16),
    Other,
}

/// One captured input event: its classification, its signed payload (axis
/// delta, absolute position or marker value) and the time it was observed,
/// in nanoseconds elapsed since the start of the capture session.
///
/// Records are immutable once created. Their `elapsed_nanos` stamps are
/// non-decreasing in capture order, but nothing downstream may assume a
/// stored log is sorted: the replay scheduler orders entries itself.
#[derive(Clone, Copy, Debug, PartialEq, Eq, Structural)]
pub struct EventRecord {
    pub classification: EventClass,
    pub value: i32,
    pub elapsed_nanos: u64,
}

/// The errors of the engine. Every one is fatal to the session in which it
/// arises: there is no retry and no partial-result salvage.
#[derive(Clone, Copy, Debug, PartialEq, Eq, Structural)]
pub enum EngineError {
    /// The physical input source could not be opened.
    SourceUnavailable,
    /// A read from the physical input source failed.
    PollError,
    /// A persisted byte buffer does not parse as a well-formed event log.
    CorruptData,
    /// The virtual emitter rejected an event.
    EmitError,
    /// The virtual device refused a write or is no longer available.
    DeviceWriteError,
    /// Persistent storage could not be created, read or written.
    StorageError,
}

} // verus!

