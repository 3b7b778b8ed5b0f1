//! Capture, persist and replay a timestamped stream of pointer-device input
//! events. The library holds the event model, the binary persistence codec
//! with its round-trip guarantee, the replay scheduler (translation, stable
//! ordering by elapsed time, wall-clock pacing arithmetic) and the bounded
//! capture session. Device I/O lives outside the library and hands plain
//! values in and out.

pub mod capture;
pub mod codec;
pub mod event;
pub mod schedule;

pub use event::EngineError;
pub use event::EventClass;
pub use event::EventRecord;
