use event_replay::capture::CaptureSession;
use event_replay::codec::decode;
use event_replay::codec::encode;
use event_replay::event::EngineError;
use event_replay::event::EventClass;
use event_replay::event::EventRecord;
use event_replay::schedule::build_schedule;
use event_replay::schedule::center_cursor_events;
use event_replay::schedule::emission_delay;
use event_replay::schedule::translate;
use event_replay::schedule::EmitKind;

const MS: u64 = 1_000_000;

fn rec(classification: EventClass, value: i32, elapsed_nanos: u64) -> EventRecord {
    EventRecord {
        classification,
        value,
        elapsed_nanos,
    }
}

#[test]
fn round_trip_empty_log() {
    let log: Vec<EventRecord> = Vec::new();
    let bytes = encode(&log);
    assert_eq!(bytes, vec![0x45, 0x56, 1, 0, 0, 0, 0, 0, 0, 0, 0]);
    let back = decode(&bytes).unwrap();
    assert_eq!(back, log);
}

#[test]
fn round_trip_mixed_log() {
    let log = vec![
        rec(EventClass::Synchronization(0), 0, 10 * MS),
        rec(EventClass::RelativeAxis(0), 5, 12 * MS),
        rec(EventClass::RelativeAxis(1), -3, 12 * MS),
        rec(EventClass::AbsoluteAxis(1), i32::MIN, 13 * MS),
        rec(EventClass::AbsoluteAxis(0), i32::MAX, 14 * MS),
        rec(EventClass::Other, -1, u64::MAX),
        rec(EventClass::Synchronization(1), -2147483647, 0),
    ];
    let bytes = encode(&log);
    let back = decode(&bytes).unwrap();
    assert_eq!(back, log);
}

#[test]
fn encode_single_record_exact_bytes() {
    let log = vec![rec(EventClass::Synchronization(0), 0, 10 * MS)];
    let bytes = encode(&log);
    // 10 ms = 10_000_000 ns = 0x98_96_80
    assert_eq!(
        bytes,
        vec![
            0x45, 0x56, 1, // magic, version
            1, 0, 0, 0, 0, 0, 0, 0, // record count
            0, // tag: synchronization
            0, 0, // code
            0, // sign: non-negative
            0, 0, 0, 0, // magnitude
            0x80, 0x96, 0x98, 0, 0, 0, 0, 0, // elapsed nanoseconds
        ]
    );
}

#[test]
fn decode_truncated_buffer_fails() {
    let log = vec![
        rec(EventClass::RelativeAxis(0), 5, 12 * MS),
        rec(EventClass::RelativeAxis(1), -3, 12 * MS),
    ];
    let mut bytes = encode(&log);
    // cut mid-record
    bytes.truncate(bytes.len() - 7);
    assert_eq!(decode(&bytes), Err(EngineError::CorruptData));
}

#[test]
fn decode_empty_buffer_fails() {
    let bytes: Vec<u8> = Vec::new();
    assert_eq!(decode(&bytes), Err(EngineError::CorruptData));
}

#[test]
fn decode_bad_magic_fails() {
    let log = vec![rec(EventClass::Synchronization(0), 0, 0)];
    let mut bytes = encode(&log);
    bytes[0] = 0x46;
    assert_eq!(decode(&bytes), Err(EngineError::CorruptData));
}

#[test]
fn decode_bad_tag_fails() {
    let log = vec![rec(EventClass::Synchronization(0), 0, 0)];
    let mut bytes = encode(&log);
    bytes[11] = 9;
    assert_eq!(decode(&bytes), Err(EngineError::CorruptData));
}

#[test]
fn decode_trailing_bytes_fail() {
    let log = vec![rec(EventClass::Synchronization(0), 0, 0)];
    let mut bytes = encode(&log);
    bytes.push(0);
    assert_eq!(decode(&bytes), Err(EngineError::CorruptData));
}

#[test]
fn decode_wrong_version_fails() {
    let log = vec![rec(EventClass::Synchronization(0), 0, 0)];
    let mut bytes = encode(&log);
    bytes[2] = 2;
    assert_eq!(decode(&bytes), Err(EngineError::CorruptData));
}

#[test]
fn decode_bad_sign_byte_fails() {
    let log = vec![rec(EventClass::Synchronization(0), 0, 0)];
    let mut bytes = encode(&log);
    // the payload's sign byte sits after tag and code
    bytes[14] = 5;
    assert_eq!(decode(&bytes), Err(EngineError::CorruptData));
}

#[test]
fn decode_negative_zero_fails() {
    let log = vec![rec(EventClass::Synchronization(0), 0, 0)];
    let mut bytes = encode(&log);
    // a negative sign with magnitude zero is a form no encoder produces
    bytes[14] = 1;
    assert_eq!(decode(&bytes), Err(EngineError::CorruptData));
}

#[test]
fn decode_length_prefix_mismatch_fails() {
    let log = vec![rec(EventClass::Synchronization(0), 0, 0)];
    let mut bytes = encode(&log);
    // claim two records while holding one
    bytes[3] = 2;
    assert_eq!(decode(&bytes), Err(EngineError::CorruptData));
}

#[test]
fn stable_order_under_ties() {
    // two entries with identical elapsed stamps, in log order [a, b]
    let log = vec![
        rec(EventClass::RelativeAxis(0), 5, 12 * MS),
        rec(EventClass::RelativeAxis(1), -3, 12 * MS),
    ];
    let schedule = build_schedule(&log);
    assert_eq!(schedule.len(), 2);
    assert_eq!(schedule[0].event.code, 0);
    assert_eq!(schedule[0].event.value, 5);
    assert_eq!(schedule[1].event.code, 1);
    assert_eq!(schedule[1].event.value, -3);
}

#[test]
fn schedule_is_sorted_by_elapsed() {
    let log = vec![
        rec(EventClass::RelativeAxis(0), 1, 30 * MS),
        rec(EventClass::RelativeAxis(0), 2, 10 * MS),
        rec(EventClass::RelativeAxis(0), 3, 20 * MS),
        rec(EventClass::RelativeAxis(0), 4, 10 * MS),
    ];
    let schedule = build_schedule(&log);
    assert_eq!(schedule.len(), 4);
    for i in 0..schedule.len() - 1 {
        assert!(schedule[i].elapsed_nanos <= schedule[i + 1].elapsed_nanos);
    }
    // ties at 10 ms keep log order: value 2 before value 4
    assert_eq!(schedule[0].event.value, 2);
    assert_eq!(schedule[1].event.value, 4);
    assert_eq!(schedule[2].event.value, 3);
    assert_eq!(schedule[3].event.value, 1);
}

#[test]
fn other_classification_is_dropped_silently() {
    assert_eq!(translate(&rec(EventClass::Other, 7, 5 * MS)), None);
    let log = vec![
        rec(EventClass::RelativeAxis(0), 5, 10 * MS),
        rec(EventClass::Other, 7, 11 * MS),
        rec(EventClass::RelativeAxis(1), -3, 12 * MS),
    ];
    let schedule = build_schedule(&log);
    assert_eq!(schedule.len(), 2);
    assert_eq!(schedule[0].event.code, 0);
    assert_eq!(schedule[1].event.code, 1);
}

#[test]
fn three_record_capture_replays_in_order() {
    // capture log [{Sync,0,0,10ms}, {Rel X,+5,12ms}, {Rel Y,-3,12ms}]
    let log = vec![
        rec(EventClass::Synchronization(0), 0, 10 * MS),
        rec(EventClass::RelativeAxis(0), 5, 12 * MS),
        rec(EventClass::RelativeAxis(1), -3, 12 * MS),
    ];
    let schedule = build_schedule(&log);
    // replay with a zero-delay clock: every wait elapses instantly, so the
    // emitter sees one call per entry, in schedule order
    let mut emitted: Vec<(EmitKind, u16, i32)> = Vec::new();
    let mut now: u64 = 0;
    for entry in &schedule {
        now += emission_delay(now, entry);
        emitted.push((entry.event.kind, entry.event.code, entry.event.value));
    }
    assert_eq!(
        emitted,
        vec![
            (EmitKind::Synchronization, 0, 0),
            (EmitKind::RelativeAxis, 0, 5),
            (EmitKind::RelativeAxis, 1, -3),
        ]
    );
    assert_eq!(now, 12 * MS);
}

#[test]
fn late_entry_emits_immediately_without_rebasing() {
    let a = rec(EventClass::RelativeAxis(0), 1, 12 * MS);
    let b = rec(EventClass::RelativeAxis(0), 2, 20 * MS);
    let schedule = build_schedule(&vec![a, b]);
    // replay fell behind: 15 ms have passed before the 12 ms entry is due
    let now = 15 * MS;
    assert_eq!(emission_delay(now, &schedule[0]), 0);
    // the next wait is measured from the original 20 ms target, not from a
    // re-based schedule: 5 ms, not 8 ms
    assert_eq!(emission_delay(now, &schedule[1]), 5 * MS);
}

#[test]
fn emission_delay_waits_to_original_target() {
    let entry = rec(EventClass::Synchronization(0), 0, 10 * MS);
    let schedule = build_schedule(&vec![entry]);
    assert_eq!(emission_delay(0, &schedule[0]), 10 * MS);
    assert_eq!(emission_delay(10 * MS, &schedule[0]), 0);
    assert_eq!(emission_delay(9 * MS, &schedule[0]), MS);
}

#[test]
fn capture_session_appends_in_arrival_order() {
    let mut session = CaptureSession::new(5_000 * MS);
    assert!(!session.past_deadline(0));
    session.observe(EventClass::RelativeAxis(0), 5, 10 * MS);
    session.observe(EventClass::RelativeAxis(1), -3, 12 * MS);
    // the deadline check is strict: exactly the limit does not stop capture
    assert!(!session.past_deadline(5_000 * MS));
    assert!(session.past_deadline(5_000 * MS + 1));
    let log = session.into_log();
    assert_eq!(
        log,
        vec![
            rec(EventClass::RelativeAxis(0), 5, 10 * MS),
            rec(EventClass::RelativeAxis(1), -3, 12 * MS),
        ]
    );
}

#[test]
fn captured_log_survives_persistence_and_schedules() {
    let mut session = CaptureSession::new(5_000 * MS);
    session.observe(EventClass::Synchronization(0), 0, 10 * MS);
    session.observe(EventClass::RelativeAxis(0), 5, 12 * MS);
    let log = session.into_log();
    let restored = decode(&encode(&log)).unwrap();
    assert_eq!(restored, log);
    let schedule = build_schedule(&restored);
    assert_eq!(schedule.len(), 2);
    assert_eq!(schedule[0].elapsed_nanos, 10 * MS);
    assert_eq!(schedule[1].elapsed_nanos, 12 * MS);
}

#[test]
fn center_cursor_event_burst() {
    let events = center_cursor_events(16456, 11243);
    assert_eq!(events.len(), 3);
    assert_eq!(events[0].kind, EmitKind::AbsoluteAxis);
    assert_eq!(events[0].code, 0);
    assert_eq!(events[0].value, 16456);
    assert_eq!(events[1].kind, EmitKind::AbsoluteAxis);
    assert_eq!(events[1].code, 1);
    assert_eq!(events[1].value, 11243);
    assert_eq!(events[2].kind, EmitKind::Synchronization);
    assert_eq!(events[2].code, 0);
    assert_eq!(events[2].value, 0);
}
