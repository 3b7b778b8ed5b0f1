//! The persistence codec: a deterministic, lossless binary form of an event
//! log. The layout is a three-byte header (two magic bytes and a format
//! version), a little-endian record count, then one fixed-width record per
//! event: a classification tag, the axis/marker code, the payload as a sign
//! byte plus magnitude, and the elapsed nanoseconds. `decode` accepts exactly
//! the buffers that `encode` produces; everything else is `CorruptData`.

use vstd::prelude::*;

use crate::event::EngineError;
use crate::event::EventClass;
use crate::event::EventRecord;

verus! {

pub const MAGIC_0: u8 = 0x45;

pub const MAGIC_1: u8 = 0x56;

pub const FORMAT_VERSION: u8 = 1;

pub const TAG_SYNCHRONIZATION: u8 = 0;

pub const TAG_RELATIVE: u8 = 1;

pub const TAG_ABSOLUTE: u8 = 2;

pub const TAG_OTHER: u8 = 3;

// --- Little-endian integer layout -------------------------------------

pub open spec fn spec_u16_le(v: u16) -> Seq<u8> {
    seq![(v & 0xff) as u8, ((v >> 8) & 0xff) as u8]
}

pub open spec fn spec_u32_le(v: u32) -> Seq<u8> {
    seq![
        (v & 0xff) as u8,
        ((v >> 8) & 0xff) as u8,
        ((v >> 16) & 0xff) as u8,
        ((v >> 24) & 0xff) as u8,
    ]
}

pub open spec fn spec_u64_le(v: u64) -> Seq<u8> {
    seq![
        (v & 0xff) as u8,
        ((v >> 8) & 0xff) as u8,
        ((v >> 16) & 0xff) as u8,
        ((v >> 24) & 0xff) as u8,
        ((v >> 32) & 0xff) as u8,
        ((v >> 40) & 0xff) as u8,
        ((v >> 48) & 0xff) as u8,
        ((v >> 56) & 0xff) as u8,
    ]
}

pub open spec fn spec_u16_from_le(b0: u8, b1: u8) -> u16 {
    (b0 as u16) | ((b1 as u16) << 8)
}

pub open spec fn spec_u32_from_le(b0: u8, b1: u8, b2: u8, b3: u8) -> u32 {
    (b0 as u32) | ((b1 as u32) << 8) | ((b2 as u32) << 16) | ((b3 as u32) << 24)
}

pub open spec fn spec_u64_from_le(
    b0: u8,
    b1: u8,
    b2: u8,
    b3: u8,
    b4: u8,
    b5: u8,
    b6: u8,
    b7: u8,
) -> u64 {
    (b0 as u64) | ((b1 as u64) << 8) | ((b2 as u64) << 16) | ((b3 as u64) << 24) | ((b4
        as u64) << 32) | ((b5 as u64) << 40) | ((b6 as u64) << 48) | ((b7 as u64) << 56)
}

proof fn lemma_mask_byte_u16(x: u16)
    by (bit_vector)
    ensures
        x & 0xff < 256,
{
}

proof fn lemma_mask_byte_u32(x: u32)
    by (bit_vector)
    ensures
        x & 0xff < 256,
{
}

proof fn lemma_mask_byte_u64(x: u64)
    by (bit_vector)
    ensures
        x & 0xff < 256,
{
}

/// Reassembling the two little-endian bytes of a `u16` gives the value back.
proof fn lemma_u16_le_round_trip(v: u16)
    by (bit_vector)
    ensures
        spec_u16_from_le((v & 0xff) as u8, ((v >> 8) & 0xff) as u8) == v,
{
}

/// Reassembling the four little-endian bytes of a `u32` gives the value back.
proof fn lemma_u32_le_round_trip(v: u32)
    by (bit_vector)
    ensures
        spec_u32_from_le(
            (v & 0xff) as u8,
            ((v >> 8) & 0xff) as u8,
            ((v >> 16) & 0xff) as u8,
            ((v >> 24) & 0xff) as u8,
        ) == v,
{
}

/// Reassembling the eight little-endian bytes of a `u64` gives the value back.
proof fn lemma_u64_le_round_trip(v: u64)
    by (bit_vector)
    ensures
        spec_u64_from_le(
            (v & 0xff) as u8,
            ((v >> 8) & 0xff) as u8,
            ((v >> 16) & 0xff) as u8,
            ((v >> 24) & 0xff) as u8,
            ((v >> 32) & 0xff) as u8,
            ((v >> 40) & 0xff) as u8,
            ((v >> 48) & 0xff) as u8,
            ((v >> 56) & 0xff) as u8,
        ) == v,
{
}

// --- Record and log layout ---------------------------------------------

pub open spec fn spec_class_tag(c: EventClass) -> u8 {
    match c {
        EventClass::Synchronization(_) => TAG_SYNCHRONIZATION,
        EventClass::RelativeAxis(_) => TAG_RELATIVE,
        EventClass::AbsoluteAxis(_) => TAG_ABSOLUTE,
        EventClass::Other => TAG_OTHER,
    }
}

pub open spec fn spec_class_code(c: EventClass) -> u16 {
    match c {
        EventClass::Synchronization(code) => code,
        EventClass::RelativeAxis(code) => code,
        EventClass::AbsoluteAxis(code) => code,
        EventClass::Other => 0,
    }
}

/// The payload's sign byte: 1 for a negative value, else 0.
pub open spec fn spec_value_sign(v: i32) -> u8 {
    if v < 0 {
        1
    } else {
        0
    }
}

/// The payload's magnitude, which fits a `u32` even for `i32::MIN`.
pub open spec fn spec_value_mag(v: i32) -> u32 {
    if v < 0 {
        (-(v as int)) as u32
    } else {
        v as u32
    }
}

/// One record's sixteen bytes: tag, code, sign, magnitude, elapsed time.
pub open spec fn spec_record_bytes(r: EventRecord) -> Seq<u8> {
    seq![spec_class_tag(r.classification)] + spec_u16_le(spec_class_code(r.classification))
        + seq![spec_value_sign(r.value)] + spec_u32_le(spec_value_mag(r.value)) + spec_u64_le(
        r.elapsed_nanos,
    )
}

pub open spec fn spec_encode_records(log: Seq<EventRecord>) -> Seq<u8>
    decreases log.len(),
{
    if log.len() == 0 {
        Seq::empty()
    } else {
        spec_record_bytes(log[0]) + spec_encode_records(log.skip(1))
    }
}

/// The encoded form of a whole log: magic bytes, format version, record
/// count, then the records in order.
pub open spec fn spec_encode(log: Seq<EventRecord>) -> Seq<u8> {
    seq![MAGIC_0, MAGIC_1, FORMAT_VERSION] + spec_u64_le(log.len() as u64) + spec_encode_records(
        log,
    )
}

proof fn lemma_encode_records_snoc(s: Seq<EventRecord>, r: EventRecord)
    ensures
        spec_encode_records(s.push(r)) == spec_encode_records(s) + spec_record_bytes(r),
    decreases s.len(),
{
    if s.len() == 0 {
        assert(s.push(r).skip(1) =~= Seq::<EventRecord>::empty());
        assert(s.push(r)[0] == r);
        assert(spec_encode_records(s.push(r)) == spec_record_bytes(r) + spec_encode_records(
            Seq::<EventRecord>::empty(),
        ));
        assert(spec_record_bytes(r) + Seq::<u8>::empty() =~= Seq::<u8>::empty()
            + spec_record_bytes(r));
    } else {
        assert(s.push(r).skip(1) =~= s.skip(1).push(r));
        lemma_encode_records_snoc(s.skip(1), r);
        assert(s.push(r)[0] == s[0]);
        assert(spec_encode_records(s.push(r)) == spec_record_bytes(s[0]) + (spec_encode_records(
            s.skip(1),
        ) + spec_record_bytes(r)));
        assert(spec_record_bytes(s[0]) + (spec_encode_records(s.skip(1)) + spec_record_bytes(r))
            =~= (spec_record_bytes(s[0]) + spec_encode_records(s.skip(1))) + spec_record_bytes(r));
        assert(spec_encode_records(s) == spec_record_bytes(s[0]) + spec_encode_records(s.skip(1)));
    }
}

fn push_u16_le(out: &mut Vec<u8>, v: u16)
    ensures
        final(out)@ == old(out)@ + spec_u16_le(v),
{
    proof {
        lemma_mask_byte_u16(v);
        lemma_mask_byte_u16(v >> 8);
    }
    out.push((v & 0xff) as u8);
    out.push(((v >> 8) & 0xff) as u8);
    proof {
        assert(out@ =~= old(out)@ + spec_u16_le(v));
    }
}

fn push_u32_le(out: &mut Vec<u8>, v: u32)
    ensures
        final(out)@ == old(out)@ + spec_u32_le(v),
{
    proof {
        lemma_mask_byte_u32(v);
        lemma_mask_byte_u32(v >> 8);
        lemma_mask_byte_u32(v >> 16);
        lemma_mask_byte_u32(v >> 24);
    }
    out.push((v & 0xff) as u8);
    out.push(((v >> 8) & 0xff) as u8);
    out.push(((v >> 16) & 0xff) as u8);
    out.push(((v >> 24) & 0xff) as u8);
    proof {
        assert(out@ =~= old(out)@ + spec_u32_le(v));
    }
}

fn push_u64_le(out: &mut Vec<u8>, v: u64)
    ensures
        final(out)@ == old(out)@ + spec_u64_le(v),
{
    proof {
        lemma_mask_byte_u64(v);
        lemma_mask_byte_u64(v >> 8);
        lemma_mask_byte_u64(v >> 16);
        lemma_mask_byte_u64(v >> 24);
        lemma_mask_byte_u64(v >> 32);
        lemma_mask_byte_u64(v >> 40);
        lemma_mask_byte_u64(v >> 48);
        lemma_mask_byte_u64(v >> 56);
    }
    out.push((v & 0xff) as u8);
    out.push(((v >> 8) & 0xff) as u8);
    out.push(((v >> 16) & 0xff) as u8);
    out.push(((v >> 24) & 0xff) as u8);
    out.push(((v >> 32) & 0xff) as u8);
    out.push(((v >> 40) & 0xff) as u8);
    out.push(((v >> 48) & 0xff) as u8);
    out.push(((v >> 56) & 0xff) as u8);
    proof {
        assert(out@ =~= old(out)@ + spec_u64_le(v));
    }
}

fn read_u16_le(b: &Vec<u8>, pos: usize) -> (v: u16)
    requires
        pos + 2 <= b@.len(),
    ensures
        v == spec_u16_from_le(b@[pos as int], b@[pos as int + 1]),
{
    // the call pins b@.len() at a machine word, so the index sums below cannot overflow
    let _blen: usize = b.len();
    (b[pos] as u16) | ((b[pos + 1] as u16) << 8)
}

fn read_u32_le(b: &Vec<u8>, pos: usize) -> (v: u32)
    requires
        pos + 4 <= b@.len(),
    ensures
        v == spec_u32_from_le(
            b@[pos as int],
            b@[pos as int + 1],
            b@[pos as int + 2],
            b@[pos as int + 3],
        ),
{
    // the call pins b@.len() at a machine word, so the index sums below cannot overflow
    let _blen: usize = b.len();
    (b[pos] as u32) | ((b[pos + 1] as u32) << 8) | ((b[pos + 2] as u32) << 16) | ((b[pos + 3]
        as u32) << 24)
}

fn read_u64_le(b: &Vec<u8>, pos: usize) -> (v: u64)
    requires
        pos + 8 <= b@.len(),
    ensures
        v == spec_u64_from_le(
            b@[pos as int],
            b@[pos as int + 1],
            b@[pos as int + 2],
            b@[pos as int + 3],
            b@[pos as int + 4],
            b@[pos as int + 5],
            b@[pos as int + 6],
            b@[pos as int + 7],
        ),
{
    // the call pins b@.len() at a machine word, so the index sums below cannot overflow
    let _blen: usize = b.len();
    (b[pos] as u64) | ((b[pos + 1] as u64) << 8) | ((b[pos + 2] as u64) << 16) | ((b[pos + 3]
        as u64) << 24) | ((b[pos + 4] as u64) << 32) | ((b[pos + 5] as u64) << 40) | ((b[pos + 6]
        as u64) << 48) | ((b[pos + 7] as u64) << 56)
}

fn push_record(out: &mut Vec<u8>, r: &EventRecord)
    ensures
        final(out)@ == old(out)@ + spec_record_bytes(*r),
{
    let (tag, code): (u8, u16) = match r.classification {
        EventClass::Synchronization(code) => (TAG_SYNCHRONIZATION, code),
        EventClass::RelativeAxis(code) => (TAG_RELATIVE, code),
        EventClass::AbsoluteAxis(code) => (TAG_ABSOLUTE, code),
        EventClass::Other => (TAG_OTHER, 0u16),
    };
    out.push(tag);
    push_u16_le(out, code);
    let v = r.value;
    if v < 0 {
        out.push(1u8);
        let mag: u32 = (-(v as i64)) as u32;
        assert(mag == spec_value_mag(v));
        push_u32_le(out, mag);
    } else {
        out.push(0u8);
        push_u32_le(out, v as u32);
    }
    push_u64_le(out, r.elapsed_nanos);
    proof {
        assert(out@ =~= old(out)@ + spec_record_bytes(*r));
    }
}

/// Serialize the ordered log of event records to its byte-buffer form.
pub fn encode(log: &Vec<EventRecord>) -> (out: Vec<u8>)
    ensures
        out@ == spec_encode(log@),
{
    let mut out: Vec<u8> = Vec::new();
    out.push(MAGIC_0);
    out.push(MAGIC_1);
    out.push(FORMAT_VERSION);
    push_u64_le(&mut out, log.len() as u64);
    let ghost header = seq![MAGIC_0, MAGIC_1, FORMAT_VERSION] + spec_u64_le(log@.len() as u64);
    proof {
        assert(out@ =~= header);
    }
    let mut i: usize = 0;
    while i < log.len()
        invariant
            i <= log@.len(),
            out@ == header + spec_encode_records(log@.take(i as int)),
        decreases log@.len() - i,
    {
        push_record(&mut out, &log[i]);
        proof {
            lemma_encode_records_snoc(log@.take(i as int), log@[i as int]);
            assert(log@.take(i as int + 1) =~= log@.take(i as int).push(log@[i as int]));
        }
        i = i + 1;
    }
    proof {
        assert(log@.take(log@.len() as int) =~= log@);
    }
    out
}

// --- Decoding ------------------------------------------------------------

pub open spec fn spec_decode_class(tag: u8, code: u16) -> Option<EventClass> {
    if tag == TAG_SYNCHRONIZATION {
        Some(EventClass::Synchronization(code))
    } else if tag == TAG_RELATIVE {
        Some(EventClass::RelativeAxis(code))
    } else if tag == TAG_ABSOLUTE {
        Some(EventClass::AbsoluteAxis(code))
    } else if tag == TAG_OTHER && code == 0 {
        Some(EventClass::Other)
    } else {
        None
    }
}

/// The payload read back from its sign byte and magnitude; `None` for the
/// non-canonical forms no encoder produces (an out-of-range magnitude, a
/// negative zero, a sign byte other than 0 or 1).
pub open spec fn spec_decode_value(sign: u8, mag: u32) -> Option<i32> {
    if sign == 0 {
        if mag <= 0x7fff_ffff {
            Some(mag as i32)
        } else {
            None
        }
    } else if sign == 1 {
        if 1 <= mag && mag <= 0x8000_0000 {
            Some((-(mag as int)) as i32)
        } else {
            None
        }
    } else {
        None
    }
}

/// One record parsed from exactly sixteen bytes.
pub open spec fn spec_decode_record(b: Seq<u8>) -> Option<EventRecord> {
    match spec_decode_class(b[0], spec_u16_from_le(b[1], b[2])) {
        Some(c) => match spec_decode_value(b[3], spec_u32_from_le(b[4], b[5], b[6], b[7])) {
            Some(v) => Some(
                EventRecord {
                    classification: c,
                    value: v,
                    elapsed_nanos: spec_u64_from_le(
                        b[8],
                        b[9],
                        b[10],
                        b[11],
                        b[12],
                        b[13],
                        b[14],
                        b[15],
                    ),
                },
            ),
            None => None,
        },
        None => None,
    }
}

/// Exactly `n` records parsed from `b`, consuming the whole buffer, or
/// `None` where the bytes are not that.
pub open spec fn spec_decode_records(b: Seq<u8>, n: nat) -> Option<Seq<EventRecord>>
    decreases n,
{
    if n == 0 {
        if b.len() == 0 {
            Some(Seq::empty())
        } else {
            None
        }
    } else if b.len() < 16 {
        None
    } else {
        match spec_decode_record(b.take(16)) {
            Some(r) => match spec_decode_records(b.skip(16), (n - 1) as nat) {
                Some(rest) => Some(seq![r] + rest),
                None => None,
            },
            None => None,
        }
    }
}

/// The log whose encoding is `b`, or `None` where `b` is not a well-formed
/// encoded log (wrong magic or version, bad tag, truncated buffer, a record
/// count that does not match the bytes).
pub open spec fn spec_decode(b: Seq<u8>) -> Option<Seq<EventRecord>> {
    if b.len() < 11 {
        None
    } else if b[0] != MAGIC_0 || b[1] != MAGIC_1 || b[2] != FORMAT_VERSION {
        None
    } else {
        spec_decode_records(
            b.skip(11),
            spec_u64_from_le(b[3], b[4], b[5], b[6], b[7], b[8], b[9], b[10]) as nat,
        )
    }
}

/// Deserialize a byte buffer back into the event log it encodes.
///
/// Succeeds exactly on the buffers that are a well-formed encoded log, and
/// fails with `CorruptData` on every other buffer, returning no partial log.
pub fn decode(bytes: &Vec<u8>) -> (r: Result<Vec<EventRecord>, EngineError>)
    ensures
        match r {
            Ok(log) => spec_decode(bytes@) == Some(log@),
            Err(e) => e == EngineError::CorruptData && spec_decode(bytes@) is None,
        },
{
    if bytes.len() < 11 {
        return Err(EngineError::CorruptData);
    }
    if bytes[0] != MAGIC_0 || bytes[1] != MAGIC_1 || bytes[2] != FORMAT_VERSION {
        return Err(EngineError::CorruptData);
    }
    let n: u64 = read_u64_le(bytes, 3);
    let mut acc: Vec<EventRecord> = Vec::new();
    let mut pos: usize = 11;
    let mut k: u64 = 0;
    proof {
        assert(acc@ + spec_decode_records(bytes@.skip(11), n as nat).unwrap() =~= spec_decode_records(
            bytes@.skip(11),
            n as nat,
        ).unwrap());
    }
    while k < n
        invariant
            11 <= pos <= bytes@.len(),
            k <= n,
            match spec_decode_records(bytes@.skip(pos as int), (n - k) as nat) {
                Some(rest) => spec_decode(bytes@) == Some(acc@ + rest),
                None => spec_decode(bytes@) is None,
            },
        decreases n - k,
    {
        if bytes.len() - pos < 16 {
            return Err(EngineError::CorruptData);
        }
        let tag = bytes[pos];
        let code = read_u16_le(bytes, pos + 1);
        let sign = bytes[pos + 3];
        let mag = read_u32_le(bytes, pos + 4);
        let elapsed = read_u64_le(bytes, pos + 8);
        let ghost rb = bytes@.skip(pos as int).take(16);
        proof {
            assert(forall|j: int| 0 <= j < 16 ==> rb[j] == bytes@[pos as int + j]);
        }
        let classification: EventClass = if tag == TAG_SYNCHRONIZATION {
            EventClass::Synchronization(code)
        } else if tag == TAG_RELATIVE {
            EventClass::RelativeAxis(code)
        } else if tag == TAG_ABSOLUTE {
            EventClass::AbsoluteAxis(code)
        } else if tag == TAG_OTHER && code == 0 {
            EventClass::Other
        } else {
            proof {
                assert(spec_decode_record(rb) is None);
            }
            return Err(EngineError::CorruptData);
        };
        let value: i32 = if sign == 0 {
            if mag <= 0x7fff_ffff {
                mag as i32
            } else {
                proof {
                    assert(spec_decode_record(rb) is None);
                }
                return Err(EngineError::CorruptData);
            }
        } else if sign == 1 {
            if 1 <= mag && mag <= 0x8000_0000 {
                (-(mag as i64)) as i32
            } else {
                proof {
                    assert(spec_decode_record(rb) is None);
                }
                return Err(EngineError::CorruptData);
            }
        } else {
            proof {
                assert(spec_decode_record(rb) is None);
            }
            return Err(EngineError::CorruptData);
        };
        let rec = EventRecord { classification, value, elapsed_nanos: elapsed };
        proof {
            assert(spec_decode_record(rb) == Some(rec));
            assert(bytes@.skip(pos as int).skip(16) =~= bytes@.skip(pos as int + 16));
            let rest_opt = spec_decode_records(bytes@.skip(pos as int + 16), (n - k - 1) as nat);
            if rest_opt is Some {
                assert(acc@ + (seq![rec] + rest_opt.unwrap()) =~= acc@.push(rec)
                    + rest_opt.unwrap());
            }
        }
        acc.push(rec);
        pos = pos + 16;
        k = k + 1;
    }
    if pos != bytes.len() {
        proof {
            assert(bytes@.skip(pos as int).len() != 0);
        }
        return Err(EngineError::CorruptData);
    }
    proof {
        assert(bytes@.skip(pos as int) =~= Seq::<u8>::empty());
        assert(acc@ + Seq::<EventRecord>::empty() =~= acc@);
    }
    Ok(acc)
}

// --- The round-trip law ----------------------------------------------------

proof fn lemma_record_round_trip(r: EventRecord)
    ensures
        spec_record_bytes(r).len() == 16,
        spec_decode_record(spec_record_bytes(r)) == Some(r),
{
    let b = spec_record_bytes(r);
    let code = spec_class_code(r.classification);
    let mag = spec_value_mag(r.value);
    lemma_u16_le_round_trip(code);
    lemma_u32_le_round_trip(mag);
    lemma_u64_le_round_trip(r.elapsed_nanos);
    assert(b[0] == spec_class_tag(r.classification));
    assert(b[1] == (code & 0xff) as u8 && b[2] == ((code >> 8) & 0xff) as u8);
    assert(b[3] == spec_value_sign(r.value));
    assert(spec_u16_from_le(b[1], b[2]) == code);
    assert(spec_u32_from_le(b[4], b[5], b[6], b[7]) == mag);
    assert(spec_u64_from_le(b[8], b[9], b[10], b[11], b[12], b[13], b[14], b[15])
        == r.elapsed_nanos);
    assert(spec_decode_class(spec_class_tag(r.classification), code) == Some(r.classification));
    assert(spec_decode_value(spec_value_sign(r.value), mag) == Some(r.value));
}

proof fn lemma_decode_encode_records(log: Seq<EventRecord>)
    ensures
        spec_decode_records(spec_encode_records(log), log.len()) == Some(log),
    decreases log.len(),
{
    if log.len() == 0 {
        assert(log =~= Seq::<EventRecord>::empty());
    } else {
        let b = spec_encode_records(log);
        lemma_record_round_trip(log[0]);
        assert(b.take(16) =~= spec_record_bytes(log[0]));
        assert(b.skip(16) =~= spec_encode_records(log.skip(1)));
        lemma_decode_encode_records(log.skip(1));
        assert(seq![log[0]] + log.skip(1) =~= log);
    }
}

/// Splitting a `u16` into its little-endian bytes undoes reassembly.
proof fn lemma_u16_le_of_from(b0: u8, b1: u8)
    by (bit_vector)
    ensures
        (spec_u16_from_le(b0, b1) & 0xff) as u8 == b0,
        ((spec_u16_from_le(b0, b1) >> 8) & 0xff) as u8 == b1,
{
}

/// Splitting a `u32` into its little-endian bytes undoes reassembly.
proof fn lemma_u32_le_of_from(b0: u8, b1: u8, b2: u8, b3: u8)
    by (bit_vector)
    ensures
        (spec_u32_from_le(b0, b1, b2, b3) & 0xff) as u8 == b0,
        ((spec_u32_from_le(b0, b1, b2, b3) >> 8) & 0xff) as u8 == b1,
        ((spec_u32_from_le(b0, b1, b2, b3) >> 16) & 0xff) as u8 == b2,
        ((spec_u32_from_le(b0, b1, b2, b3) >> 24) & 0xff) as u8 == b3,
{
}

/// Splitting a `u64` into its little-endian bytes undoes reassembly.
proof fn lemma_u64_le_of_from(b0: u8, b1: u8, b2: u8, b3: u8, b4: u8, b5: u8, b6: u8, b7: u8)
    by (bit_vector)
    ensures
        (spec_u64_from_le(b0, b1, b2, b3, b4, b5, b6, b7) & 0xff) as u8 == b0,
        ((spec_u64_from_le(b0, b1, b2, b3, b4, b5, b6, b7) >> 8) & 0xff) as u8 == b1,
        ((spec_u64_from_le(b0, b1, b2, b3, b4, b5, b6, b7) >> 16) & 0xff) as u8 == b2,
        ((spec_u64_from_le(b0, b1, b2, b3, b4, b5, b6, b7) >> 24) & 0xff) as u8 == b3,
        ((spec_u64_from_le(b0, b1, b2, b3, b4, b5, b6, b7) >> 32) & 0xff) as u8 == b4,
        ((spec_u64_from_le(b0, b1, b2, b3, b4, b5, b6, b7) >> 40) & 0xff) as u8 == b5,
        ((spec_u64_from_le(b0, b1, b2, b3, b4, b5, b6, b7) >> 48) & 0xff) as u8 == b6,
        ((spec_u64_from_le(b0, b1, b2, b3, b4, b5, b6, b7) >> 56) & 0xff) as u8 == b7,
{
}

proof fn lemma_record_decode_strict(b: Seq<u8>)
    requires
        b.len() == 16,
        spec_decode_record(b) is Some,
    ensures
        spec_record_bytes(spec_decode_record(b).unwrap()) == b,
{
    let r = spec_decode_record(b).unwrap();
    let code = spec_u16_from_le(b[1], b[2]);
    let mag = spec_u32_from_le(b[4], b[5], b[6], b[7]);
    lemma_u16_le_of_from(b[1], b[2]);
    lemma_u32_le_of_from(b[4], b[5], b[6], b[7]);
    lemma_u64_le_of_from(b[8], b[9], b[10], b[11], b[12], b[13], b[14], b[15]);
    assert(spec_class_tag(r.classification) == b[0]);
    assert(spec_class_code(r.classification) == code);
    assert(spec_value_sign(r.value) == b[3]);
    assert(spec_value_mag(r.value) == mag);
    assert(spec_record_bytes(r) =~= b);
}

proof fn lemma_records_decode_strict(b: Seq<u8>, n: nat)
    requires
        spec_decode_records(b, n) is Some,
    ensures
        spec_encode_records(spec_decode_records(b, n).unwrap()) == b,
        spec_decode_records(b, n).unwrap().len() == n,
    decreases n,
{
    let l = spec_decode_records(b, n).unwrap();
    if n == 0 {
        assert(b =~= Seq::<u8>::empty());
    } else {
        lemma_record_decode_strict(b.take(16));
        lemma_records_decode_strict(b.skip(16), (n - 1) as nat);
        let r = spec_decode_record(b.take(16)).unwrap();
        let rest = spec_decode_records(b.skip(16), (n - 1) as nat).unwrap();
        assert(l == seq![r] + rest);
        assert(l[0] == r);
        assert(l.skip(1) =~= rest);
        assert(spec_encode_records(l) == spec_record_bytes(r) + spec_encode_records(rest));
        assert(spec_record_bytes(r) + spec_encode_records(rest) =~= b.take(16) + b.skip(16));
        assert(b.take(16) + b.skip(16) =~= b);
    }
}

/// The codec is strict: every buffer that decodes at all is, byte for byte,
/// the encoding of the log it decodes to. With the round-trip law this says
/// a buffer decodes to a log exactly when it is that log's encoding.
pub proof fn lemma_codec_strict(b: Seq<u8>)
    requires
        spec_decode(b) is Some,
    ensures
        spec_encode(spec_decode(b).unwrap()) == b,
{
    let l = spec_decode(b).unwrap();
    let n = spec_u64_from_le(b[3], b[4], b[5], b[6], b[7], b[8], b[9], b[10]);
    lemma_records_decode_strict(b.skip(11), n as nat);
    lemma_u64_le_of_from(b[3], b[4], b[5], b[6], b[7], b[8], b[9], b[10]);
    assert(l.len() == n as nat);
    assert(l.len() as u64 == n);
    assert(spec_encode_records(l) == b.skip(11));
    assert(spec_encode(l) =~= b);
}

/// The round-trip law of the persistence codec: decoding the encoding of any
/// event log gives that log back, entry for entry and in order.
pub proof fn lemma_codec_round_trip(log: Seq<EventRecord>)
    requires
        log.len() <= u64::MAX,
    ensures
        spec_decode(spec_encode(log)) == Some(log),
{
    let b = spec_encode(log);
    let n = log.len() as u64;
    lemma_u64_le_round_trip(n);
    assert(b[0] == MAGIC_0 && b[1] == MAGIC_1 && b[2] == FORMAT_VERSION);
    assert(b[3] == (n & 0xff) as u8);
    assert(spec_u64_from_le(b[3], b[4], b[5], b[6], b[7], b[8], b[9], b[10]) == n);
    assert(b.skip(11) =~= spec_encode_records(log));
    lemma_decode_encode_records(log);
    assert(n as nat == log.len());
}

} // verus!
