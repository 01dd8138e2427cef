//! The binary record codec.
//!
//! An entry is encoded as a self-describing sequence of tagged fields and
//! zero-padded to exactly [`SERIALIZED_ENTRY_SIZE`] bytes.  The first byte
//! of a slot is a framing byte: zero means "no record here" (the untouched
//! tail of a pre-allocated region), one means a record follows.  A value is
//! a tag byte followed by either two little-endian `u64` words (`start` and
//! `len` of a data-file reference) or one little-endian 128-bit word (an
//! inline integer); both forms take seventeen bytes, so a `Put` record
//! needs 36 bytes and a `Remove` 19, well inside a 64-byte slot.

use vstd::prelude::*;

use crate::entry::file;
use crate::entry::file::SERIALIZED_ENTRY_SIZE;
use crate::error::Error;

verus! {

/// The serialized form of one value: a tag byte, then the fields.
pub open spec fn spec_encode_value(v: file::Value) -> Seq<u8> {
    match v {
        file::Value::String { start, len } => seq![0u8] + vstd::bytes::spec_u64_to_le_bytes(start)
            + vstd::bytes::spec_u64_to_le_bytes(len),
        file::Value::Integer { value } => seq![1u8] + vstd::bytes::spec_u128_to_le_bytes(
            value as u128,
        ),
    }
}

/// The serialized form of one entry, before framing and padding.
pub open spec fn spec_encode_entry(e: file::Entry) -> Seq<u8> {
    match e {
        file::Entry::Put { key, value } => seq![0u8] + spec_encode_value(key) + spec_encode_value(
            value,
        ),
        file::Entry::Remove { key } => seq![1u8] + spec_encode_value(key),
    }
}

/// A full slot: the framing byte, the entry if there is one, and zero
/// padding up to the fixed slot size.
pub open spec fn spec_encode_slot(e: Option<file::Entry>) -> Seq<u8> {
    match e {
        Some(e) => (seq![1u8] + spec_encode_entry(e)) + Seq::new(
            (SERIALIZED_ENTRY_SIZE - 1 - spec_encode_entry(e).len()) as nat,
            |i: int| 0u8,
        ),
        None => Seq::new(SERIALIZED_ENTRY_SIZE as nat, |i: int| 0u8),
    }
}

/// Decodes the seventeen-byte serialized form of a value; `None` on an
/// unknown tag.
pub open spec fn spec_decode_value(s: Seq<u8>) -> Option<file::Value>
    recommends
        s.len() == 17,
{
    if s[0] == 0u8 {
        Some(
            file::Value::String {
                start: vstd::bytes::spec_u64_from_le_bytes(s.subrange(1, 9)),
                len: vstd::bytes::spec_u64_from_le_bytes(s.subrange(9, 17)),
            },
        )
    } else if s[0] == 1u8 {
        Some(
            file::Value::Integer {
                value: vstd::bytes::spec_u128_from_le_bytes(s.subrange(1, 17)) as i128,
            },
        )
    } else {
        None
    }
}

/// Decodes one slot.  The outer `Option` is `None` on a malformed slot;
/// the inner one is `None` when the framing byte marks the slot absent.
pub open spec fn spec_decode_slot(s: Seq<u8>) -> Option<Option<file::Entry>>
    recommends
        s.len() == SERIALIZED_ENTRY_SIZE,
{
    if s[0] == 0u8 {
        Some(None)
    } else if s[0] == 1u8 {
        if s[1] == 0u8 {
            match (spec_decode_value(s.subrange(2, 19)), spec_decode_value(s.subrange(19, 36))) {
                (Some(key), Some(value)) => Some(Some(file::Entry::Put { key, value })),
                _ => None,
            }
        } else if s[1] == 1u8 {
            match spec_decode_value(s.subrange(2, 19)) {
                Some(key) => Some(Some(file::Entry::Remove { key })),
                _ => None,
            }
        } else {
            None
        }
    } else {
        None
    }
}

proof fn lemma_i128_u128_round_trip(x: i128)
    ensures
        (x as u128) as i128 == x,
{
    assert((x as u128) as i128 == x) by (bit_vector);
}

/// The encoded form of a value is seventeen bytes and decodes back to it.
pub proof fn lemma_value_round_trip(v: file::Value)
    ensures
        spec_encode_value(v).len() == 17,
        spec_decode_value(spec_encode_value(v)) == Some(v),
{
    vstd::bytes::lemma_auto_spec_u64_to_from_le_bytes();
    vstd::bytes::lemma_auto_spec_u128_to_from_le_bytes();
    match v {
        file::Value::String { start, len } => {
            let s = spec_encode_value(v);
            assert(s.subrange(1, 9) =~= vstd::bytes::spec_u64_to_le_bytes(start));
            assert(s.subrange(9, 17) =~= vstd::bytes::spec_u64_to_le_bytes(len));
        },
        file::Value::Integer { value } => {
            let s = spec_encode_value(v);
            assert(s.subrange(1, 17) =~= vstd::bytes::spec_u128_to_le_bytes(value as u128));
            lemma_i128_u128_round_trip(value);
        },
    }
}

/// An encoded slot is exactly one slot long and decodes back to the entry
/// it was made from.
pub proof fn lemma_slot_round_trip(e: file::Entry)
    ensures
        spec_encode_slot(Some(e)).len() == SERIALIZED_ENTRY_SIZE,
        spec_decode_slot(spec_encode_slot(Some(e))) == Some(Some(e)),
{
    let s = spec_encode_slot(Some(e));
    match e {
        file::Entry::Put { key, value } => {
            lemma_value_round_trip(key);
            lemma_value_round_trip(value);
            assert(s.subrange(2, 19) =~= spec_encode_value(key));
            assert(s.subrange(19, 36) =~= spec_encode_value(value));
        },
        file::Entry::Remove { key } => {
            lemma_value_round_trip(key);
            assert(s.subrange(2, 19) =~= spec_encode_value(key));
        },
    }
}

/// The bytes of slot `p` in a log.
pub open spec fn spec_slot_at(log: Seq<u8>, p: int) -> Seq<u8> {
    log.subrange(p * SERIALIZED_ENTRY_SIZE, p * SERIALIZED_ENTRY_SIZE + SERIALIZED_ENTRY_SIZE)
}

/// The records a sequential scan of `log` yields from slot `p` on.  The
/// scan stops at the end of the file, at the first absent slot, and at the
/// first slot it cannot decode.
pub open spec fn spec_records_from(log: Seq<u8>, p: int) -> Seq<file::Entry>
    decreases log.len() - p * SERIALIZED_ENTRY_SIZE,
{
    if p < 0 || p * SERIALIZED_ENTRY_SIZE + SERIALIZED_ENTRY_SIZE > log.len() {
        Seq::empty()
    } else {
        match spec_decode_slot(spec_slot_at(log, p)) {
            Some(Some(e)) => seq![e] + spec_records_from(log, p + 1),
            _ => Seq::empty(),
        }
    }
}

/// The records a sequential scan of the whole log yields.
pub open spec fn spec_records(log: Seq<u8>) -> Seq<file::Entry> {
    spec_records_from(log, 0)
}

/// `log` stores exactly the records `recs`: slot `p` holds the encoding of
/// `recs[p]` for every `p`, and the scan stops right after them, either at
/// the end of the file or at an absent slot.
pub open spec fn log_holds(log: Seq<u8>, recs: Seq<file::Entry>) -> bool {
    &&& log.len() >= recs.len() * SERIALIZED_ENTRY_SIZE
    &&& forall|p: int|
        0 <= p < recs.len() ==> spec_decode_slot(#[trigger] spec_slot_at(log, p)) == Some(
            Some(recs[p]),
        )
    &&& (log.len() < recs.len() * SERIALIZED_ENTRY_SIZE + SERIALIZED_ENTRY_SIZE
        || spec_decode_slot(spec_slot_at(log, recs.len() as int)) == Some(None::<file::Entry>))
}

proof fn lemma_records_from_holds(log: Seq<u8>, recs: Seq<file::Entry>, p: int)
    requires
        log_holds(log, recs),
        0 <= p <= recs.len(),
    ensures
        spec_records_from(log, p) == recs.skip(p),
    decreases recs.len() - p,
{
    if p == recs.len() {
        assert(recs.skip(p) =~= Seq::empty());
    } else {
        lemma_records_from_holds(log, recs, p + 1);
        assert(spec_records_from(log, p) =~= recs.skip(p));
    }
}

/// A log that stores exactly `recs` scans to exactly `recs`.
pub proof fn lemma_records_of(log: Seq<u8>, recs: Seq<file::Entry>)
    requires
        log_holds(log, recs),
    ensures
        spec_records(log) == recs,
{
    lemma_records_from_holds(log, recs, 0);
    assert(recs.skip(0) =~= recs);
}

/// Appending an encoded slot to a gap-free log appends its record.
pub proof fn lemma_log_append(log: Seq<u8>, recs: Seq<file::Entry>, e: file::Entry)
    requires
        log_holds(log, recs),
        log.len() == recs.len() * SERIALIZED_ENTRY_SIZE,
    ensures
        log_holds(log + spec_encode_slot(Some(e)), recs.push(e)),
        (log + spec_encode_slot(Some(e))).len() == recs.push(e).len() * SERIALIZED_ENTRY_SIZE,
        spec_records(log + spec_encode_slot(Some(e))) == recs.push(e),
{
    lemma_slot_round_trip(e);
    let log2 = log + spec_encode_slot(Some(e));
    let n = recs.len() as int;
    assert forall|p: int| 0 <= p < n + 1 implies spec_decode_slot(#[trigger] spec_slot_at(log2, p))
        == Some(Some(recs.push(e)[p])) by {
        if p < n {
            assert(spec_slot_at(log2, p) =~= spec_slot_at(log, p));
        } else {
            assert(spec_slot_at(log2, n) =~= spec_encode_slot(Some(e)));
        }
    }
    lemma_records_of(log2, recs.push(e));
}

/// Recovery skips absent slots: zero bytes after the written records leave
/// the scan's outcome unchanged.
pub proof fn lemma_records_zero_tail(log: Seq<u8>, recs: Seq<file::Entry>, m: nat)
    requires
        log_holds(log, recs),
        log.len() == recs.len() * SERIALIZED_ENTRY_SIZE,
    ensures
        log_holds(log + Seq::new(m, |i: int| 0u8), recs),
        spec_records(log + Seq::new(m, |i: int| 0u8)) == recs,
{
    let log2 = log + Seq::new(m, |i: int| 0u8);
    let n = recs.len() as int;
    assert forall|p: int| 0 <= p < n implies spec_decode_slot(#[trigger] spec_slot_at(log2, p))
        == Some(Some(recs[p])) by {
        assert(spec_slot_at(log2, p) =~= spec_slot_at(log, p));
    }
    if log2.len() >= n * SERIALIZED_ENTRY_SIZE + SERIALIZED_ENTRY_SIZE {
        assert(spec_slot_at(log2, n)[0] == 0u8);
    }
    lemma_records_of(log2, recs);
}

proof fn lemma_records_skip(log: Seq<u8>, j: int)
    requires
        0 <= j <= spec_records(log).len(),
    ensures
        spec_records_from(log, j) == spec_records(log).skip(j),
    decreases j,
{
    if j == 0 {
        assert(spec_records(log).skip(0) =~= spec_records(log));
    } else {
        lemma_records_skip(log, j - 1);
        let r1 = spec_records_from(log, j - 1);
        assert(r1 == spec_records(log).skip(j - 1));
        assert(r1.len() > 0);
        if (j - 1) * SERIALIZED_ENTRY_SIZE + SERIALIZED_ENTRY_SIZE > log.len() {
            assert(false);
        }
        match spec_decode_slot(spec_slot_at(log, j - 1)) {
            Some(Some(e)) => {
                assert(r1 == seq![e] + spec_records_from(log, j));
                assert(spec_records_from(log, j) =~= r1.skip(1));
                assert(spec_records(log).skip(j) =~= r1.skip(1));
            },
            _ => {
                assert(false);
            },
        }
    }
}

/// What a sequential scan meets at slot `p`: below the record count the
/// slot is in range and holds that record; at the count the scan stopped,
/// so the slot is out of range, absent, or undecodable.
pub proof fn lemma_records_decompose(log: Seq<u8>, p: int)
    requires
        0 <= p <= spec_records(log).len(),
    ensures
        p < spec_records(log).len() ==> p * SERIALIZED_ENTRY_SIZE + SERIALIZED_ENTRY_SIZE
            <= log.len() && spec_decode_slot(spec_slot_at(log, p)) == Some(
            Some(spec_records(log)[p]),
        ),
        p == spec_records(log).len() ==> (p * SERIALIZED_ENTRY_SIZE + SERIALIZED_ENTRY_SIZE
            > log.len() || !(spec_decode_slot(spec_slot_at(log, p)) matches Some(Some(_)))),
{
    lemma_records_skip(log, p);
    if p < spec_records(log).len() {
        assert(spec_records_from(log, p).len() > 0);
        assert(spec_records_from(log, p)[0] == spec_records(log)[p]);
    } else {
        assert(spec_records(log).skip(p) =~= Seq::empty());
        assert(spec_records_from(log, p).len() == 0);
        if p * SERIALIZED_ENTRY_SIZE + SERIALIZED_ENTRY_SIZE <= log.len() {
            match spec_decode_slot(spec_slot_at(log, p)) {
                Some(Some(e)) => {
                    assert(spec_records_from(log, p) == seq![e] + spec_records_from(log, p + 1));
                    assert(false);
                },
                _ => {},
            }
        }
    }
}

/// Appends the serialized form of `v` to `out`.
fn encode_value_into(out: &mut Vec<u8>, v: &file::Value)
    ensures
        final(out)@ == old(out)@ + spec_encode_value(*v),
{
    proof {
        vstd::bytes::lemma_auto_spec_u64_to_from_le_bytes();
        vstd::bytes::lemma_auto_spec_u128_to_from_le_bytes();
    }
    match v {
        file::Value::String { start, len } => {
            out.push(0);
            let mut b = vstd::bytes::u64_to_le_bytes(*start);
            out.append(&mut b);
            let mut b2 = vstd::bytes::u64_to_le_bytes(*len);
            out.append(&mut b2);
            assert(out@ =~= old(out)@ + spec_encode_value(*v));
        },
        file::Value::Integer { value } => {
            out.push(1);
            let wide: u128 = #[verifier::truncate] (*value as u128);
            let mut b = vstd::bytes::u128_to_le_bytes(wide);
            out.append(&mut b);
            assert(out@ =~= old(out)@ + spec_encode_value(*v));
        },
    }
}

/// Encodes one entry as a full, zero-padded slot.
pub fn encode_slot(e: &file::Entry) -> (r: Vec<u8>)
    ensures
        r@ == spec_encode_slot(Some(*e)),
        r@.len() == SERIALIZED_ENTRY_SIZE,
{
    let mut out: Vec<u8> = Vec::new();
    out.push(1);
    match e {
        file::Entry::Put { key, value } => {
            out.push(0);
            encode_value_into(&mut out, key);
            encode_value_into(&mut out, value);
        },
        file::Entry::Remove { key } => {
            out.push(1);
            encode_value_into(&mut out, key);
        },
    }
    proof {
        lemma_value_round_trip(match *e {
            file::Entry::Put { key, .. } => key,
            file::Entry::Remove { key } => key,
        });
        if e is Put {
            lemma_value_round_trip(e->Put_value);
        }
        assert(out@ =~= seq![1u8] + spec_encode_entry(*e));
    }
    let ghost body = out@;
    while out.len() < SERIALIZED_ENTRY_SIZE
        invariant
            body.len() <= out@.len() <= SERIALIZED_ENTRY_SIZE,
            out@ == body + Seq::new((out@.len() - body.len()) as nat, |i: int| 0u8),
        decreases SERIALIZED_ENTRY_SIZE - out@.len(),
    {
        out.push(0);
        assert(out@ =~= body + Seq::new((out@.len() - body.len()) as nat, |i: int| 0u8));
    }
    assert(out@ =~= spec_encode_slot(Some(*e)));
    out
}

/// Decodes the seventeen-byte value at `off` in `slot`.
fn decode_value(slot: &Vec<u8>, off: usize) -> (r: Result<file::Value, Error>)
    requires
        off + 17 <= slot@.len(),
        slot@.len() <= usize::MAX,
    ensures
        match spec_decode_value(slot@.subrange(off as int, off + 17)) {
            Some(v) => r == Ok::<file::Value, Error>(v),
            None => r == Err::<file::Value, Error>(Error::Decode),
        },
{
    let ghost s = slot@.subrange(off as int, off + 17);
    let tag = slot[off];
    assert(tag == s[0]);
    if tag == 0 {
        let start = vstd::bytes::u64_from_le_bytes(
            vstd::slice::slice_subrange(slot.as_slice(), off + 1, off + 9),
        );
        let len = vstd::bytes::u64_from_le_bytes(
            vstd::slice::slice_subrange(slot.as_slice(), off + 9, off + 17),
        );
        proof {
            assert(slot@.subrange(off + 1, off + 9) =~= s.subrange(1, 9));
            assert(slot@.subrange(off + 9, off + 17) =~= s.subrange(9, 17));
        }
        Ok(file::Value::String { start, len })
    } else if tag == 1 {
        let raw = vstd::bytes::u128_from_le_bytes(
            vstd::slice::slice_subrange(slot.as_slice(), off + 1, off + 17),
        );
        proof {
            assert(slot@.subrange(off + 1, off + 17) =~= s.subrange(1, 17));
        }
        Ok(file::Value::Integer { value: #[verifier::truncate] (raw as i128) })
    } else {
        Err(Error::Decode)
    }
}

/// Decodes one full slot; `Ok(None)` when the framing byte marks it
/// absent, `Err(Error::Decode)` when it is malformed.
pub fn decode_slot(slot: &Vec<u8>) -> (r: Result<Option<file::Entry>, Error>)
    requires
        slot@.len() == SERIALIZED_ENTRY_SIZE,
    ensures
        match spec_decode_slot(slot@) {
            Some(oe) => r == Ok::<Option<file::Entry>, Error>(oe),
            None => r == Err::<Option<file::Entry>, Error>(Error::Decode),
        },
{
    let framing = slot[0];
    if framing == 0 {
        Ok(None)
    } else if framing == 1 {
        let tag = slot[1];
        if tag == 0 {
            let key = match decode_value(slot, 2) {
                Ok(v) => v,
                Err(e) => {
                    return Err(e);
                },
            };
            let value = match decode_value(slot, 19) {
                Ok(v) => v,
                Err(e) => {
                    return Err(e);
                },
            };
            Ok(Some(file::Entry::Put { key, value }))
        } else if tag == 1 {
            let key = match decode_value(slot, 2) {
                Ok(v) => v,
                Err(e) => {
                    return Err(e);
                },
            };
            Ok(Some(file::Entry::Remove { key }))
        } else {
            Err(Error::Decode)
        }
    } else {
        Err(Error::Decode)
    }
}

} // verus!
