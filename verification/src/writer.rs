//! The log writer: appends padded fixed-size entries to a log file and
//! writes variable-length payloads to a parallel data file.

use vstd::prelude::*;

use crate::codec;
use crate::entry::file;
use crate::entry::file::{MAX_ENTRIES_PER_FILE, SERIALIZED_ENTRY_SIZE};
use crate::entry::mem;
use crate::error::Error;
use crate::seekfile::{spec_write_at, SeekFile};

verus! {

/// The bytes a value contributes to the data file: the UTF-8 encoding of
/// a string, nothing for an inline integer.
pub open spec fn spec_payload(v: mem::ValueView) -> Seq<u8> {
    match v {
        mem::ValueView::Str(s) => vstd::utf8::encode_utf8(s),
        mem::ValueView::Int(_) => Seq::empty(),
    }
}

/// The serialized form a value takes when its payload is written at byte
/// offset `start` of the data file.
pub open spec fn spec_place_value(v: mem::ValueView, start: int) -> file::Value {
    match v {
        mem::ValueView::Str(s) => file::Value::String {
            start: start as u64,
            len: vstd::utf8::encode_utf8(s).len() as u64,
        },
        mem::ValueView::Int(i) => file::Value::Integer { value: i as i128 },
    }
}

/// The bytes an entry contributes to the data file: its key's payload,
/// then its value's.
pub open spec fn spec_entry_payload(e: mem::EntryView) -> Seq<u8> {
    match e {
        mem::EntryView::Put { key, value } => spec_payload(key) + spec_payload(value),
        mem::EntryView::Remove { key } => spec_payload(key),
    }
}

/// The on-disk form an entry takes when its payloads are written starting
/// at byte offset `start` of the data file.
pub open spec fn spec_place_entry(e: mem::EntryView, start: int) -> file::Entry {
    match e {
        mem::EntryView::Put { key, value } => file::Entry::Put {
            key: spec_place_value(key, start),
            value: spec_place_value(value, start + spec_payload(key).len()),
        },
        mem::EntryView::Remove { key } => file::Entry::Remove { key: spec_place_value(key, start) },
    }
}

/// A view is within machine range: any inline integer it carries fits the
/// 128-bit record field.  The view of every real value satisfies it.
pub open spec fn value_view_in_range(v: mem::ValueView) -> bool {
    v matches mem::ValueView::Int(i) ==> i128::MIN <= i <= i128::MAX
}

proof fn lemma_placed_value_resolves(data_new: Seq<u8>, v: mem::ValueView, start: int)
    requires
        value_view_in_range(v),
        0 <= start,
        start + spec_payload(v).len() <= data_new.len(),
        data_new.len() <= u64::MAX,
        data_new.subrange(start, start + spec_payload(v).len()) == spec_payload(v),
    ensures
        crate::reader::spec_resolve_value(data_new, spec_place_value(v, start)) == Some(v),
{
    match v {
        mem::ValueView::Str(s) => {
            vstd::utf8::encode_utf8_valid_utf8(s);
            vstd::utf8::encode_utf8_decode_utf8(s);
        },
        mem::ValueView::Int(i) => {},
    }
}

/// An entry placed at the end of the data file resolves, against the file
/// grown by its payload, to exactly the entry it came from.
pub proof fn lemma_placed_entry_resolves(data_old: Seq<u8>, data_new: Seq<u8>, e: mem::EntryView)
    requires
        (e matches mem::EntryView::Put { key, value } ==> value_view_in_range(key)
            && value_view_in_range(value)),
        (e matches mem::EntryView::Remove { key } ==> value_view_in_range(key)),
        data_new == data_old + spec_entry_payload(e),
        data_new.len() <= u64::MAX,
    ensures
        crate::reader::spec_resolve_entry(data_new, spec_place_entry(e, data_old.len() as int))
            == Some(e),
{
    let start = data_old.len() as int;
    match e {
        mem::EntryView::Put { key, value } => {
            let kp = spec_payload(key);
            let vp = spec_payload(value);
            assert(data_new.subrange(start, start + kp.len()) =~= kp);
            assert(data_new.subrange(start + kp.len(), start + kp.len() + vp.len()) =~= vp);
            lemma_placed_value_resolves(data_new, key, start);
            lemma_placed_value_resolves(data_new, value, start + kp.len());
        },
        mem::EntryView::Remove { key } => {
            let kp = spec_payload(key);
            assert(data_new.subrange(start, start + kp.len()) =~= kp);
            lemma_placed_value_resolves(data_new, key, start);
        },
    }
}

/// Appends fixed-size entries to a log file, entry number `entry_pos`
/// landing at byte offset `entry_pos * SERIALIZED_ENTRY_SIZE`, and string
/// payloads to the end of a parallel data file.
pub struct LogWriter {
    pub entry_writer: SeekFile,
    pub entry_pos: u64,
    pub data_writer: SeekFile,
}

impl LogWriter {
    /// The log file's bytes.
    pub open spec fn log(&self) -> Seq<u8> {
        self.entry_writer.data@
    }

    /// The data file's bytes.
    pub open spec fn data(&self) -> Seq<u8> {
        self.data_writer.data@
    }

    /// The data file is append-only: its cursor rests at end-of-file.
    pub open spec fn wf(&self) -> bool {
        self.data_writer.pos == self.data_writer.data@.len()
    }

    /// Wraps the two files, with the entry counter at zero and the data
    /// cursor moved to end-of-file.
    pub fn new(entry_writer: SeekFile, data_writer: SeekFile) -> (r: Result<LogWriter, Error>)
        ensures
            r matches Ok(w) && w.log() == entry_writer.data@ && w.data() == data_writer.data@
                && w.entry_pos == 0 && w.wf(),
    {
        let mut data_writer = data_writer;
        data_writer.seek_end();
        let mut entry_writer = entry_writer;
        entry_writer.seek_to(0);
        Ok(LogWriter { entry_writer, entry_pos: 0, data_writer })
    }

    /// Repositions the entry counter, so that the next append lands in
    /// slot `pos`.
    pub fn seek(&mut self, pos: u64) -> (r: Result<(), Error>)
        ensures
            r is Ok,
            final(self).entry_pos == pos,
            final(self).entry_writer.data == old(self).entry_writer.data,
            final(self).data_writer == old(self).data_writer,
    {
        self.entry_pos = pos;
        Ok(())
    }

    /// The slot the next append lands in.
    pub fn get_pos(&self) -> (r: u64)
        ensures
            r == self.entry_pos,
    {
        self.entry_pos
    }

    /// Sets the slot the next append lands in; recovery uses this after a
    /// replay so appends land after the last replayed record.
    pub fn set_pos(&mut self, pos: u64)
        ensures
            final(self).entry_pos == pos,
            final(self).entry_writer.data == old(self).entry_writer.data,
            final(self).data_writer == old(self).data_writer,
    {
        self.entry_pos = pos;
    }

    /// Flushes the data file, then the log file.  The in-memory medium
    /// holds every write immediately, so this moves nothing.
    pub fn flush(&mut self) -> (r: Result<(), Error>)
        ensures
            r is Ok,
            *final(self) == *old(self),
    {
        Ok(())
    }

    /// Writes a value's payload (if any) at the end of the data file and
    /// returns its serialized form.
    fn write_value(&mut self, value: &mem::Value) -> (r: Result<file::Value, Error>)
        requires
            old(self).wf(),
        ensures
            final(self).wf(),
            r matches Ok(v) && v == spec_place_value(value@, old(self).data().len() as int),
            final(self).data() == old(self).data() + spec_payload(value@),
            final(self).entry_writer == old(self).entry_writer,
            final(self).entry_pos == old(self).entry_pos,
    {
        match value {
            mem::Value::String(s) => {
                let start = self.data_writer.position() as u64;
                let bytes = s.as_str().as_bytes();
                self.data_writer.write_all(bytes);
                proof {
                    crate::seekfile::lemma_write_at_end(old(self).data(), bytes@);
                }
                let len = bytes.len() as u64;
                Ok(file::Value::String { start, len })
            },
            mem::Value::Integer(i) => {
                assert(final(self).data() =~= old(self).data());
                Ok(file::Value::Integer { value: *i })
            },
        }
    }

    /// Encodes an already-serialized entry into slot `entry_pos`, returns
    /// that slot number and moves the counter past it.  Refuses to write
    /// past the per-generation cap, moving nothing.
    pub fn write_file_entry(&mut self, entry: &file::Entry) -> (r: Result<u64, Error>)
        ensures
            old(self).entry_pos < MAX_ENTRIES_PER_FILE ==> {
                &&& r == Ok::<u64, Error>(old(self).entry_pos)
                &&& final(self).log() == spec_write_at(
                    old(self).log(),
                    old(self).entry_pos * SERIALIZED_ENTRY_SIZE,
                    codec::spec_encode_slot(Some(*entry)),
                )
                &&& final(self).entry_pos == old(self).entry_pos + 1
                &&& final(self).data_writer == old(self).data_writer
            },
            old(self).entry_pos >= MAX_ENTRIES_PER_FILE ==> {
                &&& r == Err::<u64, Error>(Error::Overflow)
                &&& final(self).entry_writer.data == old(self).entry_writer.data
                &&& final(self).entry_pos == old(self).entry_pos
                &&& final(self).data_writer == old(self).data_writer
            },
    {
        if self.entry_pos >= MAX_ENTRIES_PER_FILE {
            return Err(Error::Overflow);
        }
        let bytes = codec::encode_slot(entry);
        let offset = (self.entry_pos as usize) * SERIALIZED_ENTRY_SIZE;
        self.entry_writer.seek_to(offset);
        self.entry_writer.write_all(bytes.as_slice());
        let pos = self.entry_pos;
        self.entry_pos = pos + 1;
        Ok(pos)
    }

    /// Writes an in-memory entry: first its payloads to the data file,
    /// then its serialized record to slot `entry_pos`.  Returns the slot
    /// number.  Past the per-generation cap the record is refused; the
    /// payload bytes already written then dangle unreferenced at the end
    /// of the data file, which no record ever points at.
    pub fn write_entry(&mut self, entry: &mem::Entry) -> (r: Result<u64, Error>)
        requires
            old(self).wf(),
        ensures
            final(self).wf(),
            final(self).data() == old(self).data() + spec_entry_payload(entry@),
            old(self).entry_pos < MAX_ENTRIES_PER_FILE ==> {
                &&& r == Ok::<u64, Error>(old(self).entry_pos)
                &&& final(self).log() == spec_write_at(
                    old(self).log(),
                    old(self).entry_pos * SERIALIZED_ENTRY_SIZE,
                    codec::spec_encode_slot(
                        Some(spec_place_entry(entry@, old(self).data().len() as int)),
                    ),
                )
                &&& final(self).entry_pos == old(self).entry_pos + 1
            },
            old(self).entry_pos >= MAX_ENTRIES_PER_FILE ==> {
                &&& r == Err::<u64, Error>(Error::Overflow)
                &&& final(self).log() == old(self).log()
                &&& final(self).entry_pos == old(self).entry_pos
            },
    {
        let out: file::Entry = match entry {
            mem::Entry::Put { key, value } => {
                let k = match self.write_value(key) {
                    Ok(v) => v,
                    Err(e) => {
                        return Err(e);
                    },
                };
                let v = match self.write_value(value) {
                    Ok(v) => v,
                    Err(e) => {
                        return Err(e);
                    },
                };
                file::Entry::Put { key: k, value: v }
            },
            mem::Entry::Remove { key } => {
                let k = match self.write_value(key) {
                    Ok(v) => v,
                    Err(e) => {
                        return Err(e);
                    },
                };
                file::Entry::Remove { key: k }
            },
        };
        assert(self.data() =~= old(self).data() + spec_entry_payload(entry@));
        assert(out == spec_place_entry(entry@, old(self).data().len() as int));
        self.write_file_entry(&out)
    }
}

} // verus!
