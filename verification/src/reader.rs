//! The log reader: seeks to an entry slot, decodes the record there, and
//! resolves `{start, len}` references by random-access reads from the
//! data file.

use vstd::prelude::*;

use crate::codec;
use crate::entry::file;
use crate::entry::file::SERIALIZED_ENTRY_SIZE;
use crate::entry::mem;
use crate::error::Error;
use crate::seekfile::SeekFile;

verus! {

/// What a serialized value resolves to against the bytes of a data file:
/// `None` when a reference reaches outside the file or at bytes that are
/// not valid UTF-8.
pub open spec fn spec_resolve_value(data: Seq<u8>, v: file::Value) -> Option<mem::ValueView> {
    match v {
        file::Value::String { start, len } => if start + len <= data.len() && vstd::utf8::valid_utf8(
            data.subrange(start as int, start + len),
        ) {
            Some(mem::ValueView::Str(vstd::utf8::decode_utf8(data.subrange(start as int, start + len))))
        } else {
            None
        },
        file::Value::Integer { value } => Some(mem::ValueView::Int(value as int)),
    }
}

/// What a serialized entry resolves to against the bytes of a data file.
pub open spec fn spec_resolve_entry(data: Seq<u8>, e: file::Entry) -> Option<mem::EntryView> {
    match e {
        file::Entry::Put { key, value } => match (
            spec_resolve_value(data, key),
            spec_resolve_value(data, value),
        ) {
            (Some(k), Some(v)) => Some(mem::EntryView::Put { key: k, value: v }),
            _ => None,
        },
        file::Entry::Remove { key } => match spec_resolve_value(data, key) {
            Some(k) => Some(mem::EntryView::Remove { key: k }),
            _ => None,
        },
    }
}

/// Relies on `String::from_utf8`: it returns the string whose UTF-8
/// encoding is exactly the given bytes when they are valid UTF-8, and an
/// error otherwise.
#[verifier::external_body]
pub(crate) fn bytes_to_string(bytes: Vec<u8>) -> (r: Option<String>)
    ensures
        r is Some <==> vstd::utf8::valid_utf8(bytes@),
        r matches Some(s) ==> vstd::utf8::encode_utf8(s@) == bytes@,
{
    std::string::String::from_utf8(bytes).ok()
}

/// Reads entries back out of the pair of files a [`crate::writer::LogWriter`]
/// fills.  Between operations the log cursor rests at the start of slot
/// `entry_pos`.
pub struct LogReader {
    pub entry_reader: SeekFile,
    pub entry_pos: u64,
    pub data_reader: SeekFile,
}

impl LogReader {
    /// The log file's bytes.
    pub open spec fn log(&self) -> Seq<u8> {
        self.entry_reader.data@
    }

    /// The data file's bytes.
    pub open spec fn data(&self) -> Seq<u8> {
        self.data_reader.data@
    }

    /// The log cursor rests exactly at the start of slot `entry_pos`.
    pub open spec fn wf(&self) -> bool {
        self.entry_reader.pos == self.entry_pos * SERIALIZED_ENTRY_SIZE
    }

    /// Wraps the two files, positioned at the first slot.
    pub fn new(entry_reader: SeekFile, data_reader: SeekFile) -> (r: Result<LogReader, Error>)
        ensures
            r matches Ok(rd) && rd.log() == entry_reader.data@ && rd.data() == data_reader.data@
                && rd.entry_pos == 0 && rd.wf(),
    {
        let mut entry_reader = entry_reader;
        entry_reader.seek_to(0);
        Ok(LogReader { entry_reader, entry_pos: 0, data_reader })
    }

    /// Replaces the two files, repositioning at the first slot.  The
    /// engine hands it the writer's current bytes after a flush, the way
    /// a buffered read handle sees flushed writes after a fresh seek.
    pub fn refresh(&mut self, log: Vec<u8>, data: Vec<u8>)
        ensures
            final(self).log() == log@,
            final(self).data() == data@,
            final(self).entry_pos == 0,
            final(self).wf(),
    {
        self.entry_reader = SeekFile::from_vec(log);
        self.data_reader = SeekFile::from_vec(data);
        self.entry_pos = 0;
    }

    /// Repositions the log cursor at the start of slot `pos`.  Fails,
    /// moving nothing, when that byte offset does not fit the machine.
    pub fn seek(&mut self, pos: u64) -> (r: Result<(), Error>)
        ensures
            final(self).log() == old(self).log(),
            final(self).data_reader == old(self).data_reader,
            pos * SERIALIZED_ENTRY_SIZE <= usize::MAX ==> {
                &&& r is Ok
                &&& final(self).entry_pos == pos
                &&& final(self).wf()
            },
            pos * SERIALIZED_ENTRY_SIZE > usize::MAX ==> {
                &&& r == Err::<(), Error>(Error::Io)
                &&& *final(self) == *old(self)
            },
    {
        if pos > (usize::MAX / SERIALIZED_ENTRY_SIZE) as u64 {
            return Err(Error::Io);
        }
        let offset = (pos as usize) * SERIALIZED_ENTRY_SIZE;
        self.entry_reader.seek_to(offset);
        self.entry_pos = pos;
        Ok(())
    }

    /// Reads the record in the slot under the cursor without resolving
    /// its references.  At end-of-file, or at an absent slot, it returns
    /// `None` and stays where it is; otherwise it steps past the slot.
    pub fn read_file_entry(&mut self) -> (r: Result<Option<file::Entry>, Error>)
        requires
            old(self).wf(),
        ensures
            final(self).log() == old(self).log(),
            final(self).data_reader == old(self).data_reader,
            final(self).wf(),
            ({
                let p = old(self).entry_pos as int;
                let log = old(self).log();
                if p * SERIALIZED_ENTRY_SIZE + SERIALIZED_ENTRY_SIZE > log.len() {
                    r == Ok::<Option<file::Entry>, Error>(None) && *final(self) == *old(self)
                } else {
                    match codec::spec_decode_slot(codec::spec_slot_at(log, p)) {
                        Some(Some(e)) => r == Ok::<Option<file::Entry>, Error>(Some(e)) && final(self).entry_pos == p + 1,
                        Some(None) => r == Ok::<Option<file::Entry>, Error>(None) && *final(self)
                            == *old(self),
                        None => r == Err::<Option<file::Entry>, Error>(Error::Decode) && *final(self) == *old(self),
                    }
                }
            }),
    {
        let len = self.entry_reader.len();
        let cursor = self.entry_reader.position();
        if cursor > len || SERIALIZED_ENTRY_SIZE > len - cursor {
            return Ok(None);
        }
        let slot = match self.entry_reader.read_exact(SERIALIZED_ENTRY_SIZE) {
            Ok(v) => v,
            Err(_) => {
                return Ok(None);
            },
        };
        assert(slot@ =~= codec::spec_slot_at(self.log(), old(self).entry_pos as int));
        match codec::decode_slot(&slot) {
            Ok(Some(e)) => {
                self.entry_pos = self.entry_pos + 1;
                Ok(Some(e))
            },
            Ok(None) => {
                self.entry_reader.seek_to(cursor);
                Ok(None)
            },
            Err(e) => {
                self.entry_reader.seek_to(cursor);
                Err(e)
            },
        }
    }

    /// Resolves a standalone serialized value through the data file.
    /// A reference outside the file fails as an i/o error; one at bytes
    /// that are not valid UTF-8 fails as a decode error.
    pub fn lookup_value(&mut self, value: &file::Value) -> (r: Result<mem::Value, Error>)
        ensures
            final(self).entry_reader == old(self).entry_reader,
            final(self).entry_pos == old(self).entry_pos,
            final(self).data() == old(self).data(),
            match spec_resolve_value(old(self).data(), *value) {
                Some(mv) => r matches Ok(v) && v@ == mv,
                None => r is Err && (r == Err::<mem::Value, Error>(Error::Io) || r == Err::<
                    mem::Value,
                    Error,
                >(Error::Decode)),
            },
    {
        match value {
            file::Value::String { start, len } => {
                let dlen = self.data_reader.len();
                if *len > dlen as u64 || *start > dlen as u64 - *len {
                    return Err(Error::Io);
                }
                self.data_reader.seek_to(*start as usize);
                let bytes = match self.data_reader.read_exact(*len as usize) {
                    Ok(v) => v,
                    Err(e) => {
                        return Err(e);
                    },
                };
                match bytes_to_string(bytes) {
                    Some(s) => {
                        proof {
                            vstd::utf8::encode_utf8_decode_utf8(s@);
                        }
                        Ok(mem::Value::String(s))
                    },
                    None => Err(Error::Decode),
                }
            },
            file::Value::Integer { value: i } => Ok(mem::Value::Integer(*i)),
        }
    }

    /// Resolves every reference in a serialized entry through the data
    /// file, giving the in-memory entry.
    pub fn lookup_entry(&mut self, entry: &file::Entry) -> (r: Result<mem::Entry, Error>)
        ensures
            final(self).entry_reader == old(self).entry_reader,
            final(self).entry_pos == old(self).entry_pos,
            final(self).data() == old(self).data(),
            match spec_resolve_entry(old(self).data(), *entry) {
                Some(me) => r matches Ok(e) && e@ == me,
                None => r is Err && (r == Err::<mem::Entry, Error>(Error::Io) || r == Err::<
                    mem::Entry,
                    Error,
                >(Error::Decode)),
            },
    {
        match entry {
            file::Entry::Put { key, value } => {
                let k = match self.lookup_value(key) {
                    Ok(v) => v,
                    Err(e) => {
                        return Err(e);
                    },
                };
                let v = match self.lookup_value(value) {
                    Ok(v) => v,
                    Err(e) => {
                        return Err(e);
                    },
                };
                Ok(mem::Entry::Put { key: k, value: v })
            },
            file::Entry::Remove { key } => {
                let k = match self.lookup_value(key) {
                    Ok(v) => v,
                    Err(e) => {
                        return Err(e);
                    },
                };
                Ok(mem::Entry::Remove { key: k })
            },
        }
    }

    /// Reads and resolves the record in the slot under the cursor.  At
    /// end-of-file, or at an absent slot, it returns `None` without
    /// stepping past the slot.
    pub fn read_entry(&mut self) -> (r: Result<Option<mem::Entry>, Error>)
        requires
            old(self).wf(),
        ensures
            final(self).log() == old(self).log(),
            final(self).data() == old(self).data(),
            final(self).wf(),
            ({
                let p = old(self).entry_pos as int;
                let log = old(self).log();
                let data = old(self).data();
                if p * SERIALIZED_ENTRY_SIZE + SERIALIZED_ENTRY_SIZE > log.len() {
                    r == Ok::<Option<mem::Entry>, Error>(None) && final(self).entry_pos == p
                } else {
                    match codec::spec_decode_slot(codec::spec_slot_at(log, p)) {
                        Some(Some(e)) => match spec_resolve_entry(data, e) {
                            Some(me) => (r matches Ok(o) && o matches Some(m) && m@ == me) && final(self).entry_pos == p + 1,
                            None => r is Err,
                        },
                        Some(None) => r == Ok::<Option<mem::Entry>, Error>(None) && final(self).entry_pos == p,
                        None => r == Err::<Option<mem::Entry>, Error>(Error::Decode) && final(self).entry_pos == p,
                    }
                }
            }),
    {
        let fe = match self.read_file_entry() {
            Ok(Some(e)) => e,
            Ok(None) => {
                return Ok(None);
            },
            Err(e) => {
                return Err(e);
            },
        };
        match self.lookup_entry(&fe) {
            Ok(me) => Ok(Some(me)),
            Err(e) => Err(e),
        }
    }

    /// Seeks to slot `p` and reads the record there; `None` past the
    /// highest written slot or at an absent one.
    pub fn entry_at(&mut self, p: u64) -> (r: Result<Option<mem::Entry>, Error>)
        requires
            p * SERIALIZED_ENTRY_SIZE <= usize::MAX,
        ensures
            final(self).log() == old(self).log(),
            final(self).data() == old(self).data(),
            final(self).wf(),
            ({
                let log = old(self).log();
                let data = old(self).data();
                if p * SERIALIZED_ENTRY_SIZE + SERIALIZED_ENTRY_SIZE > log.len() {
                    r == Ok::<Option<mem::Entry>, Error>(None)
                } else {
                    match codec::spec_decode_slot(codec::spec_slot_at(log, p as int)) {
                        Some(Some(e)) => match spec_resolve_entry(data, e) {
                            Some(me) => r matches Ok(o) && o matches Some(m) && m@ == me,
                            None => r is Err,
                        },
                        Some(None) => r == Ok::<Option<mem::Entry>, Error>(None),
                        None => r == Err::<Option<mem::Entry>, Error>(Error::Decode),
                    }
                }
            }),
    {
        match self.seek(p) {
            Ok(()) => (),
            Err(e) => {
                return Err(e);
            },
        }
        self.read_entry()
    }
}

} // verus!
