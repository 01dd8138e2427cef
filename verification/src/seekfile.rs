//! An in-memory seekable byte file: the storage medium the engine writes
//! to and reads from.
//!
//! The surrounding application loads each on-disk file into such a buffer
//! when the store is opened and writes the buffer back when it is closed,
//! so the engine's whole write, read and recovery path works on plain
//! bytes and is verified.  Writing past the end zero-fills the gap, as a
//! seek past the end of a real file does.

use vstd::prelude::*;

use crate::error::Error;

verus! {

/// The contents a write leaves behind: `s` zero-extended so that `off` is
/// in range, with `b` spliced in at `off`.
pub open spec fn spec_write_at(s: Seq<u8>, off: int, b: Seq<u8>) -> Seq<u8>
    recommends
        0 <= off,
{
    Seq::new(
        if s.len() >= off + b.len() {
            s.len()
        } else {
            (off + b.len()) as nat
        },
        |i: int|
            if off <= i < off + b.len() {
                b[i - off]
            } else if 0 <= i < s.len() {
                s[i]
            } else {
                0u8
            },
    )
}

/// Writing at the end of a file appends.
pub proof fn lemma_write_at_end(s: Seq<u8>, b: Seq<u8>)
    ensures
        spec_write_at(s, s.len() as int, b) == s + b,
{
    assert(spec_write_at(s, s.len() as int, b) =~= s + b);
}

/// A byte buffer with a cursor, standing in for a seekable file handle.
pub struct SeekFile {
    /// The file's bytes.
    pub data: Vec<u8>,
    /// The cursor: the byte offset the next read or write starts at.  It
    /// may point past the end of the data, as a file cursor may.
    pub pos: usize,
}

impl SeekFile {
    /// An empty file with the cursor at its start.
    pub fn new() -> (r: SeekFile)
        ensures
            r.data@ == Seq::<u8>::empty(),
            r.pos == 0,
    {
        SeekFile { data: Vec::new(), pos: 0 }
    }

    /// A file holding `data`, with the cursor at its start.
    pub fn from_vec(data: Vec<u8>) -> (r: SeekFile)
        ensures
            r.data == data,
            r.pos == 0,
    {
        SeekFile { data, pos: 0 }
    }

    /// The file's length in bytes.
    pub fn len(&self) -> (r: usize)
        ensures
            r == self.data@.len(),
    {
        self.data.len()
    }

    /// The current cursor.
    pub fn position(&self) -> (r: usize)
        ensures
            r == self.pos,
    {
        self.pos
    }

    /// Moves the cursor to the absolute offset `pos`.
    pub fn seek_to(&mut self, pos: usize)
        ensures
            final(self).data == old(self).data,
            final(self).pos == pos,
    {
        self.pos = pos;
    }

    /// Moves the cursor to the end of the file.
    pub fn seek_end(&mut self)
        ensures
            final(self).data == old(self).data,
            final(self).pos == old(self).data@.len(),
    {
        self.pos = self.data.len();
    }

    /// Writes all of `buf` at the cursor, zero-filling any gap between the
    /// end of the file and the cursor, and leaves the cursor after the
    /// written bytes.
    pub fn write_all(&mut self, buf: &[u8])
        ensures
            final(self).data@ == spec_write_at(old(self).data@, old(self).pos as int, buf@),
            final(self).pos == old(self).pos + buf@.len(),
    {
        let ghost orig = self.data@;
        let pos = self.pos;
        while self.data.len() < pos
            invariant
                self.pos == pos,
                orig.len() <= self.data@.len(),
                self.data@.len() <= pos || self.data@ == orig,
                self.data@ == orig + Seq::new((self.data@.len() - orig.len()) as nat, |i: int| 0u8),
            decreases pos - self.data@.len(),
        {
            self.data.push(0);
            assert(self.data@ =~= orig + Seq::new(
                (self.data@.len() - orig.len()) as nat,
                |i: int| 0u8,
            ));
        }
        let ghost base = self.data@;
        proof {
            assert(base =~= spec_write_at(orig, pos as int, Seq::empty()));
        }
        let mut i: usize = 0;
        let mut idx = pos;
        while i < buf.len()
            invariant
                self.pos == pos,
                i <= buf@.len(),
                idx == pos + i,
                pos <= self.data@.len(),
                idx <= self.data@.len(),
                self.data@ == spec_write_at(base, pos as int, buf@.take(i as int)),
            decreases buf@.len() - i,
        {
            let b = buf[i];
            if idx < self.data.len() {
                self.data[idx] = b;
                idx = idx + 1;
            } else {
                self.data.push(b);
                idx = self.data.len();
            }
            assert(self.data@ =~= spec_write_at(base, pos as int, buf@.take(i + 1)));
            i = i + 1;
        }
        proof {
            assert(buf@.take(buf@.len() as int) =~= buf@);
            assert(spec_write_at(base, pos as int, buf@) =~= spec_write_at(orig, pos as int, buf@));
        }
        self.pos = idx;
    }

    /// Reads exactly `n` bytes at the cursor and advances it; fails with
    /// an i/o error, moving nothing, when fewer than `n` bytes remain.
    pub fn read_exact(&mut self, n: usize) -> (r: Result<Vec<u8>, Error>)
        ensures
            final(self).data == old(self).data,
            old(self).pos + n <= old(self).data@.len() ==> {
                &&& r matches Ok(v) && v@ == old(self).data@.subrange(
                    old(self).pos as int,
                    old(self).pos + n,
                )
                &&& final(self).pos == old(self).pos + n
            },
            old(self).pos + n > old(self).data@.len() ==> {
                &&& r == Err::<Vec<u8>, Error>(Error::Io)
                &&& final(self).pos == old(self).pos
            },
    {
        if self.pos > self.data.len() || n > self.data.len() - self.pos {
            return Err(Error::Io);
        }
        let s = vstd::slice::slice_subrange(self.data.as_slice(), self.pos, self.pos + n);
        let v = vstd::slice::slice_to_vec(s);
        self.pos = self.pos + n;
        Ok(v)
    }

    /// Gives up the file, handing its bytes out.
    pub fn into_vec(self) -> (r: Vec<u8>)
        ensures
            r == self.data,
    {
        self.data
    }
}

} // verus!
