//! The storage engine: open, set, get, remove, close, and the compaction
//! pass.
//!
//! The engine owns one `(log, data)` file pair per generation; new writes
//! go to the current (highest) generation.  The in-memory index maps each
//! live key to `(generation, position)`.  The store's observable state is
//! the map obtained by replaying every generation's records in order, and
//! every operation's contract is stated against that map.

use vstd::prelude::*;

use crate::codec;
use crate::codec::{log_holds, spec_records};
use crate::entry::file::{MAX_ENTRIES_PER_FILE, SERIALIZED_ENTRY_SIZE};
use crate::entry::{file, mem};
use crate::error::Error;
use crate::index::{Index, IndexEntry};
use crate::model;
use crate::model::{replay_all, store_view, GenOutcome, GenView, LiveRec};
use crate::reader::{spec_resolve_entry, LogReader};
use crate::seekfile::SeekFile;
use crate::writer;
use crate::writer::{spec_entry_payload, spec_place_entry, LogWriter};

verus! {

/// When a generation's entry count passes this threshold, the engine
/// compacts every generation; it stays below the hard per-file cap so an
/// append to a within-threshold generation can never overflow.
pub const COMPACTION_THRESHOLD: u64 = 4000;

/// One generation's handles: independent read and write views of the same
/// file pair.
pub struct GenPair {
    pub reader: LogReader,
    pub writer: LogWriter,
}

/// One generation's files as the surrounding application hands them in at
/// open and takes them back at close: the generation number (the on-disk
/// file name) and the raw bytes of the log and data files.
pub struct GenFiles {
    pub gen: u64,
    pub log: Vec<u8>,
    pub data: Vec<u8>,
}

/// The mathematical form of [`GenFiles`].
pub struct GenFileView {
    pub gen: int,
    pub log: Seq<u8>,
    pub data: Seq<u8>,
}

impl View for GenFiles {
    type V = GenFileView;

    open spec fn view(&self) -> GenFileView {
        GenFileView { gen: self.gen as int, log: self.log@, data: self.data@ }
    }
}

/// The views of a list of generation files.
pub open spec fn views_of_files(files: Seq<GenFiles>) -> Seq<GenFileView> {
    Seq::new(files.len(), |i: int| files[i]@)
}

/// The model generations a list of file pairs denotes.
pub open spec fn gen_views_of(files: Seq<GenFileView>) -> Seq<GenView> {
    Seq::new(files.len(), |i: int| GenView { records: spec_records(files[i].log), data: files[i].data })
}

/// The observable map recovered by replaying a list of file pairs.
pub open spec fn spec_recover(files: Seq<GenFileView>) -> Map<mem::ValueView, mem::ValueView> {
    store_view(replay_all(gen_views_of(files)))
}

/// A generation file pair that a sequential scan consumes whole: the scan
/// stops cleanly (at end-of-file or an absent slot, not at a slot it
/// cannot decode), stays within the per-file cap, and every record's
/// references resolve.  `open` succeeds exactly on such files.
pub open spec fn scan_clean(log: Seq<u8>, data: Seq<u8>) -> bool {
    &&& log_holds(log, spec_records(log))
    &&& spec_records(log).len() <= MAX_ENTRIES_PER_FILE
    &&& forall|p: int|
        0 <= p < spec_records(log).len() ==> spec_resolve_entry(
            data,
            #[trigger] spec_records(log)[p],
        ) is Some
}

/// A healthy generation: its writer's counter and files agree, the log is
/// gap-free and fully decodable, and every record resolves.
pub open spec fn gen_wf(p: GenPair) -> bool {
    let log = p.writer.log();
    let recs = spec_records(log);
    let data = p.writer.data();
    &&& p.writer.wf()
    &&& log_holds(log, recs)
    &&& log.len() == recs.len() * SERIALIZED_ENTRY_SIZE
    &&& p.writer.entry_pos == recs.len()
    &&& recs.len() <= MAX_ENTRIES_PER_FILE
    &&& forall|q: int| 0 <= q < recs.len() ==> spec_resolve_entry(data, #[trigger] recs[q]) is Some
}

/// The persistent key/value store.
pub struct KvStore {
    /// The generations, generation `g` at position `g`.
    pub gens: Vec<GenPair>,
    /// The highest generation: the one new writes go to.
    pub current_gen: u64,
    /// The in-memory map from live key to record location.
    pub index: Index,
}

impl View for KvStore {
    type V = Map<mem::ValueView, mem::ValueView>;

    /// What the store observably holds: each live key's value.
    open spec fn view(&self) -> Map<mem::ValueView, mem::ValueView> {
        store_view(self.model())
    }
}

impl KvStore {
    /// The generations as the model sees them.
    pub open spec fn gen_views(&self) -> Seq<GenView> {
        Seq::new(
            self.gens@.len(),
            |g: int|
                GenView {
                    records: spec_records(self.gens@[g].writer.log()),
                    data: self.gens@[g].writer.data(),
                },
        )
    }

    /// The replay of all generations: each live key's record location and
    /// value.
    pub open spec fn model(&self) -> Map<mem::ValueView, LiveRec> {
        replay_all(self.gen_views())
    }

    /// The record count of generation `g`.
    pub open spec fn gen_len(&self, g: int) -> int {
        spec_records(self.gens@[g].writer.log()).len() as int
    }

    /// Everything but the compaction threshold: the generations are
    /// healthy and the index mirrors the replay.
    pub open spec fn wf_core(&self) -> bool {
        &&& self.gens@.len() >= 1
        &&& self.gens@.len() <= u64::MAX
        &&& self.current_gen == self.gens@.len() - 1
        &&& forall|g: int| 0 <= g < self.gens@.len() ==> gen_wf(#[trigger] self.gens@[g])
        &&& self.index.wf()
        &&& forall|k: mem::ValueView|
            #[trigger] self.index@.contains_key(k) <==> self.model().contains_key(k)
        &&& forall|k: mem::ValueView|
            #[trigger] self.index@.contains_key(k) ==> self.index@[k].gen == self.model()[k].gen
                && self.index@[k].position == self.model()[k].pos
    }

    /// The store's invariant: healthy, and the current generation is at
    /// or under the compaction threshold, so the next append cannot hit
    /// the per-file cap.
    pub open spec fn wf(&self) -> bool {
        &&& self.wf_core()
        &&& self.gen_len(self.gens@.len() - 1) <= COMPACTION_THRESHOLD
    }
}

/// Copies a byte buffer.
fn copy_bytes(v: &Vec<u8>) -> (r: Vec<u8>)
    ensures
        r@ == v@,
{
    let mut r: Vec<u8> = Vec::new();
    r.extend_from_slice(v.as_slice());
    proof {
        assert forall|i: int| 0 <= i < v@.len() implies r@[i] == v@[i] by {
            assert(vstd::pervasive::cloned::<u8>(v@[i], r@[i]));
        }
        assert(r@ =~= v@);
    }
    r
}

impl KvStore {
    /// Appends one entry to the current generation and indexes it.
    /// Returns the slot it landed in.
    fn append_entry(&mut self, entry: mem::Entry) -> (pos: u64)
        requires
            old(self).wf(),
        ensures
            final(self).wf_core(),
            final(self).gens@.len() == old(self).gens@.len(),
            final(self).current_gen == old(self).current_gen,
            pos == old(self).gen_len(old(self).gens@.len() - 1),
            final(self).gen_len(final(self).gens@.len() - 1) == pos + 1,
            forall|g: int|
                0 <= g < old(self).gens@.len() - 1 ==> final(self).gens@[g] == old(self).gens@[g],
            match entry@ {
                mem::EntryView::Put { key, value } => final(self)@ == old(self)@.insert(key, value)
                    && final(self).model() == old(self).model().insert(
                    key,
                    LiveRec {
                        gen: old(self).gens@.len() - 1,
                        pos: pos as int,
                        value,
                    },
                ),
                mem::EntryView::Remove { key } => final(self)@ == old(self)@.remove(key) && final(self).model() == old(self).model().remove(key),
            },
    {
        let g = self.gens.len() - 1;
        let ghost old_views = self.gen_views();
        let ghost old_model = self.model();
        let ghost old_recs = spec_records(self.gens@[g as int].writer.log());
        let ghost old_data = self.gens@[g as int].writer.data();
        let pair = &mut self.gens[g];
        let ghost old_log = pair.writer.log();
        let pos = match pair.writer.write_entry(&entry) {
            Ok(p) => p,
            Err(_) => {
                proof {
                    assert(false);
                }
                0
            },
        };
        let ghost placed = spec_place_entry(entry@, old_data.len() as int);
        let ghost payload = spec_entry_payload(entry@);
        let ghost new_log = pair.writer.log();
        let ghost new_data = pair.writer.data();
        proof {
            // the write landed exactly at the end of the log
            assert(pos * SERIALIZED_ENTRY_SIZE == old_log.len());
            crate::seekfile::lemma_write_at_end(old_log, codec::spec_encode_slot(Some(placed)));
            assert(new_log == old_log + codec::spec_encode_slot(Some(placed)));
            codec::lemma_log_append(old_log, old_recs, placed);
            assert(spec_records(new_log) == old_recs.push(placed));
            // the new record resolves to the entry it came from
            assert(value_views_in_range(entry@));
            writer::lemma_placed_entry_resolves(old_data, new_data, entry@);
            // the old records go on resolving after the payload append
            assert forall|q: int| 0 <= q < old_recs.len() implies spec_resolve_entry(
                new_data,
                #[trigger] old_recs[q],
            ) is Some by {
                model::lemma_resolve_entry_extend(old_data, payload, old_recs[q]);
            }
        }
        proof {
            let new_views = self.gen_views();
            assert(new_views.last().records == old_views.last().records.push(placed));
            assert(new_views.last().data == old_views.last().data + payload);
            assert(forall|j: int| 0 <= j < old_views.len() - 1 ==> old_views[j] == new_views[j]);
            model::lemma_replay_append(old_views, new_views, placed, payload);
            assert(self.model() == model::apply_record(
                old_model,
                new_data,
                placed,
                g as int,
                pos as int,
            ));
        }
        match entry {
            mem::Entry::Put { key, value } => {
                let ghost k = key@;
                let ghost v = value@;
                self.index.insert(key, IndexEntry { gen: g as u64, position: pos });
                proof {
                    assert(self.model() == old_model.insert(
                        k,
                        LiveRec { gen: g as int, pos: pos as int, value: v },
                    ));
                    assert(self@ =~= old(self)@.insert(k, v));
                }
            },
            mem::Entry::Remove { key } => {
                let ghost k = key@;
                self.index.remove(&key);
                proof {
                    assert(self.model() == old_model.remove(k));
                    assert(self@ =~= old(self)@.remove(k));
                }
            },
        }
        pos
    }
}

impl KvsEngine for KvStore {
    open spec fn inv(&self) -> bool {
        self.wf()
    }

    fn set(&mut self, key: String, value: String) -> (r: Result<(), Error>) {
        KvStore::set(self, key, value)
    }

    fn get(&mut self, key: String) -> (r: Result<Option<String>, Error>) {
        KvStore::get(self, key)
    }

    fn remove(&mut self, key: String) -> (r: Result<(), Error>) {
        KvStore::remove(self, key)
    }
}

impl Engine for KvStore {
    open spec fn inv(&self) -> bool {
        self.wf()
    }

    fn set(&mut self, key: String, value: String) -> (r: Result<(), Error>) {
        KvStore::set(self, key, value)
    }

    fn get(&mut self, key: String) -> (r: Result<Option<String>, Error>) {
        KvStore::get(self, key)
    }

    fn remove(&mut self, key: String) -> (r: Result<(), Error>) {
        KvStore::remove(self, key)
    }
}

/// Round trip: after `set(k, v)` the store's map holds `k` at `v`, so a
/// `get(k)` observes `Some(v)`: `set` ensures the map gains the pair, and
/// `get` returns exactly what the map holds.
pub proof fn lemma_round_trip(
    m: Map<mem::ValueView, mem::ValueView>,
    k: Seq<char>,
    v: Seq<char>,
)
    ensures
        ({
            let m2 = m.insert(mem::ValueView::Str(k), mem::ValueView::Str(v));
            m2.contains_key(mem::ValueView::Str(k)) && m2[mem::ValueView::Str(k)]
                == mem::ValueView::Str(v)
        }),
{
}

/// Overwrite: after `set(k, v1); set(k, v2)` the store's map holds `k` at
/// `v2`, so a `get(k)` observes `Some(v2)`.
pub proof fn lemma_overwrite(
    m: Map<mem::ValueView, mem::ValueView>,
    k: Seq<char>,
    v1: Seq<char>,
    v2: Seq<char>,
)
    ensures
        ({
            let m2 = m.insert(mem::ValueView::Str(k), mem::ValueView::Str(v1)).insert(
                mem::ValueView::Str(k),
                mem::ValueView::Str(v2),
            );
            m2.contains_key(mem::ValueView::Str(k)) && m2[mem::ValueView::Str(k)]
                == mem::ValueView::Str(v2)
        }),
{
}

/// Persistence: any sequence of writes followed by `close` and a fresh
/// `open` of the files it handed out rebuilds the same observable map.
/// `close` ensures the files recover to the closed store's map; `open`
/// ensures the rebuilt store's map is what the files recover to; these
/// meet in [`spec_recover`].
pub proof fn lemma_persistence(
    files: Seq<GenFileView>,
    closed: Map<mem::ValueView, mem::ValueView>,
    reopened: Map<mem::ValueView, mem::ValueView>,
)
    requires
        spec_recover(files) == closed,
        reopened == spec_recover(files),
    ensures
        reopened == closed,
{
}

/// Remove: after `set(k, v); remove(k)` the store's map no longer holds
/// `k`, so a `get(k)` observes `None` and a second `remove(k)` is refused
/// with `KeyNotFound` (by `remove`'s contract on an absent key).
pub proof fn lemma_set_then_remove(
    m: Map<mem::ValueView, mem::ValueView>,
    k: Seq<char>,
    v: Seq<char>,
)
    ensures
        !m.insert(mem::ValueView::Str(k), mem::ValueView::Str(v)).remove(
            mem::ValueView::Str(k),
        ).contains_key(mem::ValueView::Str(k)),
{
}

/// Both views an entry carries fit the machine's record fields; true of
/// the view of every real entry.
pub open spec fn value_views_in_range(e: mem::EntryView) -> bool {
    match e {
        mem::EntryView::Put { key, value } => writer::value_view_in_range(key)
            && writer::value_view_in_range(value),
        mem::EntryView::Remove { key } => writer::value_view_in_range(key),
    }
}

/// The capability set of a storage engine: set, get, remove.  An engine
/// states its own invariant; each operation needs and preserves it.
pub trait KvsEngine: Sized {
    /// The engine's well-formedness condition.
    spec fn inv(&self) -> bool;

    /// Sets the value of a string key to a string, overwriting any
    /// previous value.
    fn set(&mut self, key: String, value: String) -> (r: Result<(), Error>)
        requires
            old(self).inv(),
        ensures
            final(self).inv(),
    ;

    /// Gets the string value of a string key; `None` if absent.
    fn get(&mut self, key: String) -> (r: Result<Option<String>, Error>)
        requires
            old(self).inv(),
        ensures
            final(self).inv(),
    ;

    /// Removes a key; `KeyNotFound` if it is absent.
    fn remove(&mut self, key: String) -> (r: Result<(), Error>)
        requires
            old(self).inv(),
        ensures
            final(self).inv(),
    ;
}

/// The engine interface the server dispatches over; a drop-in store backs
/// it the same way the builtin one does.
pub trait Engine: Sized {
    /// The engine's well-formedness condition.
    spec fn inv(&self) -> bool;

    /// Sets the value of a string key to a string.
    fn set(&mut self, key: String, value: String) -> (r: Result<(), Error>)
        requires
            old(self).inv(),
        ensures
            final(self).inv(),
    ;

    /// Gets the string value of a string key; `None` if absent.
    fn get(&mut self, key: String) -> (r: Result<Option<String>, Error>)
        requires
            old(self).inv(),
        ensures
            final(self).inv(),
    ;

    /// Removes a key; `KeyNotFound` if it is absent.
    fn remove(&mut self, key: String) -> (r: Result<(), Error>)
        requires
            old(self).inv(),
        ensures
            final(self).inv(),
    ;
}

/// Some live key's record sits at `(g, p)`.
pub open spec fn slot_covered(m: Map<mem::ValueView, LiveRec>, g: int, p: int) -> bool {
    exists|k: mem::ValueView| #[trigger] m.contains_key(k) && m[k].gen == g && m[k].pos == p
}

/// The last word a generation pair's files have on a key.
pub open spec fn gen_last_of(pr: GenPair, k: mem::ValueView) -> GenOutcome {
    model::gen_last(spec_records(pr.writer.log()), pr.writer.data(), k)
}

/// A generation holds nothing but live records: it never holds a
/// tombstone, and each `Put` it holds is exactly where the replay `m`
/// says the key lives.
pub open spec fn gen_fully_live(pr: GenPair, m: Map<mem::ValueView, LiveRec>, g: int) -> bool {
    forall|k: mem::ValueView|
        match #[trigger] gen_last_of(pr, k) {
            GenOutcome::Untouched => true,
            GenOutcome::Removed => false,
            GenOutcome::Written { pos, value } => m.contains_key(k) && m[k] == (LiveRec {
                gen: g,
                pos,
                value,
            }),
        }
}

impl KvStore {
    /// Sets the value of a string key to a string, overwriting any
    /// previous value.  Triggers a full compaction when the append pushes
    /// the current generation past the threshold.
    pub fn set(&mut self, key: String, value: String) -> (r: Result<(), Error>)
        requires
            old(self).wf(),
        ensures
            r is Ok,
            final(self).wf(),
            final(self)@ == old(self)@.insert(
                mem::ValueView::Str(key@),
                mem::ValueView::Str(value@),
            ),
    {
        let entry = mem::Entry::Put {
            key: mem::Value::String(key),
            value: mem::Value::String(value),
        };
        let pos = self.append_entry(entry);
        if pos + 1 > COMPACTION_THRESHOLD {
            match self.compact_all() {
                Ok(()) => (),
                Err(_) => {
                    proof {
                        assert(false);
                    }
                },
            }
        }
        Ok(())
    }

    /// Removes a key.  If the key is absent nothing is written and the
    /// distinguished `KeyNotFound` error comes back; otherwise a
    /// tombstone record is appended and the key leaves the index.
    pub fn remove(&mut self, key: String) -> (r: Result<(), Error>)
        requires
            old(self).wf(),
        ensures
            final(self).wf(),
            old(self)@.contains_key(mem::ValueView::Str(key@)) ==> r is Ok && final(self)@ == old(
                self,
            )@.remove(mem::ValueView::Str(key@)),
            !old(self)@.contains_key(mem::ValueView::Str(key@)) ==> r == Err::<(), Error>(
                Error::KeyNotFound,
            ) && *final(self) == *old(self),
    {
        let kv = mem::Value::String(key);
        match self.index.get(&kv) {
            None => Err(Error::KeyNotFound),
            Some(_) => {
                let pos = self.append_entry(mem::Entry::Remove { key: kv });
                if pos + 1 > COMPACTION_THRESHOLD {
                    match self.compact_all() {
                        Ok(()) => (),
                        Err(_) => {
                            proof {
                                assert(false);
                            }
                        },
                    }
                }
                Ok(())
            },
        }
    }

    /// Gets the string value of a key, or `None` if the key is absent.
    /// The read flushes the owning generation's writer, repositions its
    /// reader, decodes the indexed slot and resolves the payload; a slot
    /// that does not hold a string `Put` for this key is a consistency
    /// fault.
    pub fn get(&mut self, key: String) -> (r: Result<Option<String>, Error>)
        requires
            old(self).wf(),
        ensures
            final(self).wf(),
            final(self)@ == old(self)@,
            !old(self)@.contains_key(mem::ValueView::Str(key@)) ==> r == Ok::<
                Option<String>,
                Error,
            >(None),
            old(self)@.contains_key(mem::ValueView::Str(key@)) ==> match old(
                self,
            )@[mem::ValueView::Str(key@)] {
                mem::ValueView::Str(s) => r matches Ok(o) && o matches Some(v) && v@ == s,
                mem::ValueView::Int(_) => r == Err::<Option<String>, Error>(Error::Consistency),
            },
    {
        let kv = mem::Value::String(key);
        let ie = match self.index.get(&kv) {
            None => {
                return Ok(None);
            },
            Some(ie) => ie,
        };
        let ghost views0 = self.gen_views();
        let ghost rec = self.model()[kv@];
        let glen = self.gens.len();
        proof {
            model::lemma_replay_entry(views0, kv@);
            assert(rec.gen == ie.gen && rec.pos == ie.position);
            assert(rec.gen < glen);
            assert(gen_wf(self.gens@[rec.gen]));
        }
        let g = ie.gen as usize;
        proof {
            assert(g as int == rec.gen);
        }
        let log_copy;
        let data_copy;
        {
            let pair_ref = &self.gens[g];
            log_copy = copy_bytes(&pair_ref.writer.entry_writer.data);
            data_copy = copy_bytes(&pair_ref.writer.data_writer.data);
        }
        let pair = &mut self.gens[g];
        let ghost pair0 = *pair;
        proof {
            assert(pair0 == old(self).gens@[g as int]);
            let grecs = spec_records(pair0.writer.log());
            assert(views0[g as int].records == grecs);
            assert(views0[g as int].data == pair0.writer.data());
            assert(rec.pos < grecs.len());
            assert(pair0.writer.log().len() == grecs.len() * SERIALIZED_ENTRY_SIZE);
            assert(rec.pos * SERIALIZED_ENTRY_SIZE + SERIALIZED_ENTRY_SIZE
                <= pair0.writer.log().len());
            assert(grecs.len() <= MAX_ENTRIES_PER_FILE);
        }
        match pair.writer.flush() {
            Ok(()) => (),
            Err(_) => {
                proof {
                    assert(false);
                }
            },
        }
        pair.reader.refresh(log_copy, data_copy);
        proof {
            assert(pair.writer == pair0.writer);
            assert(pair.reader.log() == pair0.writer.log());
            assert(pair.reader.data() == pair0.writer.data());
        }
        let res = pair.reader.entry_at(ie.position);
        proof {
            assert(pair.writer == pair0.writer);
        }
        proof {
            assert(self.gen_views() =~= views0);
            assert(self@ =~= old(self)@);
        }
        match res {
            Ok(Some(me)) => {
                match me {
                    mem::Entry::Put { key: k2, value: v } => {
                        if k2 == kv {
                            match v {
                                mem::Value::String(s) => Ok(Some(s)),
                                mem::Value::Integer(_) => Err(Error::Consistency),
                            }
                        } else {
                            proof {
                                assert(false);
                            }
                            Err(Error::Consistency)
                        }
                    },
                    mem::Entry::Remove { .. } => {
                        proof {
                            assert(false);
                        }
                        Err(Error::Consistency)
                    },
                }
            },
            Ok(None) => {
                proof {
                    assert(false);
                }
                Err(Error::Consistency)
            },
            Err(e) => {
                proof {
                    assert(false);
                }
                Err(e)
            },
        }
    }

    /// Flushes every generation and hands the file pairs out, numbered by
    /// generation, for the surrounding application to write back to disk.
    /// A fresh `open` of exactly these files rebuilds a store with the
    /// same observable map: together with `open`'s contract this is the
    /// persistence guarantee.
    pub fn close(self) -> (r: Vec<GenFiles>)
        requires
            self.wf(),
        ensures
            r@.len() == self.gens@.len(),
            forall|i: int|
                0 <= i < r@.len() ==> (#[trigger] r@[i])@.gen == i && scan_clean(
                    r@[i]@.log,
                    r@[i]@.data,
                ),
            spec_recover(views_of_files(r@)) == self@,
    {
        let mut out: Vec<GenFiles> = Vec::new();
        let n = self.gens.len();
        let mut g: usize = 0;
        while g < n
            invariant
                self.wf(),
                g <= n,
                n == self.gens@.len(),
                out@.len() == g,
                forall|i: int|
                    0 <= i < g ==> (#[trigger] out@[i])@.gen == i && out@[i]@.log == self.gens@[i].writer.log()
                        && out@[i]@.data == self.gens@[i].writer.data(),
            decreases n - g,
        {
            let pair = &self.gens[g];
            let gf = GenFiles {
                gen: g as u64,
                log: copy_bytes(&pair.writer.entry_writer.data),
                data: copy_bytes(&pair.writer.data_writer.data),
            };
            out.push(gf);
            g = g + 1;
        }
        proof {
            assert(gen_views_of(views_of_files(out@)) =~= self.gen_views());
        }
        out
    }

    /// Rewrites generation `g` to hold only its live records, in scan
    /// order, and repoints the index at their new positions.  Requires
    /// every generation below `g` to be fully live already (the pass
    /// works upward), because it keeps no tombstones: with nothing stale
    /// left below, no tombstone has anything to shadow.
    fn compact_gen(&mut self, g: usize) -> (r: Result<(), Error>)
        requires
            old(self).wf_core(),
            g < old(self).gens@.len(),
            forall|j: int|
                0 <= j < g ==> gen_fully_live(#[trigger] old(self).gens@[j], old(self).model(), j),
        ensures
            r is Ok,
            final(self).wf_core(),
            final(self)@ == old(self)@,
            final(self).gens@.len() == old(self).gens@.len(),
            final(self).current_gen == old(self).current_gen,
            forall|j: int|
                0 <= j < final(self).gens@.len() && j != g ==> final(self).gens@[j].writer == old(
                    self,
                ).gens@[j].writer,
            final(self).gen_len(g as int) <= old(self).gen_len(g as int),
            forall|k: mem::ValueView|
                #[trigger] final(self).model().contains_key(k) <==> old(
                    self,
                ).model().contains_key(k),
            forall|k: mem::ValueView|
                #[trigger] old(self).model().contains_key(k) ==> {
                    &&& final(self).model()[k].value == old(self).model()[k].value
                    &&& final(self).model()[k].gen == old(self).model()[k].gen
                    &&& (old(self).model()[k].gen != g ==> final(self).model()[k] == old(
                        self,
                    ).model()[k])
                },
            gen_fully_live(final(self).gens@[g as int], final(self).model(), g as int),
            forall|p: int|
                0 <= p < final(self).gen_len(g as int) ==> slot_covered(
                    final(self).model(),
                    g as int,
                    p,
                ),
    {
        let ghost m0 = self.model();
        let ghost views0 = self.gen_views();
        let ghost grecs = spec_records(self.gens@[g as int].writer.log());
        let ghost gdata = self.gens@[g as int].writer.data();
        let n = self.gens[g].writer.get_pos();
        let log_copy;
        let data_copy;
        {
            let pair_ref = &self.gens[g];
            log_copy = copy_bytes(&pair_ref.writer.entry_writer.data);
            data_copy = copy_bytes(&pair_ref.writer.data_writer.data);
        }
        {
            let pair = &mut self.gens[g];
            match pair.writer.flush() {
                Ok(()) => (),
                Err(_) => {
                    proof {
                        assert(false);
                    }
                },
            }
            pair.reader.refresh(log_copy, data_copy);
        }
        let mut temp = match LogWriter::new(SeekFile::new(), SeekFile::new()) {
            Ok(w) => w,
            Err(_) => {
                proof {
                    assert(false);
                }
                return Err(Error::Io);
            },
        };
        let ghost mut owners: Seq<mem::ValueView> = Seq::empty();
        proof {
            assert(temp.log() =~= Seq::<u8>::empty());
            assert(spec_records(temp.log()) =~= Seq::<file::Entry>::empty());
            assert(self.gen_views() =~= views0);
            assert(self.model() == m0);
            assert forall|k: mem::ValueView|
                #![trigger model::gen_last(spec_records(temp.log()), temp.data(), k)]
                {
                    &&& model::gen_last(spec_records(temp.log()), temp.data(), k)
                        == GenOutcome::Untouched
                    &&& (self.index@.contains_key(k) <==> m0.contains_key(k))
                    &&& (m0.contains_key(k) ==> self.index@[k].gen as int == m0[k].gen
                        && self.index@[k].position as int == m0[k].pos)
                } by {
                assert(self.index@ == old(self).index@);
                assert(old(self).index@.contains_key(k) <==> old(self).model().contains_key(k));
                if old(self).index@.contains_key(k) {
                    assert(old(self).index@[k].gen == old(self).model()[k].gen && old(
                        self,
                    ).index@[k].position == old(self).model()[k].pos);
                }
            }
        }
        let mut p: u64 = 0;
        while p < n
            invariant
                old(self).wf_core(),
                g < old(self).gens@.len(),
                m0 == old(self).model(),
                views0 == old(self).gen_views(),
                grecs == spec_records(old(self).gens@[g as int].writer.log()),
                gdata == old(self).gens@[g as int].writer.data(),
                n == grecs.len(),
                p <= n,
                self.gens@.len() == old(self).gens@.len(),
                self.current_gen == old(self).current_gen,
                forall|j: int|
                    0 <= j < self.gens@.len() ==> (#[trigger] self.gens@[j]).writer == old(
                        self,
                    ).gens@[j].writer,
                self.gens@[g as int].reader.log() == old(self).gens@[g as int].writer.log(),
                self.gens@[g as int].reader.data() == gdata,
                self.index.wf(),
                temp.wf(),
                log_holds(temp.log(), spec_records(temp.log())),
                temp.log().len() == spec_records(temp.log()).len() * SERIALIZED_ENTRY_SIZE,
                temp.entry_pos == spec_records(temp.log()).len(),
                spec_records(temp.log()).len() <= p,
                forall|q: int|
                    0 <= q < spec_records(temp.log()).len() ==> spec_resolve_entry(
                        temp.data(),
                        #[trigger] spec_records(temp.log())[q],
                    ) is Some,
                owners.len() == spec_records(temp.log()).len(),
                forall|q: int|
                    0 <= q < owners.len() ==> m0.contains_key(#[trigger] owners[q])
                        && m0[owners[q]].gen == g && model::gen_last(
                        spec_records(temp.log()),
                        temp.data(),
                        owners[q],
                    ) == (GenOutcome::Written { pos: q, value: m0[owners[q]].value }),
                forall|k: mem::ValueView|
                    #![trigger model::gen_last(spec_records(temp.log()), temp.data(), k)]
                    {
                        if m0.contains_key(k) && m0[k].gen == g && m0[k].pos < p {
                            &&& model::gen_last(spec_records(temp.log()), temp.data(), k)
                                matches GenOutcome::Written { pos, value } && 0 <= pos
                                < spec_records(temp.log()).len() && value == m0[k].value
                                && self.index@.contains_key(k) && self.index@[k].gen as int == g
                                && self.index@[k].position as int == pos
                        } else {
                            &&& model::gen_last(spec_records(temp.log()), temp.data(), k)
                                == GenOutcome::Untouched
                            &&& (self.index@.contains_key(k) <==> m0.contains_key(k))
                            &&& (m0.contains_key(k) ==> self.index@[k].gen as int == m0[k].gen
                                && self.index@[k].position as int == m0[k].pos)
                        }
                    },
            decreases n - p,
        {
            proof {
                codec::lemma_records_decompose(old(self).gens@[g as int].writer.log(), p as int);
            }
            let fe = {
                let pair = &mut self.gens[g];
                match pair.reader.seek(p) {
                    Ok(()) => (),
                    Err(_) => {
                        proof {
                            assert(false);
                        }
                        return Err(Error::Io);
                    },
                }
                match pair.reader.read_file_entry() {
                    Ok(Some(e)) => e,
                    Ok(None) => {
                        proof {
                            assert(false);
                        }
                        return Err(Error::Decode);
                    },
                    Err(_) => {
                        proof {
                            assert(false);
                        }
                        return Err(Error::Decode);
                    },
                }
            };
            proof {
                assert(fe == grecs[p as int]);
                assert(self.gen_views() =~= views0);
            }
            match fe {
                file::Entry::Put { key: fk, value: fv } => {
                    let k = {
                        let pair = &mut self.gens[g];
                        match pair.reader.lookup_value(&fk) {
                            Ok(v) => v,
                            Err(_) => {
                                proof {
                                    assert(false);
                                }
                                return Err(Error::Decode);
                            },
                        }
                    };
                    let keep = match self.index.get(&k) {
                        Some(ie) => ie.gen == g as u64 && ie.position == p,
                        None => false,
                    };
                    if keep {
                        proof {
                            // the record under the scan is this key's live one
                            let outc = model::gen_last(spec_records(temp.log()), temp.data(), k@);
                            if m0.contains_key(k@) && m0[k@].gen == g && m0[k@].pos < p {
                                assert(false);
                            }
                            assert(m0.contains_key(k@) && m0[k@].gen == g && m0[k@].pos == p);
                            model::lemma_replay_entry(views0, k@);
                            assert(views0[g as int].records == grecs);
                        }
                        let v = {
                            let pair = &mut self.gens[g];
                            match pair.reader.lookup_value(&fv) {
                                Ok(v) => v,
                                Err(_) => {
                                    proof {
                                        assert(false);
                                    }
                                    return Err(Error::Decode);
                                },
                            }
                        };
                        proof {
                            assert(v@ == m0[k@].value);
                        }
                        let me = mem::Entry::Put { key: k, value: v };
                        let ghost old_temp = temp;
                        let ghost old_owners = owners;
                        let newpos = match temp.write_entry(&me) {
                            Ok(np) => np,
                            Err(_) => {
                                proof {
                                    assert(false);
                                }
                                return Err(Error::Overflow);
                            },
                        };
                        proof {
                            let placed = spec_place_entry(me@, old_temp.data().len() as int);
                            let payload = spec_entry_payload(me@);
                            assert(newpos * SERIALIZED_ENTRY_SIZE == old_temp.log().len());
                            crate::seekfile::lemma_write_at_end(
                                old_temp.log(),
                                codec::spec_encode_slot(Some(placed)),
                            );
                            codec::lemma_log_append(
                                old_temp.log(),
                                spec_records(old_temp.log()),
                                placed,
                            );
                            writer::lemma_placed_entry_resolves(
                                old_temp.data(),
                                temp.data(),
                                me@,
                            );
                            assert forall|q: int|
                                0 <= q < spec_records(old_temp.log()).len() implies spec_resolve_entry(
                                temp.data(),
                                #[trigger] spec_records(old_temp.log())[q],
                            ) is Some by {
                                model::lemma_resolve_entry_extend(
                                    old_temp.data(),
                                    payload,
                                    spec_records(old_temp.log())[q],
                                );
                            }
                            // outcomes: the new slot answers for this key,
                            // every other key's outcome is untouched
                            assert forall|k2: mem::ValueView| k2 != k@ implies model::gen_last(
                                spec_records(temp.log()),
                                temp.data(),
                                k2,
                            ) == model::gen_last(
                                spec_records(old_temp.log()),
                                old_temp.data(),
                                k2,
                            ) by {
                                assert(spec_records(temp.log()).drop_last() =~= spec_records(
                                    old_temp.log(),
                                ));
                                model::lemma_gen_last_extend(
                                    spec_records(old_temp.log()),
                                    old_temp.data(),
                                    payload,
                                    k2,
                                );
                            }
                            assert(model::gen_last(spec_records(temp.log()), temp.data(), k@)
                                == (GenOutcome::Written { pos: newpos as int, value: m0[k@].value }));
                            assert forall|k2: mem::ValueView| k2 != k@ implies !(m0.contains_key(
                                k2,
                            ) && m0[k2].gen == g && m0[k2].pos == p) by {
                                if m0.contains_key(k2) && m0[k2].gen == g && m0[k2].pos == p {
                                    model::lemma_replay_entry(views0, k2);
                                    assert(views0[g as int].records == grecs);
                                    assert(k2 == k@);
                                }
                            }
                            owners = old_owners.push(k@);
                        }
                        match me {
                            mem::Entry::Put { key, .. } => {
                                self.index.insert(
                                    key,
                                    IndexEntry { gen: g as u64, position: newpos },
                                );
                            },
                            mem::Entry::Remove { .. } => (),
                        }
                    } else {
                        proof {
                            // no key lives at (g, p): if one did, its index
                            // entry would have matched the scan position
                            assert forall|k2: mem::ValueView|
                                !(m0.contains_key(k2) && m0[k2].gen == g && m0[k2].pos
                                    == p) by {
                                if m0.contains_key(k2) && m0[k2].gen == g && m0[k2].pos == p {
                                    model::lemma_replay_entry(views0, k2);
                                    assert(views0[g as int].records == grecs);
                                    assert(k2 == k@);
                                    let outc = model::gen_last(
                                        spec_records(temp.log()),
                                        temp.data(),
                                        k2,
                                    );
                                    assert(self.index@.contains_key(k2) && self.index@[k2].gen
                                        as int == g && self.index@[k2].position as int == p);
                                    assert(false);
                                }
                            }
                        }
                    }
                },
                file::Entry::Remove { .. } => {
                    proof {
                        // a tombstone is never a live record
                        assert forall|k2: mem::ValueView|
                            !(m0.contains_key(k2) && m0[k2].gen == g && m0[k2].pos == p) by {
                            if m0.contains_key(k2) && m0[k2].gen == g && m0[k2].pos == p {
                                model::lemma_replay_entry(views0, k2);
                                assert(views0[g as int].records == grecs);
                                assert(false);
                            }
                        }
                    }
                },
            }
            p = p + 1;
        }
        let ghost tempv = temp;
        {
            let pair = &mut self.gens[g];
            pair.writer = temp;
        }
        proof {
            let glen = self.gens@.len() as int;
            let newviews = self.gen_views();
            let newm = self.model();
            let trecs = spec_records(tempv.log());
            let td = tempv.data();
            assert(self.gens@[g as int].writer == tempv);
            assert(newviews[g as int].records == trecs);
            assert(newviews[g as int].data == td);
            assert(forall|j: int| 0 <= j < glen && j != g ==> newviews[j] == views0[j]);
            // per-key: the new replay agrees with the rebuilt index
            assert forall|k: mem::ValueView|
                #![trigger newm.contains_key(k)]
                #![trigger m0.contains_key(k)]
                #![trigger self.index@.contains_key(k)]
                {
                    &&& (newm.contains_key(k) <==> m0.contains_key(k))
                    &&& (m0.contains_key(k) ==> newm.contains_key(k) && newm[k].value
                        == m0[k].value && newm[k].gen == m0[k].gen && (m0[k].gen != g
                        ==> newm[k] == m0[k]) && self.index@.contains_key(k)
                        && self.index@[k].gen as int == newm[k].gen
                        && self.index@[k].position as int == newm[k].pos)
                    &&& (!m0.contains_key(k) ==> !self.index@.contains_key(k))
                } by {
                let outc = model::gen_last(trecs, td, k);
                model::lemma_replay_char(views0, glen, k);
                model::lemma_replay_char(newviews, glen, k);
                if m0.contains_key(k) {
                    model::lemma_live_of_inversion(views0, glen, k);
                    model::lemma_replay_entry(views0, k);
                    assert(views0[g as int].records == grecs);
                    let rec = m0[k];
                    if rec.gen == g {
                        assert(rec.pos < n);
                        assert forall|j: int| g < j < glen implies model::gen_last(
                            newviews[j].records,
                            #[trigger] newviews[j].data,
                            k,
                        ) == GenOutcome::Untouched by {
                            assert(newviews[j] == views0[j]);
                        }
                        model::lemma_live_of_skip(newviews, g as int + 1, glen, k);
                    } else {
                        if rec.gen < g {
                            assert(outc == GenOutcome::Untouched);
                        }
                        assert forall|j: int| rec.gen < j < glen implies model::gen_last(
                            newviews[j].records,
                            #[trigger] newviews[j].data,
                            k,
                        ) == GenOutcome::Untouched by {
                            if j != g {
                                assert(newviews[j] == views0[j]);
                            } else {
                                assert(model::gen_last(newviews[j].records, newviews[j].data, k)
                                    == outc);
                            }
                        }
                        model::lemma_live_of_skip(newviews, rec.gen + 1, glen, k);
                        assert(newviews[rec.gen] == views0[rec.gen]);
                    }
                } else {
                    // absent keys stay absent: the compacted generations,
                    // this one included, have no word on them
                    assert forall|j: int|
                        0 <= j <= g implies model::gen_last(
                        newviews[j].records,
                        #[trigger] newviews[j].data,
                        k,
                    ) == GenOutcome::Untouched by {
                        if j < g {
                            assert(newviews[j] == views0[j]);
                            assert(gen_fully_live(old(self).gens@[j], m0, j));
                            match gen_last_of(old(self).gens@[j], k) {
                                GenOutcome::Untouched => {
                                    assert(views0[j].records == spec_records(
                                        old(self).gens@[j].writer.log(),
                                    ));
                                },
                                GenOutcome::Removed => {
                                    assert(false);
                                },
                                GenOutcome::Written { pos, value } => {
                                    assert(false);
                                },
                            }
                        } else {
                            assert(model::gen_last(newviews[j].records, newviews[j].data, k)
                                == outc);
                        }
                    }
                    model::lemma_live_of_none(views0, newviews, g as int, glen, k);
                }
            }
            assert(self@ =~= old(self)@);
            // generation g holds nothing but live records
            assert forall|k: mem::ValueView|
                match #[trigger] gen_last_of(self.gens@[g as int], k) {
                    GenOutcome::Untouched => true,
                    GenOutcome::Removed => false,
                    GenOutcome::Written { pos, value } => newm.contains_key(k) && newm[k]
                        == (LiveRec { gen: g as int, pos, value }),
                } by {
                let outc = model::gen_last(trecs, td, k);
                assert(gen_last_of(self.gens@[g as int], k) == outc);
                match outc {
                    GenOutcome::Untouched => {},
                    GenOutcome::Removed => {
                        assert(false);
                    },
                    GenOutcome::Written { pos, value } => {
                        assert(m0.contains_key(k) && m0[k].gen == g && m0[k].pos < n);
                        assert(self.index@[k].position as int == pos);
                        assert(newm[k].pos == pos && newm[k].gen == g && newm[k].value == value);
                    },
                }
            }
            // every slot of the compacted generation is some key's live
            // record
            assert(self.gen_len(g as int) == trecs.len());
            assert forall|q: int| 0 <= q < self.gen_len(g as int) implies slot_covered(
                newm,
                g as int,
                q,
            ) by {
                let k = owners[q];
                let outc = model::gen_last(trecs, td, k);
                assert(outc == (GenOutcome::Written { pos: q, value: m0[k].value }));
                assert(self.index@[k].position as int == q);
                assert(newm.contains_key(k) && newm[k].gen == g && newm[k].pos == q);
                assert(slot_covered(newm, g as int, q));
            }
            // the generations are all healthy
            assert forall|j: int| 0 <= j < glen implies gen_wf(#[trigger] self.gens@[j]) by {
                if j != g {
                    assert(self.gens@[j].writer == old(self).gens@[j].writer);
                    assert(gen_wf(old(self).gens@[j]));
                }
            }
        }
        Ok(())
    }

    /// Compacts every generation, in ascending order, then opens a fresh
    /// generation if the current one is still over the threshold.  The
    /// observable map is unchanged; afterwards every surviving record is
    /// live and every generation is at or under the per-file cap.
    pub fn compact_all(&mut self) -> (r: Result<(), Error>)
        requires
            old(self).wf_core(),
        ensures
            r is Ok,
            final(self).wf(),
            final(self)@ == old(self)@,
            final(self).gens@.len() >= old(self).gens@.len(),
            forall|j: int|
                0 <= j < old(self).gens@.len() ==> final(self).gen_len(j) <= old(self).gen_len(j),
            forall|j: int, q: int|
                0 <= j < old(self).gens@.len() && 0 <= q < final(self).gen_len(j) ==> slot_covered(
                    final(self).model(),
                    j,
                    q,
                ),
            forall|j: int|
                0 <= j < final(self).gens@.len() ==> gen_fully_live(
                    #[trigger] final(self).gens@[j],
                    final(self).model(),
                    j,
                ),
    {
        let n = self.gens.len();
        let mut g: usize = 0;
        while g < n
            invariant
                g <= n,
                n == self.gens@.len(),
                self.wf_core(),
                self.gens@.len() == old(self).gens@.len(),
                self.current_gen == old(self).current_gen,
                self@ == old(self)@,
                forall|k: mem::ValueView|
                    #[trigger] self.model().contains_key(k) <==> old(
                        self,
                    ).model().contains_key(k),
                forall|k: mem::ValueView|
                    #[trigger] old(self).model().contains_key(k) ==> self.model()[k].value == old(
                        self,
                    ).model()[k].value && self.model()[k].gen == old(self).model()[k].gen,
                forall|j: int| g <= j < n ==> (#[trigger] self.gens@[j]).writer == old(self).gens@[j].writer,
                forall|j: int| 0 <= j < n ==> self.gen_len(j) <= old(self).gen_len(j),
                forall|j: int|
                    0 <= j < g ==> gen_fully_live(#[trigger] self.gens@[j], self.model(), j),
                forall|j: int, q: int|
                    0 <= j < g && 0 <= q < self.gen_len(j) ==> slot_covered(self.model(), j, q),
            decreases n - g,
        {
            let ghost m_pre = self.model();
            let ghost gens_pre = self.gens@;
            match self.compact_gen(g) {
                Ok(()) => (),
                Err(_) => {
                    proof {
                        assert(false);
                    }
                },
            }
            proof {
                // the observable map and each key's owning generation
                // come through the compacted generation unchanged
                assert forall|k: mem::ValueView|
                    #[trigger] old(self).model().contains_key(k) implies self.model()[k].value
                    == old(self).model()[k].value && self.model()[k].gen == old(
                    self,
                ).model()[k].gen by {
                    assert(m_pre.contains_key(k));
                }
                assert(self@ == old(self)@);
                // already-compacted generations stay fully live and
                // covered: their files and their keys' records unchanged
                assert forall|j: int| 0 <= j < g + 1 implies gen_fully_live(
                    #[trigger] self.gens@[j],
                    self.model(),
                    j,
                ) by {
                    if j < g {
                        assert(self.gens@[j].writer == gens_pre[j].writer);
                        assert forall|k: mem::ValueView|
                            match #[trigger] gen_last_of(self.gens@[j], k) {
                                GenOutcome::Untouched => true,
                                GenOutcome::Removed => false,
                                GenOutcome::Written { pos, value } => self.model().contains_key(k)
                                    && self.model()[k] == (LiveRec { gen: j, pos, value }),
                            } by {
                            assert(gen_last_of(self.gens@[j], k) == gen_last_of(gens_pre[j], k));
                            assert(gen_fully_live(gens_pre[j], m_pre, j));
                            match gen_last_of(gens_pre[j], k) {
                                GenOutcome::Written { pos, value } => {
                                    assert(m_pre.contains_key(k) && m_pre[k] == (LiveRec {
                                        gen: j,
                                        pos,
                                        value,
                                    }));
                                    assert(self.model()[k] == m_pre[k]);
                                },
                                _ => {},
                            }
                        }
                    }
                }
                assert forall|j: int, q: int| 0 <= j < g + 1 && 0 <= q < self.gen_len(j) implies
                    slot_covered(self.model(), j, q) by {
                    if j < g {
                        assert(self.gen_len(j) == spec_records(gens_pre[j].writer.log()).len());
                        assert(slot_covered(m_pre, j, q));
                        let k = choose|k: mem::ValueView|
                            #[trigger] m_pre.contains_key(k) && m_pre[k].gen == j && m_pre[k].pos
                                == q;
                        assert(self.model().contains_key(k) && self.model()[k] == m_pre[k]);
                        assert(slot_covered(self.model(), j, q));
                    }
                }
            }
            g = g + 1;
        }
        let last = self.gens.len() - 1;
        proof {
            assert(gen_wf(self.gens@[last as int]));
        }
        if self.gens[last].writer.get_pos() > COMPACTION_THRESHOLD {
            let ghost views_pre = self.gen_views();
            let ghost m_pre = self.model();
            let ghost gens_pre2 = self.gens@;
            let w = match LogWriter::new(SeekFile::new(), SeekFile::new()) {
                Ok(w) => w,
                Err(_) => {
                    proof {
                        assert(false);
                    }
                    return Err(Error::Io);
                },
            };
            let rd = match LogReader::new(SeekFile::new(), SeekFile::new()) {
                Ok(rd) => rd,
                Err(_) => {
                    proof {
                        assert(false);
                    }
                    return Err(Error::Io);
                },
            };
            self.gens.push(GenPair { reader: rd, writer: w });
            let glen_now = self.gens.len();
            self.current_gen = self.current_gen + 1;
            proof {
                assert(self.gens@.len() == glen_now);
                let glen = self.gens@.len() as int;
                assert(spec_records(Seq::<u8>::empty()) =~= Seq::<file::Entry>::empty());
                assert(self.gens@[glen - 1].writer.log() =~= Seq::<u8>::empty());
                assert(self.gen_views()[glen - 1].records =~= Seq::<file::Entry>::empty());
                assert(forall|j: int|
                    0 <= j < glen - 1 ==> self.gen_views()[j] == views_pre[j]);
                model::lemma_replay_upto_congruence(self.gen_views(), views_pre, glen - 1);
                assert(replay_all(self.gen_views()) == model::replay_gen(
                    model::replay_upto(self.gen_views(), glen - 1),
                    self.gen_views()[glen - 1].records,
                    self.gen_views()[glen - 1].data,
                    glen - 1,
                ));
                assert(self.model() == m_pre);
                assert(self@ == old(self)@);
                // the fresh generation is healthy and empty
                assert(log_holds(Seq::<u8>::empty(), Seq::<file::Entry>::empty()));
                assert(gen_wf(self.gens@[glen - 1]));
                assert forall|j: int| 0 <= j < glen implies gen_wf(#[trigger] self.gens@[j]) by {}
                assert(self.gen_len(glen - 1) == 0);
                // the fresh generation holds no records, so it is
                // trivially fully live; the rest carry their facts over
                assert forall|k: mem::ValueView|
                    #[trigger] gen_last_of(self.gens@[glen - 1], k)
                        == GenOutcome::Untouched by {}
                assert forall|j: int| 0 <= j < glen implies gen_fully_live(
                    #[trigger] self.gens@[j],
                    self.model(),
                    j,
                ) by {
                    if j < glen - 1 {
                        assert(self.gens@[j] == gens_pre2[j]);
                        assert(gen_fully_live(gens_pre2[j], m_pre, j));
                    }
                }
            }
        }
        Ok(())
    }

    /// A fresh, empty store: one empty generation and nothing live.
    pub fn new() -> (r: Result<KvStore, Error>)
        ensures
            r matches Ok(st) && st.wf() && st@ == Map::<mem::ValueView, mem::ValueView>::empty(),
    {
        let st = match Self::open(Vec::new()) {
            Ok(st) => st,
            Err(e) => {
                proof {
                    assert(false);
                }
                return Err(e);
            },
        };
        proof {
            assert(st@ =~= Map::<mem::ValueView, mem::ValueView>::empty());
        }
        Ok(st)
    }

    /// Opens a store from the generation file pairs found in the store's
    /// directory, given in ascending generation order.  Each generation
    /// is replayed into the index, in order; the log is truncated at the
    /// first absent slot or partial tail (those slots are treated as
    /// never written), and the next append lands after the last replayed
    /// record.  Opening fails only on a file a scan cannot consume
    /// cleanly: an undecodable slot, a reference that does not resolve,
    /// or a log over the per-file cap.  A generation count past the
    /// compaction threshold triggers a compaction, as any write past the
    /// threshold does.
    pub fn open(files: Vec<GenFiles>) -> (r: Result<KvStore, Error>)
        ensures
            (forall|i: int|
                0 <= i < files@.len() ==> scan_clean(
                    (#[trigger] files@[i])@.log,
                    files@[i]@.data,
                )) ==> r is Ok,
            r matches Ok(st) ==> st.wf() && st@ == spec_recover(views_of_files(files@)),
    {
        let ghost fviews = gen_views_of(views_of_files(files@));
        let mut st = KvStore { gens: Vec::new(), current_gen: 0, index: Index::new() };
        let nfiles = files.len();
        let mut g: usize = 0;
        while g < nfiles
            invariant
                nfiles == files@.len(),
                g <= nfiles,
                fviews == gen_views_of(views_of_files(files@)),
                st.gens@.len() == g,
                st.index.wf(),
                forall|j: int| 0 <= j < g ==> gen_wf(#[trigger] st.gens@[j]),
                forall|j: int|
                    0 <= j < g ==> (#[trigger] st.gens@[j]).writer.data() == files@[j]@.data
                        && spec_records(st.gens@[j].writer.log()) == spec_records(files@[j]@.log),
                forall|j: int|
                    0 <= j < g ==> scan_clean((#[trigger] files@[j])@.log, files@[j]@.data),
                forall|k: mem::ValueView|
                    #[trigger] st.index@.contains_key(k) <==> model::replay_upto(
                        fviews,
                        g as int,
                    ).contains_key(k),
                forall|k: mem::ValueView|
                    #[trigger] st.index@.contains_key(k) ==> st.index@[k].gen as int
                        == model::replay_upto(fviews, g as int)[k].gen && st.index@[k].position
                        as int == model::replay_upto(fviews, g as int)[k].pos,
            decreases nfiles - g,
        {
            let logv = copy_bytes(&files[g].log);
            let datav = copy_bytes(&files[g].data);
            let mut rdr = match LogReader::new(
                SeekFile::from_vec(logv),
                SeekFile::from_vec(datav),
            ) {
                Ok(r) => r,
                Err(_) => {
                    proof {
                        assert(false);
                    }
                    return Err(Error::Io);
                },
            };
            let ghost flog = files@[g as int]@.log;
            let ghost fdata = files@[g as int]@.data;
            let ghost frecs = spec_records(flog);
            let ghost m_prev = model::replay_upto(fviews, g as int);
            let mut count: u64 = 0;
            let mut done = false;
            while !done
                invariant
                    nfiles == files@.len(),
                    g < nfiles,
                    fviews == gen_views_of(views_of_files(files@)),
                    flog == files@[g as int]@.log,
                    fdata == files@[g as int]@.data,
                    frecs == spec_records(flog),
                    m_prev == model::replay_upto(fviews, g as int),
                    fviews[g as int].records == frecs,
                    fviews[g as int].data == fdata,
                    rdr.log() == flog,
                    rdr.data() == fdata,
                    rdr.wf(),
                    rdr.entry_pos == count,
                    count <= frecs.len(),
                    count <= MAX_ENTRIES_PER_FILE,
                    forall|q: int|
                        0 <= q < count ==> spec_resolve_entry(fdata, #[trigger] frecs[q]) is Some,
                    done ==> count == frecs.len() && (count * SERIALIZED_ENTRY_SIZE
                        + SERIALIZED_ENTRY_SIZE > flog.len() || codec::spec_decode_slot(
                        codec::spec_slot_at(flog, count as int),
                    ) == Some(None::<file::Entry>)),
                    st.gens@.len() == g,
                    st.index.wf(),
                    forall|j: int| 0 <= j < g ==> gen_wf(#[trigger] st.gens@[j]),
                    forall|j: int|
                        0 <= j < g ==> (#[trigger] st.gens@[j]).writer.data() == files@[j]@.data
                            && spec_records(st.gens@[j].writer.log()) == spec_records(
                            files@[j]@.log,
                        ),
                    forall|j: int|
                        0 <= j < g ==> scan_clean((#[trigger] files@[j])@.log, files@[j]@.data),
                    forall|k: mem::ValueView|
                        #[trigger] st.index@.contains_key(k) <==> model::replay_gen(
                            m_prev,
                            frecs.take(count as int),
                            fdata,
                            g as int,
                        ).contains_key(k),
                    forall|k: mem::ValueView|
                        #[trigger] st.index@.contains_key(k) ==> st.index@[k].gen as int
                            == model::replay_gen(
                            m_prev,
                            frecs.take(count as int),
                            fdata,
                            g as int,
                        )[k].gen && st.index@[k].position as int == model::replay_gen(
                            m_prev,
                            frecs.take(count as int),
                            fdata,
                            g as int,
                        )[k].pos,
                decreases (frecs.len() - count) * 2 + (if done {
                    0int
                } else {
                    1int
                }),
            {
                proof {
                    codec::lemma_records_decompose(flog, count as int);
                }
                let ghost m_cur = model::replay_gen(
                    m_prev,
                    frecs.take(count as int),
                    fdata,
                    g as int,
                );
                match rdr.read_entry() {
                    Ok(Some(me)) => {
                        proof {
                            assert(count < frecs.len());
                        }
                        if count >= MAX_ENTRIES_PER_FILE {
                            proof {
                                assert(frecs.len() > MAX_ENTRIES_PER_FILE);
                                assert(!scan_clean(files@[g as int]@.log, files@[g as int]@.data));
                            }
                            return Err(Error::Overflow);
                        }
                        proof {
                            assert(frecs.take(count + 1).drop_last() =~= frecs.take(count as int));
                            assert(frecs.take(count + 1).last() == frecs[count as int]);
                            assert(model::replay_gen(m_prev, frecs.take(count + 1), fdata, g as int)
                                == model::apply_record(
                                m_cur,
                                fdata,
                                frecs[count as int],
                                g as int,
                                count as int,
                            ));
                        }
                        match me {
                            mem::Entry::Put { key, value } => {
                                st.index.insert(
                                    key,
                                    IndexEntry { gen: g as u64, position: count },
                                );
                            },
                            mem::Entry::Remove { key } => {
                                st.index.remove(&key);
                            },
                        }
                        count = count + 1;
                    },
                    Ok(None) => {
                        proof {
                            if count < frecs.len() {
                                assert(false);
                            }
                        }
                        done = true;
                    },
                    Err(e) => {
                        proof {
                            if count < frecs.len() {
                                assert(spec_resolve_entry(fdata, frecs[count as int]) is None);
                            } else {
                                assert(!log_holds(flog, frecs));
                            }
                            assert(!scan_clean(files@[g as int]@.log, files@[g as int]@.data));
                        }
                        return Err(e);
                    },
                }
            }
            // the writer takes the log truncated at the scan's stopping
            // point, so the next append lands right after the replayed
            // records
            let mut logv2 = copy_bytes(&files[g].log);
            logv2.truncate((count as usize) * SERIALIZED_ENTRY_SIZE);
            let datav2 = copy_bytes(&files[g].data);
            let mut w = match LogWriter::new(SeekFile::from_vec(logv2), SeekFile::from_vec(datav2)) {
                Ok(w) => w,
                Err(_) => {
                    proof {
                        assert(false);
                    }
                    return Err(Error::Io);
                },
            };
            w.set_pos(count);
            proof {
                let tlog = w.log();
                let n = count as int;
                if n > 0 {
                    codec::lemma_records_decompose(flog, n - 1);
                }
                assert(flog.len() >= n * SERIALIZED_ENTRY_SIZE);
                assert(tlog =~= flog.take(n * SERIALIZED_ENTRY_SIZE));
                assert forall|q: int| 0 <= q < n implies codec::spec_decode_slot(
                    #[trigger] codec::spec_slot_at(tlog, q),
                ) == Some(Some(frecs[q])) by {
                    codec::lemma_records_decompose(flog, q);
                    assert(codec::spec_slot_at(tlog, q) =~= codec::spec_slot_at(flog, q));
                }
                codec::lemma_records_of(tlog, frecs.take(n));
                assert(frecs.take(n) =~= frecs);
                assert(log_holds(tlog, frecs));
                // the source file also scanned cleanly
                assert forall|q: int| 0 <= q < frecs.len() implies codec::spec_decode_slot(
                    #[trigger] codec::spec_slot_at(flog, q),
                ) == Some(Some(frecs[q])) by {
                    codec::lemma_records_decompose(flog, q);
                }
                assert(log_holds(flog, frecs));
                assert(scan_clean(flog, fdata));
            }
            st.gens.push(GenPair { reader: rdr, writer: w });
            proof {
                assert(st.gens@[g as int].writer == w);
                assert(model::replay_upto(fviews, g as int + 1) == model::replay_gen(
                    m_prev,
                    frecs,
                    fdata,
                    g as int,
                ));
                assert(frecs.take(count as int) =~= frecs);
            }
            g = g + 1;
        }
        if nfiles == 0 {
            let w = match LogWriter::new(SeekFile::new(), SeekFile::new()) {
                Ok(w) => w,
                Err(_) => {
                    proof {
                        assert(false);
                    }
                    return Err(Error::Io);
                },
            };
            let rd = match LogReader::new(SeekFile::new(), SeekFile::new()) {
                Ok(rd) => rd,
                Err(_) => {
                    proof {
                        assert(false);
                    }
                    return Err(Error::Io);
                },
            };
            st.gens.push(GenPair { reader: rd, writer: w });
            proof {
                assert(spec_records(Seq::<u8>::empty()) =~= Seq::<file::Entry>::empty());
                assert(log_holds(Seq::<u8>::empty(), Seq::<file::Entry>::empty()));
                assert(gen_wf(st.gens@[0]));
                assert(st.gen_views()[0].records =~= Seq::<file::Entry>::empty());
                assert(st.model() == model::replay_gen(
                    model::replay_upto(st.gen_views(), 0),
                    st.gen_views()[0].records,
                    st.gen_views()[0].data,
                    0,
                ));
                assert(st.model() =~= model::replay_upto(fviews, 0));
                assert(st.model() =~= replay_all(fviews));
                assert(st@ =~= spec_recover(views_of_files(files@)));
            }
        } else {
            proof {
                assert(st.gen_views() =~= fviews);
                assert(st.model() == replay_all(fviews));
            }
        }
        let glen_exec = st.gens.len();
        st.current_gen = (glen_exec - 1) as u64;
        proof {
            assert(st.wf_core());
            assert(st@ == spec_recover(views_of_files(files@)));
        }
        let last = glen_exec - 1;
        proof {
            assert(gen_wf(st.gens@[last as int]));
        }
        if st.gens[last].writer.get_pos() > COMPACTION_THRESHOLD {
            match st.compact_all() {
                Ok(()) => (),
                Err(_) => {
                    proof {
                        assert(false);
                    }
                },
            }
        }
        Ok(st)
    }

    /// How many generations the store holds.
    pub fn generations(&self) -> (r: u64)
        requires
            self.wf(),
        ensures
            r == self.gens@.len(),
    {
        self.current_gen + 1
    }

    /// How many record slots generation `gen`'s log holds.
    pub fn log_len(&self, gen: u64) -> (r: u64)
        requires
            self.wf(),
            gen < self.gens@.len(),
        ensures
            r == self.gen_len(gen as int),
    {
        let n = self.gens.len();
        proof {
            assert(gen < n);
            assert(gen_wf(self.gens@[gen as int]));
        }
        let pair = &self.gens[gen as usize];
        pair.writer.get_pos()
    }
}

} // verus!
