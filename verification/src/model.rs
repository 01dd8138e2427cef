//! The mathematical model of the store: replaying the records of every
//! generation, in ascending generation order and ascending position,
//! yields the map of live keys.
//!
//! The engine's invariant ties its in-memory index to this replay; the
//! per-key characterization lemmas here reduce questions about a whole
//! replay to the last record each generation holds for one key.

use vstd::prelude::*;

use crate::entry::file;
use crate::entry::mem;
use crate::reader::{spec_resolve_entry, spec_resolve_value};

verus! {

/// One generation as the model sees it: its decoded records and the bytes
/// of its data file.
pub struct GenView {
    pub records: Seq<file::Entry>,
    pub data: Seq<u8>,
}

/// A live key's record: the generation and position it sits at, and the
/// value it carries.
pub struct LiveRec {
    pub gen: int,
    pub pos: int,
    pub value: mem::ValueView,
}

/// Applies one record at generation `g`, position `p` to the map of live
/// keys.  A record whose key does not resolve changes nothing; the engine
/// refuses to build a store around one.
pub open spec fn apply_record(
    m: Map<mem::ValueView, LiveRec>,
    data: Seq<u8>,
    e: file::Entry,
    g: int,
    p: int,
) -> Map<mem::ValueView, LiveRec> {
    match e {
        file::Entry::Put { key, value } => match (
            spec_resolve_value(data, key),
            spec_resolve_value(data, value),
        ) {
            (Some(k), Some(v)) => m.insert(k, LiveRec { gen: g, pos: p, value: v }),
            _ => m,
        },
        file::Entry::Remove { key } => match spec_resolve_value(data, key) {
            Some(k) => m.remove(k),
            _ => m,
        },
    }
}

/// Applies every record of one generation, in position order.
pub open spec fn replay_gen(
    m: Map<mem::ValueView, LiveRec>,
    recs: Seq<file::Entry>,
    data: Seq<u8>,
    g: int,
) -> Map<mem::ValueView, LiveRec>
    decreases recs.len(),
{
    if recs.len() == 0 {
        m
    } else {
        apply_record(
            replay_gen(m, recs.drop_last(), data, g),
            data,
            recs.last(),
            g,
            recs.len() - 1,
        )
    }
}

/// Replays the first `n` generations, in ascending order, from nothing.
pub open spec fn replay_upto(gens: Seq<GenView>, n: int) -> Map<mem::ValueView, LiveRec>
    decreases n,
{
    if n <= 0 {
        Map::empty()
    } else {
        replay_gen(replay_upto(gens, n - 1), gens[n - 1].records, gens[n - 1].data, n - 1)
    }
}

/// Replays every generation.
pub open spec fn replay_all(gens: Seq<GenView>) -> Map<mem::ValueView, LiveRec> {
    replay_upto(gens, gens.len() as int)
}

/// What the store observably holds: each live key's value.
pub open spec fn store_view(m: Map<mem::ValueView, LiveRec>) -> Map<mem::ValueView, mem::ValueView> {
    Map::new(|k: mem::ValueView| m.contains_key(k), |k: mem::ValueView| m[k].value)
}

/// One generation's last word on a key.
pub enum GenOutcome {
    /// No record of the generation resolves to the key.
    Untouched,
    /// The generation's last record for the key is a `Remove`.
    Removed,
    /// The generation's last record for the key is a `Put` at this
    /// position, carrying this value.
    Written { pos: int, value: mem::ValueView },
}

/// The last word generation records `recs` (against data file `data`)
/// have on key `k`.
pub open spec fn gen_last(recs: Seq<file::Entry>, data: Seq<u8>, k: mem::ValueView) -> GenOutcome
    decreases recs.len(),
{
    if recs.len() == 0 {
        GenOutcome::Untouched
    } else {
        match recs.last() {
            file::Entry::Put { key, value } => match (
                spec_resolve_value(data, key),
                spec_resolve_value(data, value),
            ) {
                (Some(k2), Some(v)) => if k2 == k {
                    GenOutcome::Written { pos: recs.len() - 1, value: v }
                } else {
                    gen_last(recs.drop_last(), data, k)
                },
                _ => gen_last(recs.drop_last(), data, k),
            },
            file::Entry::Remove { key } => match spec_resolve_value(data, key) {
                Some(k2) => if k2 == k {
                    GenOutcome::Removed
                } else {
                    gen_last(recs.drop_last(), data, k)
                },
                _ => gen_last(recs.drop_last(), data, k),
            },
        }
    }
}

/// The live record of `k` after replaying the first `n` generations: the
/// highest generation with a word on `k` decides.
pub open spec fn live_of(gens: Seq<GenView>, n: int, k: mem::ValueView) -> Option<LiveRec>
    decreases n,
{
    if n <= 0 {
        None
    } else {
        match gen_last(gens[n - 1].records, gens[n - 1].data, k) {
            GenOutcome::Written { pos, value } => Some(LiveRec { gen: n - 1, pos, value }),
            GenOutcome::Removed => None,
            GenOutcome::Untouched => live_of(gens, n - 1, k),
        }
    }
}

/// Replaying one generation acts on each key as its last word says.
pub proof fn lemma_replay_gen_char(
    m: Map<mem::ValueView, LiveRec>,
    recs: Seq<file::Entry>,
    data: Seq<u8>,
    g: int,
    k: mem::ValueView,
)
    ensures
        match gen_last(recs, data, k) {
            GenOutcome::Untouched => (replay_gen(m, recs, data, g).contains_key(k)
                <==> m.contains_key(k)) && (m.contains_key(k) ==> replay_gen(m, recs, data, g)[k]
                == m[k]),
            GenOutcome::Removed => !replay_gen(m, recs, data, g).contains_key(k),
            GenOutcome::Written { pos, value } => replay_gen(m, recs, data, g).contains_key(k)
                && replay_gen(m, recs, data, g)[k] == (LiveRec { gen: g, pos, value }),
        },
    decreases recs.len(),
{
    if recs.len() > 0 {
        lemma_replay_gen_char(m, recs.drop_last(), data, g, k);
    }
}

/// The whole replay maps each key exactly as [`live_of`] says.
pub proof fn lemma_replay_char(gens: Seq<GenView>, n: int, k: mem::ValueView)
    requires
        0 <= n <= gens.len(),
    ensures
        match live_of(gens, n, k) {
            Some(rec) => replay_upto(gens, n).contains_key(k) && replay_upto(gens, n)[k] == rec,
            None => !replay_upto(gens, n).contains_key(k),
        },
    decreases n,
{
    if n > 0 {
        lemma_replay_char(gens, n - 1, k);
        lemma_replay_gen_char(replay_upto(gens, n - 1), gens[n - 1].records, gens[n - 1].data, n - 1, k);
    }
}

/// A `Written` outcome names a real `Put` record that resolves to the key
/// and value it reports.
pub proof fn lemma_gen_last_written(recs: Seq<file::Entry>, data: Seq<u8>, k: mem::ValueView)
    requires
        gen_last(recs, data, k) is Written,
    ensures
        ({
            let pos = gen_last(recs, data, k)->pos;
            let value = gen_last(recs, data, k)->value;
            &&& 0 <= pos < recs.len()
            &&& recs[pos] matches file::Entry::Put { key: fk, value: fv }
                && spec_resolve_value(data, fk) == Some(k) && spec_resolve_value(data, fv) == Some(
                value,
            )
        }),
    decreases recs.len(),
{
    if recs.len() > 0 {
        match recs.last() {
            file::Entry::Put { key, value } => {
                match (spec_resolve_value(data, key), spec_resolve_value(data, value)) {
                    (Some(k2), Some(v)) => {
                        if k2 != k {
                            lemma_gen_last_written(recs.drop_last(), data, k);
                        }
                    },
                    _ => {
                        lemma_gen_last_written(recs.drop_last(), data, k);
                    },
                }
            },
            file::Entry::Remove { key } => {
                lemma_gen_last_written(recs.drop_last(), data, k);
            },
        }
    }
}

/// A live record points into a real generation, at a `Put` that resolves
/// to its key and value, and every generation above that one is silent on
/// the key.
pub proof fn lemma_live_of_inversion(gens: Seq<GenView>, n: int, k: mem::ValueView)
    requires
        0 <= n <= gens.len(),
        live_of(gens, n, k) is Some,
    ensures
        ({
            let rec = live_of(gens, n, k)->0;
            &&& 0 <= rec.gen < n
            &&& gen_last(gens[rec.gen].records, gens[rec.gen].data, k) == (GenOutcome::Written {
                pos: rec.pos,
                value: rec.value,
            })
            &&& forall|j: int|
                rec.gen < j < n ==> gen_last(gens[j].records, #[trigger] gens[j].data, k)
                    == GenOutcome::Untouched
        }),
    decreases n,
{
    if n > 0 {
        match gen_last(gens[n - 1].records, gens[n - 1].data, k) {
            GenOutcome::Written { pos, value } => {},
            GenOutcome::Removed => {},
            GenOutcome::Untouched => {
                lemma_live_of_inversion(gens, n - 1, k);
            },
        }
    }
}

/// When every generation from `j` up is silent on `k`, the walk from the
/// top reaches `j` unchanged.
pub proof fn lemma_live_of_skip(gens: Seq<GenView>, j: int, n: int, k: mem::ValueView)
    requires
        0 <= j <= n <= gens.len(),
        forall|j2: int|
            j <= j2 < n ==> gen_last(gens[j2].records, #[trigger] gens[j2].data, k)
                == GenOutcome::Untouched,
    ensures
        live_of(gens, n, k) == live_of(gens, j, k),
    decreases n - j,
{
    if j < n {
        lemma_live_of_skip(gens, j, n - 1, k);
    }
}

/// `replay_upto` only reads the generations below `n`.
pub proof fn lemma_replay_upto_congruence(a: Seq<GenView>, b: Seq<GenView>, n: int)
    requires
        0 <= n <= a.len(),
        n <= b.len(),
        forall|j: int| 0 <= j < n ==> a[j] == b[j],
    ensures
        replay_upto(a, n) == replay_upto(b, n),
    decreases n,
{
    if n > 0 {
        lemma_replay_upto_congruence(a, b, n - 1);
    }
}

/// Resolution only reads the bytes a reference points at, so growing the
/// data file changes no resolution that already succeeds.
pub proof fn lemma_resolve_value_extend(data: Seq<u8>, ext: Seq<u8>, v: file::Value)
    requires
        spec_resolve_value(data, v) is Some,
    ensures
        spec_resolve_value(data + ext, v) == spec_resolve_value(data, v),
{
    match v {
        file::Value::String { start, len } => {
            assert((data + ext).subrange(start as int, start + len) =~= data.subrange(
                start as int,
                start + len,
            ));
        },
        file::Value::Integer { value } => {},
    }
}

/// The entry-level face of [`lemma_resolve_value_extend`].
pub proof fn lemma_resolve_entry_extend(data: Seq<u8>, ext: Seq<u8>, e: file::Entry)
    requires
        spec_resolve_entry(data, e) is Some,
    ensures
        spec_resolve_entry(data + ext, e) == spec_resolve_entry(data, e),
{
    match e {
        file::Entry::Put { key, value } => {
            lemma_resolve_value_extend(data, ext, key);
            lemma_resolve_value_extend(data, ext, value);
        },
        file::Entry::Remove { key } => {
            lemma_resolve_value_extend(data, ext, key);
        },
    }
}

/// Replaying records whose references all resolve is unchanged by bytes
/// appended to the data file.
pub proof fn lemma_replay_gen_extend(
    m: Map<mem::ValueView, LiveRec>,
    recs: Seq<file::Entry>,
    data: Seq<u8>,
    ext: Seq<u8>,
    g: int,
)
    requires
        forall|p: int| 0 <= p < recs.len() ==> spec_resolve_entry(data, #[trigger] recs[p]) is Some,
    ensures
        replay_gen(m, recs, data + ext, g) == replay_gen(m, recs, data, g),
    decreases recs.len(),
{
    if recs.len() > 0 {
        lemma_replay_gen_extend(m, recs.drop_last(), data, ext, g);
        lemma_resolve_entry_extend(data, ext, recs.last());
    }
}

/// The outcome a generation has on a key is likewise unchanged by bytes
/// appended to its data file.
pub proof fn lemma_gen_last_extend(
    recs: Seq<file::Entry>,
    data: Seq<u8>,
    ext: Seq<u8>,
    k: mem::ValueView,
)
    requires
        forall|p: int| 0 <= p < recs.len() ==> spec_resolve_entry(data, #[trigger] recs[p]) is Some,
    ensures
        gen_last(recs, data + ext, k) == gen_last(recs, data, k),
    decreases recs.len(),
{
    if recs.len() > 0 {
        lemma_gen_last_extend(recs.drop_last(), data, ext, k);
        lemma_resolve_entry_extend(data, ext, recs.last());
    }
}

/// An absent key stays absent when the generations at and below `g` are
/// replaced by ones with no word on it.
pub proof fn lemma_live_of_none(a: Seq<GenView>, b: Seq<GenView>, g: int, n: int, k: mem::ValueView)
    requires
        0 <= g < n <= a.len(),
        b.len() == a.len(),
        forall|j: int| g < j < n ==> a[j] == b[j],
        forall|j: int|
            0 <= j <= g ==> gen_last(b[j].records, #[trigger] b[j].data, k)
                == GenOutcome::Untouched,
        live_of(a, n, k) is None,
    ensures
        live_of(b, n, k) is None,
    decreases n,
{
    if n - 1 <= g {
        lemma_live_of_skip(b, 0, n, k);
    } else {
        match gen_last(a[n - 1].records, a[n - 1].data, k) {
            GenOutcome::Untouched => {
                lemma_live_of_none(a, b, g, n - 1, k);
            },
            GenOutcome::Removed => {},
            GenOutcome::Written { pos, value } => {
                assert(false);
            },
        }
    }
}

/// Every live key points at a real `Put` record that resolves to it and
/// to its live value.
pub proof fn lemma_replay_entry(gens: Seq<GenView>, k: mem::ValueView)
    requires
        replay_all(gens).contains_key(k),
    ensures
        ({
            let rec = replay_all(gens)[k];
            &&& 0 <= rec.gen < gens.len()
            &&& 0 <= rec.pos < gens[rec.gen].records.len()
            &&& gens[rec.gen].records[rec.pos] matches file::Entry::Put { key: fk, value: fv }
                && spec_resolve_value(gens[rec.gen].data, fk) == Some(k) && spec_resolve_value(
                gens[rec.gen].data,
                fv,
            ) == Some(rec.value)
        }),
{
    let n = gens.len() as int;
    lemma_replay_char(gens, n, k);
    let rec = live_of(gens, n, k)->0;
    lemma_live_of_inversion(gens, n, k);
    lemma_gen_last_written(gens[rec.gen].records, gens[rec.gen].data, k);
}

/// Appending one record (and its payload bytes) to the last generation
/// acts on the whole replay as applying that record does.
pub proof fn lemma_replay_append(a: Seq<GenView>, b: Seq<GenView>, e: file::Entry, payload: Seq<u8>)
    requires
        a.len() == b.len(),
        a.len() >= 1,
        forall|j: int| 0 <= j < a.len() - 1 ==> a[j] == b[j],
        b.last().records == a.last().records.push(e),
        b.last().data == a.last().data + payload,
        forall|p: int|
            0 <= p < a.last().records.len() ==> spec_resolve_entry(
                a.last().data,
                #[trigger] a.last().records[p],
            ) is Some,
    ensures
        replay_all(b) == apply_record(
            replay_all(a),
            b.last().data,
            e,
            a.len() - 1,
            a.last().records.len() as int,
        ),
{
    let n = a.len() as int;
    lemma_replay_upto_congruence(a, b, n - 1);
    let m = replay_upto(a, n - 1);
    assert(b.last().records.drop_last() =~= a.last().records);
    assert(replay_all(b) == apply_record(
        replay_gen(m, a.last().records, b.last().data, n - 1),
        b.last().data,
        e,
        n - 1,
        a.last().records.len() as int,
    ));
    lemma_replay_gen_extend(m, a.last().records, a.last().data, payload, n - 1);
}

} // verus!
