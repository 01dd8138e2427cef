//! The in-memory index: a mapping from each live key to the generation
//! and entry position of its most recent `Put` record.
//!
//! It is the sole source of truth for which record is live; it is never
//! persisted, only reconstructed by replaying the logs on open.

use vstd::prelude::*;

use crate::entry::mem;

verus! {

/// Where a key's live record sits: generation `gen`, entry slot
/// `position` of that generation's log.
#[derive(Clone, Copy, Debug, PartialEq, Eq, Structural)]
pub struct IndexEntry {
    pub gen: u64,
    pub position: u64,
}

/// The map an association list denotes; a later pair for the same key
/// wins.
pub open spec fn map_of(s: Seq<(mem::Value, IndexEntry)>) -> Map<mem::ValueView, IndexEntry>
    decreases s.len(),
{
    if s.len() == 0 {
        Map::empty()
    } else {
        map_of(s.drop_last()).insert(s.last().0@, s.last().1)
    }
}

/// The index: an association list of keys and record locations, kept free
/// of duplicate keys.
pub struct Index {
    pub entries: Vec<(mem::Value, IndexEntry)>,
}

/// No two pairs of `s` carry the same key.
pub open spec fn dup_free(s: Seq<(mem::Value, IndexEntry)>) -> bool {
    forall|i: int, j: int| 0 <= i < j < s.len() ==> s[i].0@ != s[j].0@
}

proof fn lemma_map_of_contains(s: Seq<(mem::Value, IndexEntry)>, k: mem::ValueView)
    ensures
        map_of(s).contains_key(k) <==> exists|i: int| 0 <= i < s.len() && s[i].0@ == k,
    decreases s.len(),
{
    if s.len() > 0 {
        lemma_map_of_contains(s.drop_last(), k);
        if map_of(s).contains_key(k) && s.last().0@ != k {
            let i = choose|i: int| 0 <= i < s.drop_last().len() && s.drop_last()[i].0@ == k;
            assert(s[i].0@ == k);
        }
        if exists|i: int| 0 <= i < s.len() && s[i].0@ == k {
            let i = choose|i: int| 0 <= i < s.len() && s[i].0@ == k;
            if i < s.len() - 1 {
                assert(s.drop_last()[i].0@ == k);
            }
        }
    }
}

proof fn lemma_map_of_get(s: Seq<(mem::Value, IndexEntry)>, i: int)
    requires
        0 <= i < s.len(),
        forall|j: int| i < j < s.len() ==> s[j].0@ != s[i].0@,
    ensures
        map_of(s).contains_key(s[i].0@),
        map_of(s)[s[i].0@] == s[i].1,
    decreases s.len(),
{
    if i == s.len() - 1 {
    } else {
        assert(s.drop_last()[i] == s[i]);
        lemma_map_of_get(s.drop_last(), i);
    }
}

proof fn lemma_map_of_update(s: Seq<(mem::Value, IndexEntry)>, i: int, p: (mem::Value, IndexEntry))
    requires
        0 <= i < s.len(),
        dup_free(s),
        s[i].0@ == p.0@,
    ensures
        map_of(s.update(i, p)) =~= map_of(s).insert(p.0@, p.1),
    decreases s.len(),
{
    if i == s.len() - 1 {
        assert(s.update(i, p).drop_last() =~= s.drop_last());
        assert(s.update(i, p).last() == p);
    } else {
        assert(s.update(i, p).drop_last() =~= s.drop_last().update(i, p));
        assert(s.drop_last()[i] == s[i]);
        lemma_map_of_update(s.drop_last(), i, p);
        assert(s.update(i, p).last() == s.last());
        assert(s.last().0@ != p.0@);
    }
}

proof fn lemma_map_of_remove(s: Seq<(mem::Value, IndexEntry)>, i: int)
    requires
        0 <= i < s.len(),
        dup_free(s),
    ensures
        map_of(s.remove(i)) =~= map_of(s).remove(s[i].0@),
    decreases s.len(),
{
    if i == s.len() - 1 {
        assert(s.remove(i) =~= s.drop_last());
        lemma_map_of_contains(s.drop_last(), s[i].0@);
        assert(!map_of(s.drop_last()).contains_key(s[i].0@));
        assert(map_of(s.drop_last()).remove(s[i].0@) =~= map_of(s.drop_last()));
    } else {
        assert(s.remove(i).drop_last() =~= s.drop_last().remove(i));
        assert(s.drop_last()[i] == s[i]);
        lemma_map_of_remove(s.drop_last(), i);
        assert(s.remove(i).last() == s.last());
        assert(s.last().0@ != s[i].0@);
    }
}

impl View for Index {
    type V = Map<mem::ValueView, IndexEntry>;

    open spec fn view(&self) -> Map<mem::ValueView, IndexEntry> {
        map_of(self.entries@)
    }
}

impl Index {
    /// The association list carries no duplicate keys.
    pub open spec fn wf(&self) -> bool {
        dup_free(self.entries@)
    }

    /// An empty index.
    pub fn new() -> (r: Index)
        ensures
            r@ == Map::<mem::ValueView, IndexEntry>::empty(),
            r.wf(),
            r.entries@.len() == 0,
    {
        Index { entries: Vec::new() }
    }

    /// How many keys are live.
    pub fn len(&self) -> (r: usize)
        ensures
            r == self.entries@.len(),
    {
        self.entries.len()
    }

    /// The position of `key` in the list, if it is there.
    fn find(&self, key: &mem::Value) -> (r: Option<usize>)
        requires
            self.wf(),
        ensures
            match r {
                Some(i) => i < self.entries@.len() && self.entries@[i as int].0@ == key@,
                None => forall|i: int| 0 <= i < self.entries@.len() ==> self.entries@[i].0@ != key@,
            },
    {
        let n = self.entries.len();
        let mut i: usize = 0;
        while i < n
            invariant
                n == self.entries@.len(),
                i <= n,
                forall|j: int| 0 <= j < i ==> self.entries@[j].0@ != key@,
            decreases n - i,
        {
            if self.entries[i].0 == *key {
                return Some(i);
            }
            i = i + 1;
        }
        None
    }

    /// Looks the key up.
    pub fn get(&self, key: &mem::Value) -> (r: Option<IndexEntry>)
        requires
            self.wf(),
        ensures
            match r {
                Some(e) => self@.contains_key(key@) && self@[key@] == e,
                None => !self@.contains_key(key@),
            },
    {
        proof {
            lemma_map_of_contains(self.entries@, key@);
        }
        match self.find(key) {
            Some(i) => {
                proof {
                    lemma_map_of_get(self.entries@, i as int);
                }
                Some(self.entries[i].1)
            },
            None => None,
        }
    }

    /// Records `key`'s live location, replacing any previous one.
    pub fn insert(&mut self, key: mem::Value, e: IndexEntry)
        requires
            old(self).wf(),
        ensures
            final(self).wf(),
            final(self)@ == old(self)@.insert(key@, e),
            final(self).entries@.len() <= old(self).entries@.len() + 1,
    {
        match self.find(&key) {
            Some(i) => {
                proof {
                    lemma_map_of_update(self.entries@, i as int, (key, e));
                }
                self.entries[i] = (key, e);
                assert(forall|x: int, y: int|
                    0 <= x < y < self.entries@.len() ==> self.entries@[x].0@
                        != self.entries@[y].0@) by {
                    assert(forall|x: int|
                        0 <= x < self.entries@.len() && x != i ==> self.entries@[x]
                            == old(self).entries@[x]);
                }
            },
            None => {
                self.entries.push((key, e));
                proof {
                    assert(self.entries@.drop_last() =~= old(self).entries@);
                }
            },
        }
    }

    /// Forgets `key`'s live location, if it has one.
    pub fn remove(&mut self, key: &mem::Value)
        requires
            old(self).wf(),
        ensures
            final(self).wf(),
            final(self)@ == old(self)@.remove(key@),
            final(self).entries@.len() <= old(self).entries@.len(),
    {
        proof {
            lemma_map_of_contains(self.entries@, key@);
        }
        match self.find(key) {
            Some(i) => {
                proof {
                    lemma_map_of_remove(self.entries@, i as int);
                }
                self.entries.remove(i);
            },
            None => {
                assert(old(self)@.remove(key@) =~= old(self)@);
            },
        }
    }

    /// The pair at list position `i`; compaction walks the index with it.
    pub fn pair_at(&self, i: usize) -> (r: (&mem::Value, IndexEntry))
        requires
            i < self.entries@.len(),
        ensures
            r.0@ == self.entries@[i as int].0@,
            r.1 == self.entries@[i as int].1,
    {
        let p = &self.entries[i];
        (&p.0, p.1)
    }

    /// Moves the key at list position `i` to a new location; compaction
    /// uses it when it rewrites that key's record.
    pub fn set_location_at(&mut self, i: usize, e: IndexEntry)
        requires
            old(self).wf(),
            i < old(self).entries@.len(),
        ensures
            final(self).wf(),
            final(self)@ == old(self)@.insert(old(self).entries@[i as int].0@, e),
            final(self).entries@.len() == old(self).entries@.len(),
            forall|j: int|
                0 <= j < final(self).entries@.len() ==> final(self).entries@[j].0@ == old(
                    self,
                ).entries@[j].0@,
            final(self).entries@[i as int].1 == e,
            forall|j: int|
                0 <= j < final(self).entries@.len() && j != i ==> final(self).entries@[j] == old(
                    self,
                ).entries@[j],
    {
        let key = self.entries[i].0.clone();
        proof {
            lemma_map_of_update(self.entries@, i as int, (key, e));
        }
        self.entries[i] = (key, e);
    }
}

} // verus!
