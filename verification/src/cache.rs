use vstd::prelude::*;

use crate::model::labels_view;
use crate::model::NameMap;

verus! {

/// The offset and raw labels of each cached name.
spec fn entries_view(v: Seq<(usize, Vec<Vec<u8>>)>) -> Seq<(usize, Seq<Seq<u8>>)> {
    Seq::new(v.len(), |i: int| (v[i].0, labels_view(v[i].1@)))
}

/// The map that the first `n` entries describe, later entries overriding
/// earlier ones.
spec fn entries_map(es: Seq<(usize, Seq<Seq<u8>>)>, n: int) -> NameMap
    decreases n,
{
    if n <= 0 {
        Map::empty()
    } else {
        entries_map(es, n - 1).insert(es[n - 1].0 as int, es[n - 1].1)
    }
}

proof fn lemma_entries_map_push(es: Seq<(usize, Seq<Seq<u8>>)>, e: (usize, Seq<Seq<u8>>), n: int)
    requires
        0 <= n <= es.len(),
    ensures
        entries_map(es.push(e), n) == entries_map(es, n),
    decreases n,
{
    if n > 0 {
        lemma_entries_map_push(es, e, n - 1);
        assert(es.push(e)[n - 1] == es[n - 1]);
    }
}

proof fn lemma_entries_map_found(es: Seq<(usize, Seq<Seq<u8>>)>, n: int, i: int)
    requires
        0 <= i < n <= es.len(),
        forall|j: int| i < j < n ==> es[j].0 != es[i].0,
    ensures
        entries_map(es, n).contains_key(es[i].0 as int),
        entries_map(es, n)[es[i].0 as int] == es[i].1,
    decreases n,
{
    if i < n - 1 {
        lemma_entries_map_found(es, n - 1, i);
        assert(es[n - 1].0 != es[i].0);
    }
}

proof fn lemma_entries_map_absent(es: Seq<(usize, Seq<Seq<u8>>)>, n: int, key: usize)
    requires
        0 <= n <= es.len(),
        forall|j: int| 0 <= j < n ==> es[j].0 != key,
    ensures
        !entries_map(es, n).contains_key(key as int),
    decreases n,
{
    if n > 0 {
        lemma_entries_map_absent(es, n - 1, key);
        assert(es[n - 1].0 != key);
    }
}

/// The name cache of one message decode: for each buffer offset at which a
/// non-empty name was decoded, the raw labels of that name. Compression
/// pointers are resolved against it. It lives for one decode call and is
/// discarded afterwards.
pub struct NameCache {
    entries: Vec<(usize, Vec<Vec<u8>>)>,
}

impl View for NameCache {
    type V = NameMap;

    closed spec fn view(&self) -> NameMap {
        entries_map(entries_view(self.entries@), self.entries@.len() as int)
    }
}

impl NameCache {
    /// An empty cache, as each decode call starts with.
    pub fn new() -> (c: NameCache)
        ensures
            c@ == Map::<int, Seq<Seq<u8>>>::empty(),
    {
        NameCache { entries: Vec::new() }
    }

    /// The name cached at offset `key`, if any.
    pub fn get(&self, key: usize) -> (r: Option<&Vec<Vec<u8>>>)
        ensures
            match r {
                Some(v) => self@.contains_key(key as int) && labels_view(v@) == self@[key as int],
                None => !self@.contains_key(key as int),
            },
    {
        let mut i: usize = self.entries.len();
        while i > 0
            invariant
                i <= self.entries@.len(),
                forall|j: int| i <= j < self.entries@.len() ==> self.entries@[j].0 != key,
            decreases i,
        {
            i = i - 1;
            if self.entries[i].0 == key {
                proof {
                    lemma_entries_map_found(
                        entries_view(self.entries@),
                        self.entries@.len() as int,
                        i as int,
                    );
                }
                return Some(&self.entries[i].1);
            }
        }
        proof {
            lemma_entries_map_absent(entries_view(self.entries@), self.entries@.len() as int, key);
        }
        None
    }

    /// Records the name decoded at offset `key`.
    pub fn insert(&mut self, key: usize, val: Vec<Vec<u8>>)
        ensures
            final(self)@ == old(self)@.insert(key as int, labels_view(val@)),
    {
        let ghost old_entries = entries_view(self.entries@);
        let ghost e = (key, labels_view(val@));
        self.entries.push((key, val));
        proof {
            assert(entries_view(self.entries@) =~= old_entries.push(e));
            lemma_entries_map_push(old_entries, e, old_entries.len() as int);
        }
    }
}

} // verus!
