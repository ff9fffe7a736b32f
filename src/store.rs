//! A small keyed store: a vector of `(id, value)` entries with unique ids,
//! viewed as a finite map from id to value.
use vstd::prelude::*;

verus! {

pub struct IdStore<T> {
    entries: Vec<(u64, T)>,
    contents: Ghost<Map<u64, T>>,
}

/// No two entries share an id.
pub open spec fn unique_ids<T>(s: Seq<(u64, T)>) -> bool {
    forall|i: int, j: int|
        0 <= i < s.len() && 0 <= j < s.len() && i != j ==> #[trigger] s[i].0 != #[trigger] s[j].0
}

/// The map that a list of entries with unique ids stands for.
pub open spec fn map_of<T>(s: Seq<(u64, T)>) -> Map<u64, T> {
    Map::new(
        |k: u64| exists|i: int| 0 <= i < s.len() && #[trigger] s[i].0 == k,
        |k: u64| s[choose|i: int| 0 <= i < s.len() && #[trigger] s[i].0 == k].1,
    )
}

impl<T> View for IdStore<T> {
    type V = Map<u64, T>;

    closed spec fn view(&self) -> Map<u64, T> {
        self.contents@
    }
}

impl<T> IdStore<T> {
    /// The entries in storage order.
    pub closed spec fn entries_seq(&self) -> Seq<(u64, T)> {
        self.entries@
    }

    /// Ids are unique and the entries are exactly the map.
    pub closed spec fn wf(&self) -> bool {
        &&& forall|i: int, j: int|
            0 <= i < self.entries@.len() && 0 <= j < self.entries@.len() && i != j
                ==> #[trigger] self.entries@[i].0 != #[trigger] self.entries@[j].0
        &&& forall|i: int|
            0 <= i < self.entries@.len() ==> {
                &&& self.contents@.contains_key(#[trigger] self.entries@[i].0)
                &&& self.contents@[self.entries@[i].0] == self.entries@[i].1
            }
        &&& forall|k: u64|
            #[trigger] self.contents@.contains_key(k) ==> exists|i: int|
                0 <= i < self.entries@.len() && #[trigger] self.entries@[i].0 == k
    }

    /// Every entry is in the map, every key of the map has an entry, and no
    /// two entries share an id.
    pub proof fn lemma_entries_match(&self)
        requires
            self.wf(),
        ensures
            forall|i: int, j: int|
                0 <= i < self.entries_seq().len() && 0 <= j < self.entries_seq().len() && i != j
                    ==> #[trigger] self.entries_seq()[i].0 != #[trigger] self.entries_seq()[j].0,
            forall|i: int|
                0 <= i < self.entries_seq().len() ==> {
                    &&& self@.contains_key(#[trigger] self.entries_seq()[i].0)
                    &&& self@[self.entries_seq()[i].0] == self.entries_seq()[i].1
                },
            forall|k: u64|
                #[trigger] self@.contains_key(k) ==> exists|i: int|
                    0 <= i < self.entries_seq().len() && #[trigger] self.entries_seq()[i].0 == k,
    {
        assert forall|k: u64| #[trigger] self@.contains_key(k) implies exists|i: int|
            0 <= i < self.entries_seq().len() && #[trigger] self.entries_seq()[i].0 == k by {
            let i = choose|i: int| 0 <= i < self.entries@.len() && #[trigger] self.entries@[i].0 == k;
            assert(self.entries_seq()[i].0 == k);
        }
    }

    pub fn new() -> (r: Self)
        ensures
            r.wf(),
            r@ == Map::<u64, T>::empty(),
    {
        IdStore { entries: Vec::new(), contents: Ghost(Map::empty()) }
    }

    /// A store of the given entries, when their ids are unique.
    pub fn from_vec(entries: Vec<(u64, T)>) -> (r: Option<Self>)
        ensures
            r is Some <==> unique_ids(entries@),
            match r {
                Some(st) => st.wf() && st.entries_seq() == entries@ && st@ == map_of(entries@),
                None => true,
            },
    {
        let n = entries.len();
        let mut i: usize = 0;
        while i < n
            invariant
                n == entries@.len(),
                i <= n,
                forall|a: int, b: int|
                    0 <= a < i && 0 <= b < n && a != b ==> #[trigger] entries@[a].0
                        != #[trigger] entries@[b].0,
            decreases n - i,
        {
            let mut j: usize = 0;
            while j < n
                invariant
                    n == entries@.len(),
                    i < n,
                    j <= n,
                    forall|b: int| 0 <= b < j && b != i ==> entries@[i as int].0 != #[trigger] entries@[b].0,
                decreases n - j,
            {
                if j != i && entries[i].0 == entries[j].0 {
                    return None;
                }
                j = j + 1;
            }
            i = i + 1;
        }
        let ghost m = map_of(entries@);
        let st = IdStore { entries, contents: Ghost(m) };
        assert forall|a: int| 0 <= a < st.entries@.len() implies {
            &&& st.contents@.contains_key(#[trigger] st.entries@[a].0)
            &&& st.contents@[st.entries@[a].0] == st.entries@[a].1
        } by {
            let k = st.entries@[a].0;
            assert(m.contains_key(k));
            let c = choose|c: int| 0 <= c < st.entries@.len() && #[trigger] st.entries@[c].0 == k;
            assert(c == a);
        }
        Some(st)
    }

    /// The entries, in storage order.
    pub fn into_vec(self) -> (r: Vec<(u64, T)>)
        requires
            self.wf(),
        ensures
            r@ == self.entries_seq(),
            unique_ids(r@),
            self@ == map_of(r@),
    {
        proof {
            self.lemma_entries_match();
            let es = self.entries@;
            assert forall|k: u64| #[trigger] self@.contains_key(k) == map_of(es).contains_key(k) by {
                if map_of(es).contains_key(k) {
                    let c = choose|c: int| 0 <= c < es.len() && #[trigger] es[c].0 == k;
                    assert(self.entries_seq()[c].0 == k);
                }
            }
            assert forall|k: u64| #[trigger] self@.contains_key(k) implies self@[k] == map_of(es)[k] by {
                let c = choose|c: int| 0 <= c < es.len() && #[trigger] es[c].0 == k;
                assert(self.entries_seq()[c].0 == k);
            }
            assert(self@ =~= map_of(es));
        }
        self.entries
    }

    pub fn len(&self) -> (r: usize)
        requires
            self.wf(),
        ensures
            r == self.entries_seq().len(),
    {
        self.entries.len()
    }

    /// The entry at position `i` in storage order.
    pub fn entry_at(&self, i: usize) -> (r: &(u64, T))
        requires
            i < self.entries_seq().len(),
        ensures
            *r == self.entries_seq()[i as int],
    {
        &self.entries[i]
    }

    fn index_of(&self, id: u64) -> (r: Option<usize>)
        requires
            self.wf(),
        ensures
            match r {
                Some(i) => i < self.entries@.len() && self.entries@[i as int].0 == id,
                None => !self@.contains_key(id),
            },
    {
        let mut i: usize = 0;
        while i < self.entries.len()
            invariant
                self.wf(),
                i <= self.entries@.len(),
                forall|j: int| 0 <= j < i ==> #[trigger] self.entries@[j].0 != id,
            decreases self.entries@.len() - i,
        {
            if self.entries[i].0 == id {
                return Some(i);
            }
            i = i + 1;
        }
        None
    }

    pub fn contains(&self, id: u64) -> (r: bool)
        requires
            self.wf(),
        ensures
            r == self@.contains_key(id),
    {
        match self.index_of(id) {
            Some(_) => true,
            None => false,
        }
    }

    pub fn get(&self, id: u64) -> (r: Option<&T>)
        requires
            self.wf(),
        ensures
            match r {
                Some(v) => self@.contains_key(id) && *v == self@[id],
                None => !self@.contains_key(id),
            },
    {
        match self.index_of(id) {
            Some(i) => Some(&self.entries[i].1),
            None => None,
        }
    }

    /// Adds an entry for an id that is not present yet.
    pub fn insert_new(&mut self, id: u64, value: T)
        requires
            old(self).wf(),
            !old(self)@.contains_key(id),
        ensures
            final(self).wf(),
            final(self)@ == old(self)@.insert(id, value),
    {
        let ghost old_entries = self.entries@;
        let ghost v = value;
        self.entries.push((id, value));
        self.contents = Ghost(self.contents@.insert(id, v));
        assert forall|k: u64| #[trigger] self.contents@.contains_key(k) implies exists|i: int|
            0 <= i < self.entries@.len() && #[trigger] self.entries@[i].0 == k by {
            if k == id {
                assert(self.entries@[old_entries.len() as int].0 == k);
            } else {
                assert(old(self).contents@.contains_key(k));
                let i = choose|i: int| 0 <= i < old_entries.len() && #[trigger] old_entries[i].0 == k;
                assert(self.entries@[i].0 == k);
            }
        }
    }

    /// Sets the value for `id`, replacing the one that was there.
    pub fn put(&mut self, id: u64, value: T)
        requires
            old(self).wf(),
        ensures
            final(self).wf(),
            final(self)@ == old(self)@.insert(id, value),
    {
        let _ = self.remove(id);
        self.insert_new(id, value);
        assert(self@ =~= old(self)@.insert(id, value));
    }

    /// Removes the entry for `id`, if any, and hands its value back.
    pub fn remove(&mut self, id: u64) -> (r: Option<T>)
        requires
            old(self).wf(),
        ensures
            final(self).wf(),
            final(self)@ == old(self)@.remove(id),
            match r {
                Some(v) => old(self)@.contains_key(id) && v == old(self)@[id],
                None => !old(self)@.contains_key(id),
            },
    {
        match self.index_of(id) {
            None => {
                assert(self.contents@.remove(id) =~= self.contents@);
                None
            },
            Some(i) => {
                let ghost old_entries = self.entries@;
                let entry = self.entries.remove(i);
                self.contents = Ghost(self.contents@.remove(id));
                assert forall|a: int, b: int|
                    0 <= a < self.entries@.len() && 0 <= b < self.entries@.len() && a != b
                        implies #[trigger] self.entries@[a].0 != #[trigger] self.entries@[b].0 by {
                    let oa = if a < i { a } else { a + 1 };
                    let ob = if b < i { b } else { b + 1 };
                    assert(self.entries@[a] == old_entries[oa]);
                    assert(self.entries@[b] == old_entries[ob]);
                }
                assert forall|a: int| 0 <= a < self.entries@.len() implies {
                    &&& self.contents@.contains_key(#[trigger] self.entries@[a].0)
                    &&& self.contents@[self.entries@[a].0] == self.entries@[a].1
                } by {
                    let oa = if a < i { a } else { a + 1 };
                    assert(self.entries@[a] == old_entries[oa]);
                    assert(old_entries[oa].0 != old_entries[i as int].0);
                }
                assert forall|k: u64| #[trigger] self.contents@.contains_key(k) implies exists|a: int|
                    0 <= a < self.entries@.len() && #[trigger] self.entries@[a].0 == k by {
                    let j = choose|j: int| 0 <= j < old_entries.len() && #[trigger] old_entries[j].0 == k;
                    assert(j != i);
                    if j < i {
                        assert(self.entries@[j].0 == k);
                    } else {
                        assert(self.entries@[j - 1].0 == k);
                    }
                }
                Some(entry.1)
            },
        }
    }
}

} // verus!
