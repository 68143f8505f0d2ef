//! A small association map from pipeline names to plain values,
//! modelled as `Map<Seq<char>, V>`. Backs the in-memory watermark
//! stores and the regulator's per-pipeline watermark registry.

use vstd::prelude::*;

verus! {

/// The map denoted by an entry list: later entries override earlier
/// ones (well-formed lists have no duplicate keys).
pub open spec fn entries_map<V>(s: Seq<(String, V)>) -> Map<Seq<char>, V>
    decreases s.len(),
{
    if s.len() == 0 {
        Map::empty()
    } else {
        entries_map(s.drop_last()).insert(s.last().0@, s.last().1)
    }
}

/// Whether some entry of `s` has key `k`.
pub open spec fn has_key<V>(s: Seq<(String, V)>, k: Seq<char>) -> bool {
    exists|i: int| 0 <= i < s.len() && (#[trigger] s[i]).0@ == k
}

/// No two entries share a key.
pub open spec fn unique_keys<V>(s: Seq<(String, V)>) -> bool {
    forall|i: int, j: int|
        0 <= i < j < s.len() ==> (#[trigger] s[i]).0@ != (#[trigger] s[j]).0@
}

/// A key absent from the entry list is absent from its map.
proof fn lemma_absent_key<V>(s: Seq<(String, V)>, k: Seq<char>)
    requires
        !has_key(s, k),
    ensures
        !entries_map(s).dom().contains(k),
    decreases s.len(),
{
    if s.len() > 0 {
        assert(s.last() == s[s.len() - 1]);
        assert(s.last().0@ != k);
        assert(forall|i: int|
            0 <= i < s.len() - 1 ==> #[trigger] s.drop_last()[i] == s[i]);
        assert(!has_key(s.drop_last(), k));
        lemma_absent_key(s.drop_last(), k);
    }
}

/// An entry of a well-formed list is reflected exactly in its map.
proof fn lemma_entry_in_map<V>(s: Seq<(String, V)>, i: int)
    requires
        unique_keys(s),
        0 <= i < s.len(),
    ensures
        entries_map(s).dom().contains(s[i].0@),
        entries_map(s)[s[i].0@] == s[i].1,
    decreases s.len(),
{
    if i == s.len() - 1 {
        assert(s.last() == s[i]);
    } else {
        assert(forall|m: int|
            0 <= m < s.len() - 1 ==> #[trigger] s.drop_last()[m] == s[m]);
        assert(unique_keys(s.drop_last()));
        lemma_entry_in_map(s.drop_last(), i);
        assert(s.last().0@ != s[i].0@);
    }
}

/// Every key of the map names some entry.
proof fn lemma_map_key_has_entry<V>(s: Seq<(String, V)>, k: Seq<char>)
    requires
        entries_map(s).dom().contains(k),
    ensures
        has_key(s, k),
    decreases s.len(),
{
    if s.len() > 0 {
        if s.last().0@ == k {
            assert(s[s.len() - 1].0@ == k);
        } else {
            lemma_map_key_has_entry(s.drop_last(), k);
            let i = choose|i: int|
                0 <= i < s.drop_last().len() && (#[trigger] s.drop_last()[i]).0@ == k;
            assert(s[i].0@ == k);
        }
    }
}

/// Removing an entry removes exactly its key from the map.
proof fn lemma_remove_entry<V>(s: Seq<(String, V)>, i: int)
    requires
        unique_keys(s),
        0 <= i < s.len(),
    ensures
        entries_map(s.remove(i)) == entries_map(s).remove(s[i].0@),
    decreases s.len(),
{
    let k = s[i].0@;
    if i == s.len() - 1 {
        assert(s.remove(i) =~= s.drop_last());
        assert(!has_key(s.drop_last(), k)) by {
            assert(forall|m: int|
                0 <= m < s.len() - 1 ==> #[trigger] s.drop_last()[m] == s[m]);
        }
        lemma_absent_key(s.drop_last(), k);
        assert(entries_map(s).remove(k) =~= entries_map(s.drop_last()));
    } else {
        let s0 = s.drop_last();
        assert(forall|m: int| 0 <= m < s0.len() ==> #[trigger] s0[m] == s[m]);
        assert(unique_keys(s0));
        lemma_remove_entry(s0, i);
        assert(s.remove(i) =~= s0.remove(i).push(s.last()));
        assert(s.remove(i).drop_last() =~= s0.remove(i));
        assert(entries_map(s.remove(i)) == entries_map(s0.remove(i)).insert(
            s.last().0@,
            s.last().1,
        ));
        assert(s.last().0@ != k);
        assert(entries_map(s0).remove(k).insert(s.last().0@, s.last().1) =~= entries_map(
            s0,
        ).insert(s.last().0@, s.last().1).remove(k));
    }
}

/// An association map from pipeline names to sequence numbers.
#[derive(Clone, Debug)]
pub struct AssocMap<V> {
    entries: Vec<(String, V)>,
}

impl<V: Copy> AssocMap<V> {
    /// The abstract map this value denotes.
    pub closed spec fn view(&self) -> Map<Seq<char>, V> {
        entries_map(self.entries@)
    }

    /// Internal representation invariant: no duplicate keys.
    pub closed spec fn wf(&self) -> bool {
        unique_keys(self.entries@)
    }

    /// The number of entries.
    pub closed spec fn spec_len(&self) -> nat {
        self.entries@.len()
    }

    /// The empty map.
    pub fn new() -> (r: Self)
        ensures
            r.wf(),
            r@ == Map::<Seq<char>, V>::empty(),
            r.spec_len() == 0,
    {
        AssocMap { entries: Vec::new() }
    }

    /// Finds the position of `key`, if present.
    fn find(&self, key: &str) -> (r: Option<usize>)
        requires
            self.wf(),
        ensures
            match r {
                Some(i) => i < self.entries@.len() && self.entries@[i as int].0@ == key@
                    && self@.dom().contains(key@) && self@[key@] == self.entries@[i as int].1,
                None => !self@.dom().contains(key@),
            },
    {
        let mut i: usize = 0;
        while i < self.entries.len()
            invariant
                self.wf(),
                0 <= i <= self.entries@.len(),
                forall|m: int| 0 <= m < i ==> (#[trigger] self.entries@[m]).0@ != key@,
            decreases self.entries@.len() - i,
        {
            let k = String::from_str(key);
            if self.entries[i].0 == k {
                proof {
                    lemma_entry_in_map(self.entries@, i as int);
                }
                return Some(i);
            }
            i = i + 1;
        }
        proof {
            assert(!has_key(self.entries@, key@));
            lemma_absent_key(self.entries@, key@);
        }
        None
    }

    /// Looks a key up.
    pub fn get(&self, key: &str) -> (r: Option<V>)
        requires
            self.wf(),
        ensures
            match r {
                Some(v) => self@.dom().contains(key@) && self@[key@] == v,
                None => !self@.dom().contains(key@),
            },
    {
        match self.find(key) {
            Some(i) => Some(self.entries[i].1),
            None => None,
        }
    }

    /// Inserts or overwrites a key.
    pub fn set(&mut self, key: &str, value: V)
        requires
            old(self).wf(),
        ensures
            final(self).wf(),
            final(self)@ == old(self)@.insert(key@, value),
            final(self).spec_len() >= 1,
    {
        let found = self.find(key);
        match found {
            Some(i) => {
                let ghost s = self.entries@;
                proof {
                    lemma_remove_entry(s, i as int);
                }
                self.entries.remove(i);
                self.entries.push((String::from_str(key), value));
                proof {
                    let t = self.entries@;
                    assert(t.drop_last() =~= s.remove(i as int));
                    assert(entries_map(t) == entries_map(s.remove(i as int)).insert(key@, value));
                    assert(entries_map(t) =~= entries_map(s).insert(key@, value));
                    assert(unique_keys(t)) by {
                        assert(forall|m: int|
                            0 <= m < t.len() - 1 ==> #[trigger] t[m] == s.remove(i as int)[m]);
                        assert forall|m: int| 0 <= m < t.len() - 1 implies (#[trigger] t[m]).0@
                            != key@ by {
                            if !(t[m].0@ != key@) {
                                assert(has_key(s.remove(i as int), key@));
                                let w = choose|w: int|
                                    0 <= w < s.remove(i as int).len() && (#[trigger] s.remove(
                                        i as int,
                                    )[w]).0@ == key@;
                                if w < i {
                                    assert(s[w].0@ == key@);
                                } else {
                                    assert(s[w + 1].0@ == key@);
                                }
                            }
                        }
                    }
                }
            },
            None => {
                let ghost s = self.entries@;
                self.entries.push((String::from_str(key), value));
                proof {
                    let t = self.entries@;
                    assert(t.drop_last() =~= s);
                    assert(entries_map(t) == entries_map(s).insert(key@, value));
                    assert(unique_keys(t)) by {
                        assert(forall|m: int| 0 <= m < s.len() ==> #[trigger] t[m] == s[m]);
                        assert forall|m: int| 0 <= m < t.len() - 1 implies (#[trigger] t[m]).0@
                            != key@ by {
                            if !(t[m].0@ != key@) {
                                assert(has_key(s, key@));
                                lemma_entry_in_map(s, choose|w: int|
                                    0 <= w < s.len() && (#[trigger] s[w]).0@ == key@);
                            }
                        }
                    }
                }
            },
        }
    }

    /// Removes a key, if present.
    pub fn remove(&mut self, key: &str)
        requires
            old(self).wf(),
        ensures
            final(self).wf(),
            final(self)@ == old(self)@.remove(key@),
    {
        let found = self.find(key);
        match found {
            Some(i) => {
                let ghost s = self.entries@;
                proof {
                    lemma_remove_entry(s, i as int);
                }
                self.entries.remove(i);
                proof {
                    let t = self.entries@;
                    assert(unique_keys(t)) by {
                        assert(forall|m: int|
                            0 <= m < t.len() ==> #[trigger] t[m] == s.remove(i as int)[m]);
                        assert forall|m: int, w: int| 0 <= m < w < t.len() implies (
                        #[trigger] t[m]).0@ != (#[trigger] t[w]).0@ by {
                            let m0: int = if m < i { m } else { m + 1 };
                            let w0: int = if w < i { w } else { w + 1 };
                            assert(t[m] == s[m0] && t[w] == s[w0]);
                        }
                    }
                }
            },
            None => {
                proof {
                    assert(old(self)@.remove(key@) =~= old(self)@);
                }
            },
        }
    }

    /// Whether the map is empty.
    pub fn is_empty(&self) -> (r: bool)
        requires
            self.wf(),
        ensures
            r == (self@.dom() =~= Set::<Seq<char>>::empty()),
            r == (self.spec_len() == 0),
    {
        let r = self.entries.len() == 0;
        proof {
            if self.entries@.len() == 0 {
                assert(self@.dom() =~= Set::<Seq<char>>::empty());
            } else {
                lemma_entry_in_map(self.entries@, 0);
                assert(self@.dom().contains(self.entries@[0].0@));
            }
        }
        r
    }

}

impl AssocMap<u64> {
    /// The least value in the map, or `None` when the map is empty.
    pub fn min_value(&self) -> (r: Option<u64>)
        requires
            self.wf(),
        ensures
            match r {
                Some(m) => (exists|k: Seq<char>|
                    self@.dom().contains(k) && self@[k] == m) && (forall|k: Seq<char>|
                    self@.dom().contains(k) ==> self@[k] >= m),
                None => self@.dom() =~= Set::<Seq<char>>::empty(),
            },
    {
        if self.entries.len() == 0 {
            proof {
                assert(self@.dom() =~= Set::<Seq<char>>::empty());
            }
            return None;
        }
        let mut best: u64 = self.entries[0].1;
        let mut i: usize = 1;
        proof {
            lemma_entry_in_map(self.entries@, 0);
        }
        while i < self.entries.len()
            invariant
                self.wf(),
                1 <= i <= self.entries@.len(),
                exists|m: int|
                    0 <= m < i && (#[trigger] self.entries@[m]).1 == best,
                forall|m: int| 0 <= m < i ==> (#[trigger] self.entries@[m]).1 >= best,
            decreases self.entries@.len() - i,
        {
            if self.entries[i].1 < best {
                best = self.entries[i].1;
            }
            i = i + 1;
        }
        proof {
            let m = choose|m: int|
                0 <= m < self.entries@.len() && (#[trigger] self.entries@[m]).1 == best;
            lemma_entry_in_map(self.entries@, m);
            assert(self@.dom().contains(self.entries@[m].0@) && self@[self.entries@[m].0@]
                == best);
            assert(exists|k: Seq<char>| self@.dom().contains(k) && self@[k] == best);
            assert forall|k: Seq<char>| self@.dom().contains(k) implies self@[k] >= best by {
                lemma_map_key_has_entry(self.entries@, k);
                let w = choose|w: int|
                    0 <= w < self.entries@.len() && (#[trigger] self.entries@[w]).0@ == k;
                lemma_entry_in_map(self.entries@, w);
            }
        }
        Some(best)
    }
}

} // verus!
