//! A small map whose keys are byte strings.

use crate::text::same_bytes;
use vstd::prelude::*;

verus! {

/// A map whose keys are byte strings, kept as a list in which no key occurs
/// twice.
pub struct ByteMap<V> {
    entries: Vec<(Vec<u8>, V)>,
}

spec fn pairs_map<V>(entries: Seq<(Vec<u8>, V)>) -> Map<Seq<u8>, V>
    decreases entries.len(),
{
    if entries.len() == 0 {
        Map::empty()
    } else {
        pairs_map(entries.drop_last()).insert(entries.last().0@, entries.last().1)
    }
}

spec fn distinct_pairs<V>(entries: Seq<(Vec<u8>, V)>) -> bool {
    forall|i: int, j: int|
        0 <= i < j < entries.len() ==> (#[trigger] entries[i]).0@ != (#[trigger] entries[j]).0@
}

proof fn lemma_pairs_map<V>(entries: Seq<(Vec<u8>, V)>)
    requires
        distinct_pairs(entries),
    ensures
        forall|i: int|
            0 <= i < entries.len() ==> pairs_map(entries).contains_key(
                (#[trigger] entries[i]).0@,
            ) && pairs_map(entries)[entries[i].0@] == entries[i].1,
        forall|k: Seq<u8>| #[trigger]
            pairs_map(entries).contains_key(k) ==> exists|i: int|
                0 <= i < entries.len() && (#[trigger] entries[i]).0@ == k,
    decreases entries.len(),
{
    if entries.len() > 0 {
        let front = entries.drop_last();
        assert forall|i: int, j: int| 0 <= i < j < front.len() implies (#[trigger] front[i]).0@
            != (#[trigger] front[j]).0@ by {
            assert(entries[i].0@ != entries[j].0@);
        }
        lemma_pairs_map(front);
        assert forall|k: Seq<u8>| #[trigger] pairs_map(entries).contains_key(k) implies exists|
            i: int,
        | 0 <= i < entries.len() && (#[trigger] entries[i]).0@ == k by {
            if k == entries.last().0@ {
                assert(entries[entries.len() - 1].0@ == k);
            } else {
                assert(pairs_map(front).contains_key(k));
                let i = choose|i: int| 0 <= i < front.len() && (#[trigger] front[i]).0@ == k;
                assert(entries[i].0@ == k);
            }
        }
        assert forall|i: int| 0 <= i < entries.len() implies pairs_map(entries).contains_key(
            (#[trigger] entries[i]).0@,
        ) && pairs_map(entries)[entries[i].0@] == entries[i].1 by {
            if i < front.len() {
                assert(front[i] == entries[i]);
                assert(entries[i].0@ != entries[entries.len() - 1].0@);
            }
        }
    }
}

impl<V> View for ByteMap<V> {
    type V = Map<Seq<u8>, V>;

    closed spec fn view(&self) -> Map<Seq<u8>, V> {
        pairs_map(self.entries@)
    }
}

impl<V> ByteMap<V> {
    #[verifier::type_invariant]
    spec fn well_formed(self) -> bool {
        distinct_pairs(self.entries@)
    }

    /// The empty map.
    pub fn new() -> (r: Self)
        ensures
            r@ == Map::<Seq<u8>, V>::empty(),
    {
        ByteMap { entries: Vec::new() }
    }

    fn position(entries: &Vec<(Vec<u8>, V)>, key: &[u8]) -> (r: Option<usize>)
        ensures
            match r {
                Some(i) => i < entries@.len() && entries@[i as int].0@ == key@,
                None => forall|i: int|
                    0 <= i < entries@.len() ==> (#[trigger] entries@[i]).0@ != key@,
            },
    {
        let mut i: usize = 0;
        while i < entries.len()
            invariant
                i <= entries@.len(),
                forall|j: int| 0 <= j < i ==> (#[trigger] entries@[j]).0@ != key@,
            decreases entries@.len() - i,
        {
            if same_bytes(entries[i].0.as_slice(), key) {
                return Some(i);
            }
            i += 1;
        }
        None
    }

    /// The value under a key.
    pub fn get(&self, key: &[u8]) -> (r: Option<&V>)
        ensures
            match r {
                Some(v) => self@.contains_key(key@) && *v == self@[key@],
                None => !self@.contains_key(key@),
            },
    {
        proof {
            use_type_invariant(self);
            lemma_pairs_map(self.entries@);
        }
        match Self::position(&self.entries, key) {
            Some(i) => Some(&self.entries[i].1),
            None => None,
        }
    }

    /// Puts a value under a key.
    pub fn insert(&mut self, key: &[u8], value: V)
        ensures
            final(self)@ == old(self)@.insert(key@, value),
    {
        proof {
            use_type_invariant(&*self);
            lemma_pairs_map(self.entries@);
        }
        let ghost before = self.entries@;
        let mut entries: Vec<(Vec<u8>, V)> = Vec::new();
        std::mem::swap(&mut entries, &mut self.entries);
        match Self::position(&entries, key) {
            Some(i) => {
                let fresh = vstd::slice::slice_to_vec(key);
                entries.set(i, (fresh, value));
                proof {
                    lemma_pairs_map(entries@);
                    assert(pairs_map(entries@) =~= pairs_map(before).insert(key@, value)) by {
                        assert forall|k: Seq<u8>| pairs_map(entries@).contains_key(k)
                            == pairs_map(before).insert(key@, value).contains_key(k) by {
                            if pairs_map(entries@).contains_key(k) {
                                let j = choose|j: int|
                                    0 <= j < entries@.len() && (#[trigger] entries@[j]).0@ == k;
                                assert(before[j].0@ == k);
                            }
                            if pairs_map(before).contains_key(k) {
                                let j = choose|j: int|
                                    0 <= j < before.len() && (#[trigger] before[j]).0@ == k;
                                assert(entries@[j].0@ == k);
                            }
                        }
                        assert forall|k: Seq<u8>| #[trigger]
                            pairs_map(entries@).contains_key(k) implies pairs_map(entries@)[k]
                            == pairs_map(before).insert(key@, value)[k] by {
                            let j = choose|j: int|
                                0 <= j < entries@.len() && (#[trigger] entries@[j]).0@ == k;
                            assert(before[j].0@ == k);
                            if j < i {
                                assert(before[j].0@ != before[i as int].0@);
                            } else if j > i {
                                assert(before[i as int].0@ != before[j].0@);
                            }
                        }
                    }
                }
            },
            None => {
                entries.push((vstd::slice::slice_to_vec(key), value));
                assert(entries@.drop_last() =~= before);
            },
        }
        self.entries = entries;
    }

    /// Removes a key and gives back its value.
    pub fn remove(&mut self, key: &[u8]) -> (r: Option<V>)
        ensures
            final(self)@ == old(self)@.remove(key@),
            match r {
                Some(v) => old(self)@.contains_key(key@) && v == old(self)@[key@],
                None => !old(self)@.contains_key(key@),
            },
    {
        proof {
            use_type_invariant(&*self);
            lemma_pairs_map(self.entries@);
        }
        let ghost before = self.entries@;
        let mut entries: Vec<(Vec<u8>, V)> = Vec::new();
        std::mem::swap(&mut entries, &mut self.entries);
        let removed = match Self::position(&entries, key) {
            Some(i) => {
                let pair = entries.remove(i);
                proof {
                    assert forall|a: int, b: int| 0 <= a < b < entries@.len() implies (
                    #[trigger] entries@[a]).0@ != (#[trigger] entries@[b]).0@ by {
                        let x = if a < i {
                            a
                        } else {
                            a + 1
                        };
                        let y = if b < i {
                            b
                        } else {
                            b + 1
                        };
                        assert(before[x].0@ != before[y].0@);
                    }
                    lemma_pairs_map(entries@);
                    assert forall|k: Seq<u8>| pairs_map(entries@).contains_key(k) == pairs_map(
                        before,
                    ).remove(key@).contains_key(k) by {
                        if pairs_map(entries@).contains_key(k) {
                            let j = choose|j: int|
                                0 <= j < entries@.len() && (#[trigger] entries@[j]).0@ == k;
                            if j < i {
                                assert(before[j].0@ == k && before[j].0@ != before[i as int].0@);
                            } else {
                                assert(before[j + 1].0@ == k && before[i as int].0@ != before[j
                                    + 1].0@);
                            }
                        }
                        if k != key@ && pairs_map(before).contains_key(k) {
                            let j = choose|j: int|
                                0 <= j < before.len() && (#[trigger] before[j]).0@ == k;
                            if j < i {
                                assert(entries@[j].0@ == k);
                            } else {
                                assert(entries@[j - 1].0@ == k);
                            }
                        }
                    }
                    assert forall|k: Seq<u8>| #[trigger]
                        pairs_map(entries@).contains_key(k) implies pairs_map(entries@)[k]
                        == pairs_map(before).remove(key@)[k] by {
                        let j = choose|j: int|
                            0 <= j < entries@.len() && (#[trigger] entries@[j]).0@ == k;
                        if j < i {
                            assert(before[j].0@ == k);
                        } else {
                            assert(before[j + 1].0@ == k);
                        }
                    }
                    assert(pairs_map(entries@) =~= pairs_map(before).remove(key@));
                    assert(pair == before[i as int]);
                }
                Some(pair.1)
            },
            None => {
                assert(!pairs_map(before).contains_key(key@)) by {
                    if pairs_map(before).contains_key(key@) {
                        let j = choose|j: int|
                            0 <= j < before.len() && (#[trigger] before[j]).0@ == key@;
                        assert(entries@[j].0@ == key@);
                    }
                }
                assert(pairs_map(entries@) =~= pairs_map(before).remove(key@));
                None
            },
        };
        self.entries = entries;
        removed
    }

    /// Takes out everything: the keys, each once, with their values.
    pub fn drain(&mut self) -> (r: Vec<(Vec<u8>, V)>)
        ensures
            final(self)@ == Map::<Seq<u8>, V>::empty(),
            forall|i: int, j: int|
                0 <= i < j < r@.len() ==> (#[trigger] r@[i]).0@ != (#[trigger] r@[j]).0@,
            forall|i: int|
                0 <= i < r@.len() ==> old(self)@.contains_key((#[trigger] r@[i]).0@) && old(
                    self,
                )@[r@[i].0@] == r@[i].1,
            forall|k: Seq<u8>| #[trigger]
                old(self)@.contains_key(k) ==> exists|i: int|
                    0 <= i < r@.len() && (#[trigger] r@[i]).0@ == k,
    {
        proof {
            use_type_invariant(&*self);
            lemma_pairs_map(self.entries@);
        }
        let mut entries: Vec<(Vec<u8>, V)> = Vec::new();
        std::mem::swap(&mut entries, &mut self.entries);
        entries
    }
}

} // verus!
