//! A small map keyed by text, kept in the order of first insertion.

use crate::text::same_text;
use vstd::prelude::*;

verus! {

/// A finite map from text to `V`. No key occurs twice; a later `insert` under a
/// key that is present replaces the value.
pub struct TextMap<V> {
    entries: Vec<(String, V)>,
}

impl<V: View> View for TextMap<V> {
    type V = Map<Seq<char>, V::V>;

    closed spec fn view(&self) -> Map<Seq<char>, V::V> {
        Map::new(
            |k: Seq<char>| self.key_seq().contains(k),
            |k: Seq<char>| self.entries[self.key_seq().index_of(k)].1@,
        )
    }
}

impl<V> TextMap<V> {
    #[verifier::type_invariant]
    closed spec fn inv(&self) -> bool {
        self.key_seq().no_duplicates()
    }

    /// The keys as texts, in the order of insertion.
    pub closed spec fn key_seq(&self) -> Seq<Seq<char>> {
        Seq::new(self.entries.len() as nat, |i: int| self.entries[i].0@)
    }
}

impl<V: View> TextMap<V> {
    /// The empty map.
    pub fn new() -> (r: Self)
        ensures
            r@ == Map::<Seq<char>, V::V>::empty(),
    {
        let r = TextMap { entries: Vec::new() };
        assert(r@ =~= Map::<Seq<char>, V::V>::empty());
        r
    }

    /// The position of `key` among the keys.
    fn position(&self, key: &str) -> (r: Option<usize>)
        ensures
            match r {
                Some(i) => i < self.entries.len() && self.entries[i as int].0@ == key@
                    && self.key_seq().index_of(key@) == i,
                None => !self.key_seq().contains(key@),
            },
    {
        proof {
            use_type_invariant(self);
        }
        let mut i: usize = 0;
        while i < self.entries.len()
            invariant
                i <= self.entries.len(),
                self.key_seq().no_duplicates(),
                forall|j: int| 0 <= j < i ==> self.entries[j].0@ != key@,
            decreases self.entries.len() - i,
        {
            if same_text(self.entries[i].0.as_str(), key) {
                proof {
                    let ks = self.key_seq();
                    assert(ks[i as int] == key@);
                    let j = ks.index_of(key@);
                    assert(0 <= j < ks.len() && ks[j] == key@);
                }
                return Some(i);
            }
            i += 1;
        }
        proof {
            let ks = self.key_seq();
            assert forall|j: int| 0 <= j < ks.len() implies ks[j] != key@ by {
                assert(ks[j] == self.entries[j].0@);
            }
        }
        None
    }

    /// The value under `key`.
    pub fn get(&self, key: &str) -> (r: Option<&V>)
        ensures
            match r {
                Some(v) => self@.dom().contains(key@) && v@ == self@[key@],
                None => !self@.dom().contains(key@),
            },
    {
        proof {
            use_type_invariant(self);
        }
        match self.position(key) {
            Some(i) => {
                assert(self.key_seq()[i as int] == key@);
                Some(&self.entries[i].1)
            },
            None => None,
        }
    }

    /// Puts `value` under `key`, in place of the value that was there, if any.
    pub fn insert(&mut self, key: String, value: V)
        ensures
            final(self)@ == old(self)@.insert(key@, value@),
    {
        proof {
            use_type_invariant(&*self);
        }
        let ghost before = *self;
        let found = self.position(key.as_str());
        let mut entries: Vec<(String, V)> = Vec::new();
        std::mem::swap(&mut entries, &mut self.entries);
        let ghost now: Seq<Seq<char>>;
        match found {
            Some(i) => {
                entries.set(i, (key, value));
                proof {
                    now = Seq::new(entries.len() as nat, |j: int| entries[j].0@);
                    assert(now =~= before.key_seq());
                }
            },
            None => {
                entries.push((key, value));
                proof {
                    now = Seq::new(entries.len() as nat, |j: int| entries[j].0@);
                    let n = before.entries.len() as int;
                    assert(now =~= before.key_seq().push(key@));
                    assert forall|a: int, b: int| 0 <= a < b < now.len() implies now[a] != now[b] by {
                        assert(before.key_seq()[a] == now[a]);
                        if b < n {
                            assert(before.key_seq()[b] == now[b]);
                        }
                    }
                }
            },
        }
        self.entries = entries;
        proof {
            let ks = self.key_seq();
            let n = before.entries.len() as int;
            assert(ks =~= now);
            assert forall|k: Seq<char>| ks.contains(k) <==> (k == key@ || before.key_seq().contains(
                k,
            )) by {
                if ks.contains(k) {
                    let j = ks.index_of(k);
                    assert(0 <= j < ks.len() && ks[j] == k);
                    if j < n {
                        assert(before.key_seq()[j] == before.entries[j].0@);
                    }
                }
                if k == key@ {
                    match found {
                        Some(i) => {
                            assert(ks[i as int] == k);
                        },
                        None => {
                            assert(ks[n] == k);
                        },
                    }
                }
                if before.key_seq().contains(k) {
                    let j = before.key_seq().index_of(k);
                    assert(0 <= j < n && before.key_seq()[j] == k);
                    assert(ks[j] == k || k == key@);
                }
            }
            assert forall|k: Seq<char>| ks.contains(k) implies #[trigger] self@[k] == before@.insert(
                key@,
                value@,
            )[k] by {
                let j = ks.index_of(k);
                assert(0 <= j < ks.len() && ks[j] == k);
                if k == key@ {
                    match found {
                        Some(i) => {
                            assert(ks[i as int] == k);
                            assert(j == i);
                        },
                        None => {
                            assert(ks[n] == k);
                            assert(j == n);
                        },
                    }
                } else {
                    assert(j < n);
                    assert(before.key_seq()[j] == k);
                    let j0 = before.key_seq().index_of(k);
                    assert(0 <= j0 < n && before.key_seq()[j0] == k);
                    assert(ks[j0] == k);
                    assert(j0 == j);
                }
            }
            assert(self@ =~= before@.insert(key@, value@));
        }
    }

    /// Removes every entry.
    pub fn clear(&mut self)
        ensures
            final(self)@ == Map::<Seq<char>, V::V>::empty(),
    {
        self.entries = Vec::new();
        assert(self@ =~= Map::<Seq<char>, V::V>::empty());
    }

    /// The number of entries.
    pub fn len(&self) -> (r: usize)
        ensures
            self@.dom().finite(),
            r == self@.dom().len(),
    {
        proof {
            use_type_invariant(self);
            let ks = self.key_seq();
            assert(self@.dom() =~= ks.to_set());
            vstd::seq_lib::seq_to_set_is_finite(ks);
            ks.unique_seq_to_set();
        }
        self.entries.len()
    }

    /// Whether the map holds no entry.
    pub fn is_empty(&self) -> (r: bool)
        ensures
            r == (self@ == Map::<Seq<char>, V::V>::empty()),
    {
        proof {
            use_type_invariant(self);
            let ks = self.key_seq();
            if ks.len() == 0 {
                assert(self@ =~= Map::<Seq<char>, V::V>::empty());
            } else {
                assert(ks.contains(ks[0]));
                assert(self@.dom().contains(ks[0]));
            }
        }
        self.entries.len() == 0
    }
}

} // verus!
