//! A byte-oriented key-value store: `get`, `put` and `delete` by opaque byte
//! keys, specified as operations on a mathematical map.
//!
//! The store is the one shared resource under both repositories; nothing
//! above it relies on more than the map semantics stated here.

use vstd::prelude::*;
use crate::codec::bytes_eq;

verus! {

/// No key occurs twice in a pair sequence.
pub open spec fn dup_free(s: Seq<(Vec<u8>, Vec<u8>)>) -> bool {
    forall|i: int, j: int| 0 <= i < j < s.len() ==> s[i].0@ != s[j].0@
}

/// The association a pair sequence holds, as a map.
pub open spec fn assoc_map(s: Seq<(Vec<u8>, Vec<u8>)>) -> Map<Seq<u8>, Seq<u8>> {
    Map::new(
        |k: Seq<u8>| exists|i: int| 0 <= i < s.len() && s[i].0@ == k,
        |k: Seq<u8>| s[choose|i: int| 0 <= i < s.len() && s[i].0@ == k].1@,
    )
}

/// Each entry of a duplicate-free sequence is its key's binding.
proof fn lemma_assoc_at(s: Seq<(Vec<u8>, Vec<u8>)>, i: int)
    requires
        dup_free(s),
        0 <= i < s.len(),
    ensures
        assoc_map(s).contains_key(s[i].0@),
        assoc_map(s)[s[i].0@] == s[i].1@,
{
    let k = s[i].0@;
    assert(0 <= i < s.len() && s[i].0@ == k);
    let j = choose|j: int| 0 <= j < s.len() && s[j].0@ == k;
    if j < i {
        assert(false);
    } else if i < j {
        assert(false);
    }
}

/// Appending a fresh key binds it and leaves the rest of the map unchanged.
proof fn lemma_assoc_push(s: Seq<(Vec<u8>, Vec<u8>)>, p: (Vec<u8>, Vec<u8>))
    requires
        dup_free(s),
        forall|j: int| 0 <= j < s.len() ==> s[j].0@ != p.0@,
    ensures
        dup_free(s.push(p)),
        assoc_map(s.push(p)) == assoc_map(s).insert(p.0@, p.1@),
{
    let s2 = s.push(p);
    assert(forall|j: int| 0 <= j < s.len() ==> s2[j] == s[j]);
    assert(s2[s.len() as int] == p);
    assert forall|k2: Seq<u8>|
        assoc_map(s2).contains_key(k2) == assoc_map(s).insert(p.0@, p.1@).contains_key(
            k2,
        ) by {
        if k2 == p.0@ {
            assert(s2[s.len() as int].0@ == k2);
        } else {
            if assoc_map(s2).contains_key(k2) {
                let j = choose|j: int| 0 <= j < s2.len() && s2[j].0@ == k2;
                assert(0 <= j < s.len() && s[j].0@ == k2);
            }
            if assoc_map(s).contains_key(k2) {
                let j = choose|j: int| 0 <= j < s.len() && s[j].0@ == k2;
                assert(s2[j].0@ == k2);
            }
        }
    }
    assert forall|k2: Seq<u8>| #[trigger]
        assoc_map(s2).contains_key(k2) implies assoc_map(s2)[k2] == assoc_map(s).insert(
        p.0@,
        p.1@,
    )[k2] by {
        if k2 == p.0@ {
            lemma_assoc_at(s2, s.len() as int);
        } else {
            let j = choose|j: int| 0 <= j < s2.len() && s2[j].0@ == k2;
            assert(0 <= j < s.len() && s[j].0@ == k2);
            lemma_assoc_at(s2, j);
            lemma_assoc_at(s, j);
        }
    }
    assert(assoc_map(s.push(p)) =~= assoc_map(s).insert(p.0@, p.1@));
}

/// Removing the entry of a key unbinds it and leaves the rest unchanged.
proof fn lemma_assoc_remove(s: Seq<(Vec<u8>, Vec<u8>)>, i: int)
    requires
        dup_free(s),
        0 <= i < s.len(),
    ensures
        dup_free(s.remove(i)),
        assoc_map(s.remove(i)) == assoc_map(s).remove(s[i].0@),
{
    let k = s[i].0@;
    let s2 = s.remove(i);
    assert(forall|j: int| 0 <= j < i ==> s2[j] == s[j]);
    assert(forall|j: int| i <= j < s2.len() ==> s2[j] == s[j + 1]);
    assert forall|a: int, b: int| 0 <= a < b < s2.len() implies s2[a].0@ != s2[b].0@ by {
        let a1 = if a < i { a } else { a + 1 };
        let b1 = if b < i { b } else { b + 1 };
        assert(s2[a] == s[a1]);
        assert(s2[b] == s[b1]);
    }
    assert forall|k2: Seq<u8>|
        assoc_map(s2).contains_key(k2) == assoc_map(s).remove(k).contains_key(k2) by {
        if assoc_map(s2).contains_key(k2) {
            let j = choose|j: int| 0 <= j < s2.len() && s2[j].0@ == k2;
            let j1 = if j < i { j } else { j + 1 };
            assert(s[j1].0@ == k2);
            assert(k2 != k);
        }
        if assoc_map(s).remove(k).contains_key(k2) {
            let j = choose|j: int| 0 <= j < s.len() && s[j].0@ == k2;
            assert(j != i);
            if j < i {
                assert(s2[j].0@ == k2);
            } else {
                assert(s2[j - 1].0@ == k2);
            }
        }
    }
    assert forall|k2: Seq<u8>| #[trigger]
        assoc_map(s2).contains_key(k2) implies assoc_map(s2)[k2] == assoc_map(s).remove(
        k,
    )[k2] by {
        let j = choose|j: int| 0 <= j < s2.len() && s2[j].0@ == k2;
        let j1 = if j < i { j } else { j + 1 };
        assert(s2[j] == s[j1]);
        lemma_assoc_at(s2, j);
        lemma_assoc_at(s, j1);
    }
    assert(assoc_map(s.remove(i)) =~= assoc_map(s).remove(k));
}

/// The in-memory store.
pub struct KvStore {
    entries: Vec<(Vec<u8>, Vec<u8>)>,
}

impl View for KvStore {
    type V = Map<Seq<u8>, Seq<u8>>;

    closed spec fn view(&self) -> Map<Seq<u8>, Seq<u8>> {
        assoc_map(self.entries@)
    }
}

impl KvStore {
    /// Whether the store's internal layout is consistent.
    pub closed spec fn wf(&self) -> bool {
        dup_free(self.entries@)
    }

    /// An empty store.
    pub fn new() -> (r: KvStore)
        ensures
            r.wf(),
            r@ == Map::<Seq<u8>, Seq<u8>>::empty(),
    {
        let r = KvStore { entries: Vec::new() };
        proof {
            assert(r@ =~= Map::<Seq<u8>, Seq<u8>>::empty());
        }
        r
    }

    /// Looks `key` up; returns its value exactly when the key is bound.
    pub fn get(&self, key: &Vec<u8>) -> (r: Option<&Vec<u8>>)
        requires
            self.wf(),
        ensures
            r is Some <==> self@.contains_key(key@),
            r matches Some(v) ==> v@ == self@[key@],
    {
        let n = self.entries.len();
        let mut i: usize = 0;
        while i < n
            invariant
                self.wf(),
                n == self.entries@.len(),
                i <= n,
                forall|j: int| 0 <= j < i ==> self.entries@[j].0@ != key@,
            decreases n - i,
        {
            if bytes_eq(&self.entries[i].0, key) {
                proof {
                    lemma_assoc_at(self.entries@, i as int);
                }
                return Some(&self.entries[i].1);
            }
            i = i + 1;
        }
        proof {
            if self@.contains_key(key@) {
                let j = choose|j: int|
                    0 <= j < self.entries@.len() && self.entries@[j].0@ == key@;
                assert(false);
            }
        }
        None
    }

    /// Unbinds `key`; a no-op when it is not bound. Idempotent.
    pub fn delete(&mut self, key: &Vec<u8>)
        requires
            old(self).wf(),
        ensures
            final(self).wf(),
            final(self)@ == old(self)@.remove(key@),
    {
        let n = self.entries.len();
        let mut i: usize = 0;
        while i < n
            invariant
                self.wf(),
                self == old(self),
                n == self.entries@.len(),
                i <= n,
                forall|j: int| 0 <= j < i ==> self.entries@[j].0@ != key@,
            decreases n - i,
        {
            if bytes_eq(&self.entries[i].0, key) {
                proof {
                    lemma_assoc_remove(self.entries@, i as int);
                }
                self.entries.remove(i);
                return ;
            }
            i = i + 1;
        }
        proof {
            if self@.contains_key(key@) {
                let j = choose|j: int|
                    0 <= j < self.entries@.len() && self.entries@[j].0@ == key@;
                assert(false);
            }
            assert(self@ =~= self@.remove(key@));
        }
    }

    /// Binds `key` to `value`, replacing any earlier binding.
    pub fn put(&mut self, key: Vec<u8>, value: Vec<u8>)
        requires
            old(self).wf(),
        ensures
            final(self).wf(),
            final(self)@ == old(self)@.insert(key@, value@),
    {
        self.delete(&key);
        let ghost mid = self.entries@;
        proof {
            if exists|j: int| 0 <= j < mid.len() && mid[j].0@ == key@ {
                let j = choose|j: int| 0 <= j < mid.len() && mid[j].0@ == key@;
                lemma_assoc_at(mid, j);
            }
            lemma_assoc_push(mid, (key, value));
        }
        self.entries.push((key, value));
        proof {
            assert(final(self)@ =~= old(self)@.insert(key@, value@));
        }
    }
}

} // verus!
