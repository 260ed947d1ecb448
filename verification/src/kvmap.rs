use vstd::prelude::*;

verus! {

/// The string key stored at position `i` of a sequence of entries, as a
/// sequence of characters.
pub open spec fn key_at(s: Seq<(String, i64)>, i: int) -> Seq<char> {
    s[i].0@
}

/// Whether some entry of `s` carries the key `k`.
spec fn has_key(s: Seq<(String, i64)>, k: Seq<char>) -> bool {
    exists|i: int| 0 <= i < s.len() && key_at(s, i) == k
}

spec fn index_of_key(s: Seq<(String, i64)>, k: Seq<char>) -> int {
    choose|i: int| 0 <= i < s.len() && key_at(s, i) == k
}

spec fn unique_keys(s: Seq<(String, i64)>) -> bool {
    forall|i: int, j: int| 0 <= i < j < s.len() ==> key_at(s, i) != key_at(s, j)
}

spec fn view_of(s: Seq<(String, i64)>) -> Map<Seq<char>, i64> {
    Map::new(|k: Seq<char>| has_key(s, k), |k: Seq<char>| s[index_of_key(s, k)].1)
}

/// When the keys of `s` are unique, the entry at position `i` is reflected
/// in the abstract map read off `s`.
proof fn lemma_entry_in_view(s: Seq<(String, i64)>, i: int)
    requires
        unique_keys(s),
        0 <= i < s.len(),
    ensures
        view_of(s).contains_key(key_at(s, i)),
        view_of(s)[key_at(s, i)] == s[i].1,
{
    let k = key_at(s, i);
    assert(has_key(s, k));
    let j = index_of_key(s, k);
    assert(0 <= j < s.len() && key_at(s, j) == k);
    assert(j == i);
}

/// An associative container from string keys to 64-bit integer values.
///
/// Keys are unique; inserting a key that is already present replaces its
/// value. A `KvMap` is abstractly a `Map<Seq<char>, i64>`, available in
/// specifications as `m@`. No iteration order is part of the abstraction.
#[derive(Debug)]
pub struct KvMap {
    entries: Vec<(String, i64)>,
}

impl PartialEq for KvMap {
    /// Two mappings are equal when they bind the same keys to the same
    /// values, whatever order their entries sit in.
    fn eq(&self, other: &KvMap) -> (r: bool) {
        proof {
            use_type_invariant(&*self);
            use_type_invariant(&*other);
        }
        let mut i: usize = 0;
        while i < self.entries.len()
            invariant
                self.wf(),
                other.wf(),
                i <= self.entries@.len(),
                forall|j: int|
                    0 <= j < i ==> other@.contains_key(#[trigger] key_at(self.entries@, j))
                        && other@[key_at(self.entries@, j)] == self.entries@[j].1,
            decreases self.entries@.len() - i,
        {
            proof {
                lemma_entry_in_view(self.entries@, i as int);
            }
            match other.get(&self.entries[i].0) {
                Some(v) => {
                    if v != self.entries[i].1 {
                        proof {
                            assert(self@[key_at(self.entries@, i as int)] != other@[key_at(
                                self.entries@,
                                i as int,
                            )]);
                        }
                        return false;
                    }
                },
                None => {
                    proof {
                        assert(self@.contains_key(key_at(self.entries@, i as int))
                            && !other@.contains_key(key_at(self.entries@, i as int)));
                    }
                    return false;
                },
            }
            i += 1;
        }
        let mut j: usize = 0;
        while j < other.entries.len()
            invariant
                self.wf(),
                other.wf(),
                j <= other.entries@.len(),
                forall|j0: int|
                    0 <= j0 < self.entries@.len() ==> other@.contains_key(
                        #[trigger] key_at(self.entries@, j0),
                    ) && other@[key_at(self.entries@, j0)] == self.entries@[j0].1,
                forall|j0: int|
                    0 <= j0 < j ==> self@.contains_key(#[trigger] key_at(other.entries@, j0)),
            decreases other.entries@.len() - j,
        {
            proof {
                lemma_entry_in_view(other.entries@, j as int);
            }
            if !self.contains_key(&other.entries[j].0) {
                proof {
                    assert(other@.contains_key(key_at(other.entries@, j as int))
                        && !self@.contains_key(key_at(other.entries@, j as int)));
                }
                return false;
            }
            j += 1;
        }
        proof {
            assert forall|k: Seq<char>|
                self@.contains_key(k) == other@.contains_key(k) && (self@.contains_key(k)
                    ==> self@[k] == other@[k]) by {
                if self@.contains_key(k) {
                    let i0 = choose|i0: int|
                        0 <= i0 < self.entries@.len() && key_at(self.entries@, i0) == k;
                    lemma_entry_in_view(self.entries@, i0);
                }
                if other@.contains_key(k) {
                    let j0 = choose|j0: int|
                        0 <= j0 < other.entries@.len() && key_at(other.entries@, j0) == k;
                }
            }
            assert(self@ =~= other@);
        }
        true
    }
}

impl vstd::std_specs::cmp::PartialEqSpecImpl for KvMap {
    open spec fn obeys_eq_spec() -> bool {
        true
    }

    open spec fn eq_spec(&self, other: &KvMap) -> bool {
        self@ == other@
    }
}

impl Eq for KvMap {

}

impl View for KvMap {
    type V = Map<Seq<char>, i64>;

    closed spec fn view(&self) -> Map<Seq<char>, i64> {
        view_of(self.entries@)
    }
}

impl KvMap {
    /// Each key occurs in at most one entry.
    #[verifier::type_invariant]
    spec fn wf(&self) -> bool {
        unique_keys(self.entries@)
    }

    /// Creates an empty mapping.
    pub fn new() -> (m: KvMap)
        ensures
            m@ == Map::<Seq<char>, i64>::empty(),
    {
        let m = KvMap { entries: Vec::new() };
        proof {
            assert(m@ =~= Map::<Seq<char>, i64>::empty());
        }
        m
    }

    /// Looks the key up and returns its value, if any.
    pub fn get(&self, key: &String) -> (r: Option<i64>)
        ensures
            r == if self@.contains_key(key@) {
                Some(self@[key@])
            } else {
                None::<i64>
            },
    {
        proof {
            use_type_invariant(&*self);
        }
        let mut i: usize = 0;
        while i < self.entries.len()
            invariant
                self.wf(),
                i <= self.entries@.len(),
                forall|j: int| 0 <= j < i ==> key_at(self.entries@, j) != key@,
            decreases self.entries@.len() - i,
        {
            if self.entries[i].0 == *key {
                proof {
                    lemma_entry_in_view(self.entries@, i as int);
                }
                return Some(self.entries[i].1);
            }
            i += 1;
        }
        proof {
            assert(!has_key(self.entries@, key@));
        }
        None
    }

    /// Whether the key is present in the mapping.
    pub fn contains_key(&self, key: &String) -> (r: bool)
        ensures
            r == self@.contains_key(key@),
    {
        self.get(key).is_some()
    }

    /// Binds the key to the value, replacing any value the key had before.
    pub fn insert(&mut self, key: String, value: i64)
        ensures
            final(self)@ == old(self)@.insert(key@, value),
    {
        proof {
            use_type_invariant(&*self);
        }
        let ghost m0 = self@;
        let ghost s0 = self.entries@;
        let mut kept: Vec<(String, i64)> = Vec::new();
        let mut i: usize = 0;
        while i < self.entries.len()
            invariant
                self.wf(),
                self@ == m0,
                self.entries@ == s0,
                i <= s0.len(),
                unique_keys(kept@),
                forall|j: int| 0 <= j < kept@.len() ==> #[trigger] key_at(kept@, j) != key@,
                forall|j: int|
                    0 <= j < kept@.len() ==> exists|i0: int|
                        0 <= i0 < i && #[trigger] kept@[j] == s0[i0],
                forall|i0: int|
                    0 <= i0 < i && #[trigger] key_at(s0, i0) != key@ ==> exists|j: int|
                        0 <= j < kept@.len() && key_at(kept@, j) == key_at(s0, i0),
            decreases s0.len() - i,
        {
            let e = &self.entries[i];
            if !(e.0 == key) {
                let ghost k0 = kept@;
                kept.push((e.0.clone(), e.1));
                proof {
                    assert(forall|j: int| 0 <= j < k0.len() ==> #[trigger] kept@[j] == k0[j]);
                    assert(kept@.last() == s0[i as int]);
                    assert forall|j1: int, j2: int|
                        0 <= j1 < j2 < kept@.len() implies key_at(kept@, j1) != key_at(
                        kept@,
                        j2,
                    ) by {
                        if j2 < kept@.len() - 1 {
                            assert(kept@[j1] == k0[j1] && kept@[j2] == k0[j2]);
                            assert(key_at(k0, j1) != key_at(k0, j2));
                        } else {
                            let i0 = choose|i0: int| 0 <= i0 < i && k0[j1] == s0[i0];
                            assert(key_at(kept@, j1) == key_at(s0, i0));
                            assert(key_at(kept@, j2) == key_at(s0, i as int));
                            assert(key_at(s0, i0) != key_at(s0, i as int));
                        }
                    }
                    assert forall|j: int|
                        0 <= j < kept@.len() implies #[trigger] key_at(kept@, j) != key@ by {
                        if j < kept@.len() - 1 {
                            assert(kept@[j] == k0[j]);
                            assert(key_at(k0, j) != key@);
                        } else {
                            assert(key_at(kept@, j) == key_at(s0, i as int));
                        }
                    }
                    assert forall|j: int| 0 <= j < kept@.len() implies exists|i0: int|
                        0 <= i0 < i + 1 && #[trigger] kept@[j] == s0[i0] by {
                        if j < kept@.len() - 1 {
                            let i0 = choose|i0: int| 0 <= i0 < i && k0[j] == s0[i0];
                            assert(kept@[j] == s0[i0]);
                        } else {
                            assert(kept@[j] == s0[i as int]);
                        }
                    }
                    assert forall|i0: int|
                        0 <= i0 < i + 1 && #[trigger] key_at(s0, i0) != key@ implies exists|j: int|
                        0 <= j < kept@.len() && key_at(kept@, j) == key_at(s0, i0) by {
                        if i0 < i {
                            let j = choose|j: int|
                                0 <= j < k0.len() && key_at(k0, j) == key_at(s0, i0);
                            assert(kept@[j] == k0[j]);
                            assert(key_at(kept@, j) == key_at(s0, i0));
                        } else {
                            assert(key_at(kept@, kept@.len() - 1) == key_at(s0, i0));
                        }
                    }
                }
            }
            i += 1;
        }
        let ghost kpre = kept@;
        kept.push((key, value));
        let ghost sk = kept@;
        proof {
            assert(forall|j: int| 0 <= j < kpre.len() ==> #[trigger] sk[j] == kpre[j]);
            assert(sk.last() == (key, value));
            assert(key_at(sk, sk.len() - 1) == key@);
            assert forall|j1: int, j2: int|
                0 <= j1 < j2 < sk.len() implies key_at(sk, j1) != key_at(sk, j2) by {
                if j2 < sk.len() - 1 {
                    assert(sk[j1] == kpre[j1] && sk[j2] == kpre[j2]);
                    assert(key_at(kpre, j1) != key_at(kpre, j2));
                } else {
                    assert(sk[j1] == kpre[j1]);
                    assert(key_at(kpre, j1) != key@);
                }
            }
        }
        self.entries = kept;
        proof {
            lemma_entry_in_view(sk, sk.len() - 1);
            assert forall|k: Seq<char>|
                self@.contains_key(k) == #[trigger] m0.insert(key@, value).contains_key(k) && (
                self@.contains_key(k) ==> self@[k] == m0.insert(key@, value)[k]) by {
                if k != key@ {
                    if m0.contains_key(k) {
                        assert(has_key(s0, k));
                        let i0 = choose|i0: int| 0 <= i0 < s0.len() && key_at(s0, i0) == k;
                        assert(key_at(s0, i0) != key@);
                        let j = choose|j: int|
                            0 <= j < kpre.len() && key_at(kpre, j) == key_at(s0, i0);
                        assert(sk[j] == kpre[j]);
                        assert(key_at(sk, j) == k);
                        assert(has_key(sk, k));
                        lemma_entry_in_view(sk, j);
                        let iw = choose|iw: int| 0 <= iw < s0.len() && kpre[j] == s0[iw];
                        assert(key_at(s0, iw) == k);
                        lemma_entry_in_view(s0, iw);
                        assert(self@[k] == m0[k]);
                    }
                    if self@.contains_key(k) {
                        assert(has_key(sk, k));
                        let j = choose|j: int| 0 <= j < sk.len() && key_at(sk, j) == k;
                        assert(j < sk.len() - 1);
                        assert(sk[j] == kpre[j]);
                        let iw = choose|iw: int| 0 <= iw < s0.len() && kpre[j] == s0[iw];
                        assert(key_at(s0, iw) == k);
                        assert(has_key(s0, k));
                        assert(m0.contains_key(k));
                    }
                }
            }
            assert(self@ =~= m0.insert(key@, value));
        }
    }

    /// Returns the entries of the mapping as a vector of key-value pairs.
    ///
    /// Every pair reflects a binding of the mapping, every key of the mapping
    /// appears in exactly one pair, and no key appears twice. The order of
    /// the pairs is not part of the mapping's abstraction.
    pub fn entries(&self) -> (ps: Vec<(String, i64)>)
        ensures
            forall|j1: int, j2: int|
                0 <= j1 < j2 < ps@.len() ==> key_at(ps@, j1) != key_at(ps@, j2),
            forall|j: int|
                0 <= j < ps@.len() ==> self@.contains_key(#[trigger] key_at(ps@, j))
                    && self@[key_at(ps@, j)] == ps@[j].1,
            forall|k: Seq<char>|
                #[trigger] self@.contains_key(k) ==> exists|j: int|
                    0 <= j < ps@.len() && key_at(ps@, j) == k,
    {
        proof {
            use_type_invariant(&*self);
        }
        let mut ps: Vec<(String, i64)> = Vec::new();
        let mut i: usize = 0;
        while i < self.entries.len()
            invariant
                self.wf(),
                i <= self.entries@.len(),
                ps@.len() == i,
                forall|j: int| 0 <= j < i ==> ps@[j] == self.entries@[j],
            decreases self.entries@.len() - i,
        {
            let e = &self.entries[i];
            ps.push((e.0.clone(), e.1));
            proof {
                assert(ps@.last() == self.entries@[i as int]);
            }
            i += 1;
        }
        proof {
            assert(ps@ =~= self.entries@);
            assert forall|j: int|
                0 <= j < ps@.len() implies self@.contains_key(#[trigger] key_at(ps@, j))
                && self@[key_at(ps@, j)] == ps@[j].1 by {
                lemma_entry_in_view(self.entries@, j);
            }
        }
        ps
    }
}

} // verus!
