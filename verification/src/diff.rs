use crate::kvmap::key_at;
use crate::kvmap::KvMap;
use vstd::prelude::*;

verus! {

/// The bindings an old mapping loses in a new one: every key of `old_map`
/// that is absent from `new_map`, bound to its old value.
pub open spec fn spec_removed(old_map: Map<Seq<char>, i64>, new_map: Map<Seq<char>, i64>) -> Map<
    Seq<char>,
    i64,
> {
    Map::new(
        |k: Seq<char>| old_map.contains_key(k) && !new_map.contains_key(k),
        |k: Seq<char>| old_map[k],
    )
}

/// The bindings a new mapping adds or changes: every key of `new_map` that
/// is absent from `old_map` or bound there to a different value, bound to
/// its new value.
pub open spec fn spec_updated(old_map: Map<Seq<char>, i64>, new_map: Map<Seq<char>, i64>) -> Map<
    Seq<char>,
    i64,
> {
    Map::new(
        |k: Seq<char>| new_map.contains_key(k) && (!old_map.contains_key(k) || old_map[k]
            != new_map[k]),
        |k: Seq<char>| new_map[k],
    )
}

/// The difference between two mappings: the bindings that were added or
/// changed, and the bindings that were removed.
#[derive(Debug)]
pub struct HashMapDiff {
    /// Every key of the new mapping whose value is absent from or different
    /// in the old mapping, bound to the new value.
    pub updated: KvMap,
    /// Every key of the old mapping that is absent from the new mapping,
    /// bound to the old value.
    pub removed: KvMap,
}

impl PartialEq for HashMapDiff {
    /// Two diffs are equal when their `updated` and `removed` mappings are.
    fn eq(&self, other: &HashMapDiff) -> (r: bool) {
        self.updated == other.updated && self.removed == other.removed
    }
}

impl vstd::std_specs::cmp::PartialEqSpecImpl for HashMapDiff {
    open spec fn obeys_eq_spec() -> bool {
        true
    }

    open spec fn eq_spec(&self, other: &HashMapDiff) -> bool {
        self.updated@ == other.updated@ && self.removed@ == other.removed@
    }
}

impl Eq for HashMapDiff {

}

/// The keys of the first `n` entries of `s`.
spec fn seen_keys(s: Seq<(String, i64)>, n: int) -> Set<Seq<char>> {
    Set::new(|k: Seq<char>| exists|j: int| 0 <= j < n && key_at(s, j) == k)
}

/// Compares an old and a new mapping and reports the difference.
///
/// The result's `removed` mapping holds exactly the keys of `lhs` that are
/// absent from `rhs`, each with its old value; the result's `updated`
/// mapping holds exactly the keys of `rhs` that are absent from `lhs` or
/// bound there to a different value, each with its new value. Neither input
/// is changed, and the result is owned by the caller.
pub fn hash_map_diff(lhs: &KvMap, rhs: &KvMap) -> (d: HashMapDiff)
    ensures
        d.removed@ == spec_removed(lhs@, rhs@),
        d.updated@ == spec_updated(lhs@, rhs@),
{
    let lhs_entries = lhs.entries();
    let mut removed = KvMap::new();
    let mut i: usize = 0;
    while i < lhs_entries.len()
        invariant
            i <= lhs_entries@.len(),
            forall|j1: int, j2: int|
                0 <= j1 < j2 < lhs_entries@.len() ==> key_at(lhs_entries@, j1) != key_at(
                    lhs_entries@,
                    j2,
                ),
            forall|j: int|
                0 <= j < lhs_entries@.len() ==> lhs@.contains_key(
                    #[trigger] key_at(lhs_entries@, j),
                ) && lhs@[key_at(lhs_entries@, j)] == lhs_entries@[j].1,
            forall|k: Seq<char>|
                #[trigger] lhs@.contains_key(k) ==> exists|j: int|
                    0 <= j < lhs_entries@.len() && key_at(lhs_entries@, j) == k,
            removed@ == spec_removed(lhs@, rhs@).restrict(seen_keys(lhs_entries@, i as int)),
        decreases lhs_entries@.len() - i,
    {
        let e = &lhs_entries[i];
        if !rhs.contains_key(&e.0) {
            removed.insert(e.0.clone(), e.1);
        }
        proof {
            assert forall|k: Seq<char>|
                #[trigger] seen_keys(lhs_entries@, i + 1).contains(k) implies seen_keys(
                lhs_entries@,
                i as int,
            ).contains(k) || k == key_at(lhs_entries@, i as int) by {
                let j = choose|j: int| 0 <= j < i + 1 && key_at(lhs_entries@, j) == k;
                if j < i {
                    assert(seen_keys(lhs_entries@, i as int).contains(k));
                }
            }
            assert forall|k: Seq<char>|
                #[trigger] seen_keys(lhs_entries@, i as int).contains(k) implies seen_keys(
                lhs_entries@,
                i + 1,
            ).contains(k) by {
                let j = choose|j: int| 0 <= j < i && key_at(lhs_entries@, j) == k;
                assert(0 <= j < i + 1 && key_at(lhs_entries@, j) == k);
            }
            assert(seen_keys(lhs_entries@, i + 1).contains(key_at(lhs_entries@, i as int)));
            assert(removed@ =~= spec_removed(lhs@, rhs@).restrict(seen_keys(lhs_entries@, i + 1)));
        }
        i += 1;
    }
    proof {
        assert forall|k: Seq<char>| #[trigger]
            spec_removed(lhs@, rhs@).contains_key(k) implies seen_keys(
            lhs_entries@,
            lhs_entries@.len() as int,
        ).contains(k) by {
            let j = choose|j: int| 0 <= j < lhs_entries@.len() && key_at(lhs_entries@, j) == k;
        }
        assert(removed@ =~= spec_removed(lhs@, rhs@));
    }
    let rhs_entries = rhs.entries();
    let mut updated = KvMap::new();
    let mut j: usize = 0;
    while j < rhs_entries.len()
        invariant
            j <= rhs_entries@.len(),
            forall|j1: int, j2: int|
                0 <= j1 < j2 < rhs_entries@.len() ==> key_at(rhs_entries@, j1) != key_at(
                    rhs_entries@,
                    j2,
                ),
            forall|j0: int|
                0 <= j0 < rhs_entries@.len() ==> rhs@.contains_key(
                    #[trigger] key_at(rhs_entries@, j0),
                ) && rhs@[key_at(rhs_entries@, j0)] == rhs_entries@[j0].1,
            forall|k: Seq<char>|
                #[trigger] rhs@.contains_key(k) ==> exists|j0: int|
                    0 <= j0 < rhs_entries@.len() && key_at(rhs_entries@, j0) == k,
            updated@ == spec_updated(lhs@, rhs@).restrict(seen_keys(rhs_entries@, j as int)),
        decreases rhs_entries@.len() - j,
    {
        let e = &rhs_entries[j];
        match lhs.get(&e.0) {
            Some(old_value) => {
                if old_value != e.1 {
                    updated.insert(e.0.clone(), e.1);
                }
            },
            None => {
                updated.insert(e.0.clone(), e.1);
            },
        }
        proof {
            assert forall|k: Seq<char>|
                #[trigger] seen_keys(rhs_entries@, j + 1).contains(k) implies seen_keys(
                rhs_entries@,
                j as int,
            ).contains(k) || k == key_at(rhs_entries@, j as int) by {
                let j0 = choose|j0: int| 0 <= j0 < j + 1 && key_at(rhs_entries@, j0) == k;
                if j0 < j {
                    assert(seen_keys(rhs_entries@, j as int).contains(k));
                }
            }
            assert forall|k: Seq<char>|
                #[trigger] seen_keys(rhs_entries@, j as int).contains(k) implies seen_keys(
                rhs_entries@,
                j + 1,
            ).contains(k) by {
                let j0 = choose|j0: int| 0 <= j0 < j && key_at(rhs_entries@, j0) == k;
                assert(0 <= j0 < j + 1 && key_at(rhs_entries@, j0) == k);
            }
            assert(seen_keys(rhs_entries@, j + 1).contains(key_at(rhs_entries@, j as int)));
            assert(updated@ =~= spec_updated(lhs@, rhs@).restrict(seen_keys(rhs_entries@, j + 1)));
        }
        j += 1;
    }
    proof {
        assert forall|k: Seq<char>| #[trigger]
            spec_updated(lhs@, rhs@).contains_key(k) implies seen_keys(
            rhs_entries@,
            rhs_entries@.len() as int,
        ).contains(k) by {
            let j0 = choose|j0: int| 0 <= j0 < rhs_entries@.len() && key_at(rhs_entries@, j0) == k;
        }
        assert(updated@ =~= spec_updated(lhs@, rhs@));
    }
    HashMapDiff { updated, removed }
}

/// For any two mappings, the key set of the updated bindings and the key
/// set of the removed bindings are disjoint: a removed key is absent from
/// the new mapping, while an updated key is present in it.
pub proof fn lemma_diff_disjoint(old_map: Map<Seq<char>, i64>, new_map: Map<Seq<char>, i64>)
    ensures
        spec_updated(old_map, new_map).dom().disjoint(spec_removed(old_map, new_map).dom()),
{
    assert forall|k: Seq<char>|
        spec_updated(old_map, new_map).dom().contains(k) implies !spec_removed(
        old_map,
        new_map,
    ).dom().contains(k) by {}
}

/// The removed bindings are exactly the keys of the old mapping that are
/// absent from the new mapping, each bound to its old value.
pub proof fn lemma_removed_exact(old_map: Map<Seq<char>, i64>, new_map: Map<Seq<char>, i64>)
    ensures
        forall|k: Seq<char>|
            #[trigger] spec_removed(old_map, new_map).contains_key(k) <==> old_map.contains_key(k)
                && !new_map.contains_key(k),
        forall|k: Seq<char>|
            #[trigger] spec_removed(old_map, new_map).contains_key(k) ==> spec_removed(
                old_map,
                new_map,
            )[k] == old_map[k],
{
}

/// The updated bindings are exactly the keys of the new mapping that are
/// absent from the old mapping or bound there to a different value, each
/// bound to its new value.
pub proof fn lemma_updated_exact(old_map: Map<Seq<char>, i64>, new_map: Map<Seq<char>, i64>)
    ensures
        forall|k: Seq<char>|
            #[trigger] spec_updated(old_map, new_map).contains_key(k) <==> new_map.contains_key(k)
                && (!old_map.contains_key(k) || old_map[k] != new_map[k]),
        forall|k: Seq<char>|
            #[trigger] spec_updated(old_map, new_map).contains_key(k) ==> spec_updated(
                old_map,
                new_map,
            )[k] == new_map[k],
{
}

/// Diffing any mapping against itself yields empty updated and removed
/// bindings.
pub proof fn lemma_diff_of_identical(m: Map<Seq<char>, i64>)
    ensures
        spec_updated(m, m) == Map::<Seq<char>, i64>::empty(),
        spec_removed(m, m) == Map::<Seq<char>, i64>::empty(),
{
    assert(spec_updated(m, m) =~= Map::<Seq<char>, i64>::empty());
    assert(spec_removed(m, m) =~= Map::<Seq<char>, i64>::empty());
}

/// Diffing an empty old mapping against any new mapping reports every new
/// binding as updated and nothing as removed.
pub proof fn lemma_diff_of_empty_old(new_map: Map<Seq<char>, i64>)
    ensures
        spec_updated(Map::<Seq<char>, i64>::empty(), new_map) == new_map,
        spec_removed(Map::<Seq<char>, i64>::empty(), new_map) == Map::<Seq<char>, i64>::empty(),
{
    assert(spec_updated(Map::<Seq<char>, i64>::empty(), new_map) =~= new_map);
    assert(spec_removed(Map::<Seq<char>, i64>::empty(), new_map) =~= Map::<
        Seq<char>,
        i64,
    >::empty());
}

/// Diffing any old mapping against an empty new mapping reports nothing as
/// updated and every old binding as removed.
pub proof fn lemma_diff_with_empty_new(old_map: Map<Seq<char>, i64>)
    ensures
        spec_updated(old_map, Map::<Seq<char>, i64>::empty()) == Map::<Seq<char>, i64>::empty(),
        spec_removed(old_map, Map::<Seq<char>, i64>::empty()) == old_map,
{
    assert(spec_updated(old_map, Map::<Seq<char>, i64>::empty()) =~= Map::<
        Seq<char>,
        i64,
    >::empty());
    assert(spec_removed(old_map, Map::<Seq<char>, i64>::empty()) =~= old_map);
}

} // verus!
