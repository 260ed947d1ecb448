use hash_map_diff::hash_map_diff;
use hash_map_diff::HashMapDiff;
use hash_map_diff::KvMap;

fn kv(pairs: &[(&str, i64)]) -> KvMap {
    let mut m = KvMap::new();
    for (k, v) in pairs {
        m.insert((*k).to_owned(), *v);
    }
    m
}

#[test]
fn detect_removed_elements() {
    let old_hash_map = kv(&[("key1", 1), ("key2", 2)]);
    let new_hash_map = kv(&[("key2", 2)]);
    let diff = hash_map_diff(&old_hash_map, &new_hash_map);
    let expected_diff = HashMapDiff {
        updated: KvMap::new(),
        removed: kv(&[("key1", 1)]),
    };
    assert_eq!(diff, expected_diff);
}

#[test]
fn detect_changed_values() {
    let old_hash_map = kv(&[("key1", 1), ("key2", 2)]);
    let new_hash_map = kv(&[("key1", 1), ("key2", 3)]);
    let diff = hash_map_diff(&old_hash_map, &new_hash_map);
    let expected_diff = HashMapDiff {
        updated: kv(&[("key2", 3)]),
        removed: KvMap::new(),
    };
    assert_eq!(diff, expected_diff);
}

#[test]
fn detect_new_keys() {
    let old_hash_map = kv(&[("key1", 1)]);
    let new_hash_map = kv(&[("key1", 1), ("key3", 3)]);
    let diff = hash_map_diff(&old_hash_map, &new_hash_map);
    let expected_diff = HashMapDiff {
        updated: kv(&[("key3", 3)]),
        removed: KvMap::new(),
    };
    assert_eq!(diff, expected_diff);
}

#[test]
fn usage_test() {
    let lhs = kv(&[("unchanged", 1), ("removed", 2), ("changed", 3)]);
    let rhs = kv(&[("unchanged", 1), ("changed", 5), ("added", 4)]);

    let received_diff = hash_map_diff(&lhs, &rhs);

    let expected_diff = HashMapDiff {
        updated: kv(&[("changed", 5), ("added", 4)]),
        removed: kv(&[("removed", 2)]),
    };

    assert_eq!(received_diff, expected_diff);
}

#[test]
fn both_empty_yields_empty_diff() {
    let diff = hash_map_diff(&KvMap::new(), &KvMap::new());
    let expected_diff = HashMapDiff {
        updated: KvMap::new(),
        removed: KvMap::new(),
    };
    assert_eq!(diff, expected_diff);
}

#[test]
fn identical_mappings_yield_empty_diff() {
    let m = kv(&[("a", 1), ("b", 2), ("c", 3)]);
    let same = kv(&[("a", 1), ("b", 2), ("c", 3)]);
    let diff = hash_map_diff(&m, &same);
    let expected_diff = HashMapDiff {
        updated: KvMap::new(),
        removed: KvMap::new(),
    };
    assert_eq!(diff, expected_diff);
}

#[test]
fn empty_old_reports_every_binding_as_updated() {
    let new_map = kv(&[("a", 1), ("b", 2)]);
    let diff = hash_map_diff(&KvMap::new(), &new_map);
    assert_eq!(diff.updated, new_map);
    assert_eq!(diff.removed, KvMap::new());
}

#[test]
fn empty_new_reports_every_binding_as_removed() {
    let old_map = kv(&[("a", 1), ("b", 2)]);
    let diff = hash_map_diff(&old_map, &KvMap::new());
    assert_eq!(diff.updated, KvMap::new());
    assert_eq!(diff.removed, old_map);
}

#[test]
fn updated_and_removed_keys_are_disjoint() {
    let lhs = kv(&[("unchanged", 1), ("removed", 2), ("changed", 3)]);
    let rhs = kv(&[("unchanged", 1), ("changed", 5), ("added", 4)]);
    let diff = hash_map_diff(&lhs, &rhs);
    for (key, _) in diff.updated.entries() {
        assert!(!diff.removed.contains_key(&key));
    }
    for (key, _) in diff.removed.entries() {
        assert!(!diff.updated.contains_key(&key));
    }
}

#[test]
fn removed_holds_old_values_of_missing_keys_only() {
    let lhs = kv(&[("gone", 7), ("kept", 8)]);
    let rhs = kv(&[("kept", 9)]);
    let diff = hash_map_diff(&lhs, &rhs);
    assert_eq!(diff.removed.get(&"gone".to_owned()), Some(7));
    assert!(!diff.removed.contains_key(&"kept".to_owned()));
}

#[test]
fn updated_holds_new_values_of_added_and_changed_keys_only() {
    let lhs = kv(&[("same", 1), ("bumped", 2)]);
    let rhs = kv(&[("same", 1), ("bumped", 20), ("fresh", 30)]);
    let diff = hash_map_diff(&lhs, &rhs);
    assert_eq!(diff.updated.get(&"bumped".to_owned()), Some(20));
    assert_eq!(diff.updated.get(&"fresh".to_owned()), Some(30));
    assert!(!diff.updated.contains_key(&"same".to_owned()));
}

#[test]
fn insert_replaces_the_value_of_an_existing_key() {
    let mut m = KvMap::new();
    m.insert("k".to_owned(), 1);
    m.insert("k".to_owned(), 2);
    assert_eq!(m.get(&"k".to_owned()), Some(2));
    assert_eq!(m, kv(&[("k", 2)]));
}

#[test]
fn mapping_equality_ignores_insertion_order() {
    let a = kv(&[("x", 1), ("y", 2)]);
    let b = kv(&[("y", 2), ("x", 1)]);
    assert_eq!(a, b);
}

#[test]
fn mappings_with_different_values_are_unequal() {
    let a = kv(&[("x", 1)]);
    let b = kv(&[("x", 2)]);
    assert!(a != b);
}

#[test]
fn get_and_contains_key_report_bindings() {
    let m = kv(&[("present", 5)]);
    assert!(m.contains_key(&"present".to_owned()));
    assert!(!m.contains_key(&"absent".to_owned()));
    assert_eq!(m.get(&"present".to_owned()), Some(5));
    assert_eq!(m.get(&"absent".to_owned()), None);
}

#[test]
fn entries_returns_every_binding_once() {
    let m = kv(&[("a", 1), ("b", 2)]);
    let mut pairs = m.entries();
    pairs.sort();
    assert_eq!(pairs, vec![("a".to_owned(), 1), ("b".to_owned(), 2)]);
}
