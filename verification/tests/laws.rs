use tombstone::manager::TombstoneManager;
use tombstone::memory::MemoryKvBackend;

fn snapshot(kv_backend: &MemoryKvBackend) -> Vec<(Vec<u8>, Vec<u8>)> {
    let mut kvs: Vec<(Vec<u8>, Vec<u8>)> = kv_backend
        .dump()
        .into_iter()
        .map(|kv| (kv.key, kv.value))
        .collect();
    kvs.sort();
    kvs
}

fn pair(key: &str, value: &str) -> (Vec<u8>, Vec<u8>) {
    (key.as_bytes().to_vec(), value.as_bytes().to_vec())
}

fn keys(names: &[&str]) -> Vec<Vec<u8>> {
    names.iter().map(|name| name.as_bytes().to_vec()).collect()
}

fn manager_with(entries: &[(&str, &str)]) -> TombstoneManager<MemoryKvBackend> {
    let mut manager = TombstoneManager::new(MemoryKvBackend::new());
    for (key, value) in entries {
        manager
            .kv_backend
            .put(key.as_bytes().to_vec(), value.as_bytes().to_vec());
    }
    manager
}

#[test]
fn create_returns_two_and_moves_both_values() {
    let mut manager = manager_with(&[("bar", "baz"), ("foo", "hi")]);
    assert_eq!(manager.create(keys(&["bar", "foo"])).unwrap(), 2);
    assert_eq!(
        snapshot(&manager.kv_backend),
        vec![pair("__tombstone/bar", "baz"), pair("__tombstone/foo", "hi")]
    );
}

#[test]
fn create_passes_over_a_key_that_does_not_exist() {
    let mut manager = manager_with(&[("bar", "baz")]);
    assert_eq!(manager.create(keys(&["bar", "baz"])).unwrap(), 1);
    assert_eq!(
        snapshot(&manager.kv_backend),
        vec![pair("__tombstone/bar", "baz")]
    );
    assert!(!manager
        .kv_backend
        .contains_key(&b"__tombstone/baz".to_vec()));
}

#[test]
fn restore_after_create_gives_back_the_store() {
    let mut manager = manager_with(&[("bar", "baz"), ("foo", "hi"), ("other", "stays")]);
    let before = snapshot(&manager.kv_backend);
    assert_eq!(manager.create(keys(&["bar", "foo", "gone"])).unwrap(), 2);
    assert_ne!(before, snapshot(&manager.kv_backend));
    assert_eq!(manager.restore(keys(&["bar", "foo", "gone"])).unwrap(), 2);
    assert_eq!(before, snapshot(&manager.kv_backend));
    assert_eq!(
        before,
        vec![pair("bar", "baz"), pair("foo", "hi"), pair("other", "stays")]
    );
}

#[test]
fn delete_after_create_leaves_nothing() {
    let mut manager = manager_with(&[("bar", "baz"), ("foo", "hi")]);
    assert_eq!(manager.create(keys(&["bar", "foo"])).unwrap(), 2);
    assert_eq!(manager.delete(keys(&["bar", "foo"])).unwrap(), 2);
    assert!(manager.kv_backend.is_empty());
    assert_eq!(manager.kv_backend.len(), 0);
}

#[test]
fn delete_returns_the_number_asked_for() {
    let mut manager = manager_with(&[("__tombstone/bar", "baz"), ("bar", "live")]);
    assert_eq!(manager.delete(keys(&["bar", "foo", "qux"])).unwrap(), 3);
    assert_eq!(snapshot(&manager.kv_backend), vec![pair("bar", "live")]);
    // Deleting again is no error.
    assert_eq!(manager.delete(keys(&["bar", "foo", "qux"])).unwrap(), 3);
    assert_eq!(snapshot(&manager.kv_backend), vec![pair("bar", "live")]);
}

#[test]
fn second_create_returns_zero() {
    let mut manager = manager_with(&[("bar", "baz"), ("foo", "hi")]);
    assert_eq!(manager.create(keys(&["bar", "foo"])).unwrap(), 2);
    let after_first = snapshot(&manager.kv_backend);
    assert_eq!(manager.create(keys(&["bar", "foo"])).unwrap(), 0);
    assert_eq!(after_first, snapshot(&manager.kv_backend));
}

#[test]
fn second_move_returns_zero_and_keeps_the_destinations() {
    let mut manager = manager_with(&[("a", "1"), ("b", "2")]);
    let moved = manager
        .move_values(keys(&["a", "b"]), keys(&["x", "y"]))
        .unwrap();
    assert_eq!(moved, 2);
    let after_first = snapshot(&manager.kv_backend);
    assert_eq!(after_first, vec![pair("x", "1"), pair("y", "2")]);
    let moved = manager
        .move_values(keys(&["a", "b"]), keys(&["x", "y"]))
        .unwrap();
    assert_eq!(moved, 0);
    assert_eq!(after_first, snapshot(&manager.kv_backend));
}

#[test]
fn move_counts_only_the_keys_that_exist() {
    let mut manager = manager_with(&[("a", "1"), ("c", "3")]);
    let moved = manager
        .move_values(keys(&["a", "b", "c", "d"]), keys(&["w", "x", "y", "z"]))
        .unwrap();
    assert_eq!(moved, 2);
    assert_eq!(
        snapshot(&manager.kv_backend),
        vec![pair("w", "1"), pair("y", "3")]
    );
}

#[test]
fn key_given_twice_is_moved_once() {
    let mut manager = manager_with(&[("a", "1")]);
    let moved = manager
        .move_values(keys(&["a", "a"]), keys(&["x", "y"]))
        .unwrap();
    assert_eq!(moved, 1);
    assert_eq!(snapshot(&manager.kv_backend), vec![pair("x", "1")]);
}

#[test]
fn chunking_does_not_change_the_result() {
    let names = ["bar", "foo", "baz", "qux", "quux", "quuux", "quuuux", "quuuuux", "quuuuuux"];
    let mut results = Vec::new();
    for ceiling in [None, Some(4usize), Some(2), Some(7), Some(18), Some(1000)] {
        let mut manager = TombstoneManager::new(MemoryKvBackend::new());
        if let Some(ceiling) = ceiling {
            manager.set_max_txn_ops(ceiling);
        }
        for (i, name) in names.iter().enumerate() {
            if i != 3 {
                manager
                    .kv_backend
                    .put(name.as_bytes().to_vec(), vec![i as u8]);
            }
        }
        let moved = manager.create(keys(&names)).unwrap();
        results.push((moved, snapshot(&manager.kv_backend)));
    }
    assert_eq!(results[0].0, 8);
    assert_eq!(results[0].1.len(), 8);
    for result in &results[1..] {
        assert_eq!(result, &results[0]);
    }
}

#[test]
fn nine_keys_in_chunks_of_two_are_all_moved() {
    let names = ["bar", "foo", "baz", "qux", "quux", "quuux", "quuuux", "quuuuux", "quuuuuux"];
    let mut manager = TombstoneManager::new(MemoryKvBackend::new());
    manager.set_max_txn_ops(4);
    for name in names {
        manager
            .kv_backend
            .put(name.as_bytes().to_vec(), b"world".to_vec());
    }
    assert_eq!(manager.create(keys(&names)).unwrap(), 9);
    assert_eq!(manager.kv_backend.len(), 9);
    for name in names {
        assert!(!manager.kv_backend.contains_key(&name.as_bytes().to_vec()));
        let tombstone = manager.to_tombstone(name.as_bytes());
        assert_eq!(tombstone, format!("__tombstone/{name}").into_bytes());
        assert_eq!(manager.kv_backend.get(&tombstone).unwrap(), b"world");
    }
}

#[test]
fn mismatch_message_names_both_lengths() {
    let mut manager = TombstoneManager::new(MemoryKvBackend::new());
    let mut many = Vec::new();
    for i in 0..120u8 {
        many.push(vec![i]);
    }
    let err = manager.move_values(many, keys(&["a"])).unwrap_err();
    assert_eq!(
        err.to_string(),
        "The length of keys(120) does not match the length of dest_keys(1)."
    );
    let err = manager.move_values(vec![], keys(&["a"])).unwrap_err();
    assert_eq!(
        err.to_string(),
        "The length of keys(0) does not match the length of dest_keys(1)."
    );
}

#[test]
fn tombstone_key_gives_back_its_key() {
    let manager = TombstoneManager::new_with_prefix(MemoryKvBackend::new(), "gone/");
    for key in [&b"bar"[..], &b""[..], &b"gone/bar"[..], &[0u8, 255, 7][..]] {
        let tombstone = manager.to_tombstone(key);
        assert_eq!(tombstone.len(), 5 + key.len());
        assert_eq!(&tombstone[..5], b"gone/");
        assert_eq!(&tombstone[5..], key);
    }
}

#[test]
fn overlapping_pairs_depend_on_the_chunks() {
    // A destination that is also a source: the second pair finds its source
    // only if the first pair was moved in an earlier chunk.
    let mut manager = manager_with(&[("a", "1")]);
    let moved = manager
        .move_values(keys(&["a", "b"]), keys(&["b", "c"]))
        .unwrap();
    assert_eq!(moved, 1);
    assert_eq!(snapshot(&manager.kv_backend), vec![pair("b", "1")]);

    let mut manager = manager_with(&[("a", "1")]);
    manager.set_max_txn_ops(2);
    let moved = manager
        .move_values(keys(&["a", "b"]), keys(&["b", "c"]))
        .unwrap();
    assert_eq!(moved, 2);
    assert_eq!(snapshot(&manager.kv_backend), vec![pair("c", "1")]);
}

#[test]
fn pair_whose_source_is_overwritten_is_moved_in_the_next_round() {
    let mut manager = manager_with(&[("a", "1"), ("b", "2")]);
    let moved = manager
        .move_values(keys(&["a", "b"]), keys(&["b", "c"]))
        .unwrap();
    assert_eq!(moved, 2);
    assert_eq!(snapshot(&manager.kv_backend), vec![pair("c", "1")]);
}
