use tombstone::error::Error;
use tombstone::manager::TombstoneManager;
use tombstone::memory::MemoryKvBackend;

#[derive(Debug, Clone)]
struct MoveValue {
    key: Vec<u8>,
    dest_key: Vec<u8>,
    value: Vec<u8>,
}

fn check_moved_values(kv_backend: &MemoryKvBackend, move_values: &[MoveValue]) {
    for MoveValue {
        key,
        dest_key,
        value,
    } in move_values
    {
        assert!(kv_backend.get(key).is_none());
        assert_eq!(&kv_backend.get(dest_key).unwrap(), value);
    }
}

fn sorted_dump(kv_backend: &MemoryKvBackend) -> Vec<(Vec<u8>, Vec<u8>)> {
    let mut kvs: Vec<(Vec<u8>, Vec<u8>)> = kv_backend
        .dump()
        .into_iter()
        .map(|kv| (kv.key, kv.value))
        .collect();
    kvs.sort();
    kvs
}

fn put_all(kv_backend: &mut MemoryKvBackend, kvs: &[(Vec<u8>, Vec<u8>)]) {
    for (key, value) in kvs {
        kv_backend.put(key.clone(), value.clone());
    }
}

fn to_move_values(
    tombstone_manager: &TombstoneManager<MemoryKvBackend>,
    kvs: &[(Vec<u8>, Vec<u8>)],
) -> Vec<MoveValue> {
    kvs.iter()
        .map(|(key, value)| MoveValue {
            key: key.clone(),
            dest_key: tombstone_manager.to_tombstone(key),
            value: value.clone(),
        })
        .collect::<Vec<_>>()
}

fn unzip(move_values: &[MoveValue]) -> (Vec<Vec<u8>>, Vec<Vec<u8>>) {
    move_values
        .iter()
        .cloned()
        .map(|kv| (kv.key, kv.dest_key))
        .unzip()
}

#[test]
fn test_create_tombstone() {
    let mut tombstone_manager = TombstoneManager::new(MemoryKvBackend::new());
    tombstone_manager
        .kv_backend
        .put(b"bar".to_vec(), b"baz".to_vec());
    tombstone_manager
        .kv_backend
        .put(b"foo".to_vec(), b"hi".to_vec());
    tombstone_manager
        .create(vec![b"bar".to_vec(), b"foo".to_vec()])
        .unwrap();
    let kv_backend = &tombstone_manager.kv_backend;
    assert!(!kv_backend.contains_key(&b"bar".to_vec()));
    assert!(!kv_backend.contains_key(&b"foo".to_vec()));
    assert_eq!(
        kv_backend
            .get(&tombstone_manager.to_tombstone(b"bar"))
            .unwrap(),
        b"baz"
    );
    assert_eq!(
        kv_backend
            .get(&tombstone_manager.to_tombstone(b"foo"))
            .unwrap(),
        b"hi"
    );
    assert_eq!(kv_backend.len(), 2);
}

#[test]
fn test_create_tombstone_with_non_exist_values() {
    let mut tombstone_manager = TombstoneManager::new(MemoryKvBackend::new());
    tombstone_manager
        .kv_backend
        .put(b"bar".to_vec(), b"baz".to_vec());
    tombstone_manager
        .kv_backend
        .put(b"foo".to_vec(), b"hi".to_vec());

    tombstone_manager
        .create(vec![b"bar".to_vec(), b"baz".to_vec()])
        .unwrap();
    check_moved_values(
        &tombstone_manager.kv_backend,
        &[MoveValue {
            key: b"bar".to_vec(),
            dest_key: tombstone_manager.to_tombstone(b"bar"),
            value: b"baz".to_vec(),
        }],
    );
}

#[test]
fn test_restore_tombstone() {
    let mut tombstone_manager = TombstoneManager::new(MemoryKvBackend::new());
    tombstone_manager
        .kv_backend
        .put(b"bar".to_vec(), b"baz".to_vec());
    tombstone_manager
        .kv_backend
        .put(b"foo".to_vec(), b"hi".to_vec());
    let expected_kvs = sorted_dump(&tombstone_manager.kv_backend);
    tombstone_manager
        .create(vec![b"bar".to_vec(), b"foo".to_vec()])
        .unwrap();
    tombstone_manager
        .restore(vec![b"bar".to_vec(), b"foo".to_vec()])
        .unwrap();
    assert_eq!(expected_kvs, sorted_dump(&tombstone_manager.kv_backend));
}

#[test]
fn test_delete_tombstone() {
    let mut tombstone_manager = TombstoneManager::new(MemoryKvBackend::new());
    tombstone_manager
        .kv_backend
        .put(b"bar".to_vec(), b"baz".to_vec());
    tombstone_manager
        .kv_backend
        .put(b"foo".to_vec(), b"hi".to_vec());
    tombstone_manager
        .create(vec![b"bar".to_vec(), b"foo".to_vec()])
        .unwrap();
    tombstone_manager
        .delete(vec![b"bar".to_vec(), b"foo".to_vec()])
        .unwrap();
    assert!(tombstone_manager.kv_backend.is_empty());
}

#[test]
fn test_move_values() {
    let mut tombstone_manager = TombstoneManager::new(MemoryKvBackend::new());
    let kvs = vec![
        (b"bar".to_vec(), b"baz".to_vec()),
        (b"foo".to_vec(), b"hi".to_vec()),
        (b"baz".to_vec(), b"hello".to_vec()),
    ];
    put_all(&mut tombstone_manager.kv_backend, &kvs);
    let move_values = to_move_values(&tombstone_manager, &kvs);
    let (keys, dest_keys) = unzip(&move_values);
    let moved_keys = tombstone_manager
        .move_values(keys.clone(), dest_keys.clone())
        .unwrap();
    assert_eq!(kvs.len(), moved_keys);
    check_moved_values(&tombstone_manager.kv_backend, &move_values);
    // Moves again
    let moved_keys = tombstone_manager
        .move_values(keys.clone(), dest_keys.clone())
        .unwrap();
    assert_eq!(0, moved_keys);
    check_moved_values(&tombstone_manager.kv_backend, &move_values);
}

#[test]
fn test_move_values_with_max_txn_ops() {
    let mut tombstone_manager = TombstoneManager::new(MemoryKvBackend::new());
    tombstone_manager.set_max_txn_ops(4);
    let kvs = vec![
        (b"bar".to_vec(), b"baz".to_vec()),
        (b"foo".to_vec(), b"hi".to_vec()),
        (b"baz".to_vec(), b"hello".to_vec()),
        (b"qux".to_vec(), b"world".to_vec()),
        (b"quux".to_vec(), b"world".to_vec()),
        (b"quuux".to_vec(), b"world".to_vec()),
        (b"quuuux".to_vec(), b"world".to_vec()),
        (b"quuuuux".to_vec(), b"world".to_vec()),
        (b"quuuuuux".to_vec(), b"world".to_vec()),
    ];
    put_all(&mut tombstone_manager.kv_backend, &kvs);
    let move_values = to_move_values(&tombstone_manager, &kvs);
    let (keys, dest_keys) = unzip(&move_values);
    let moved_keys = tombstone_manager
        .move_values(keys.clone(), dest_keys.clone())
        .unwrap();
    assert_eq!(kvs.len(), moved_keys);
    check_moved_values(&tombstone_manager.kv_backend, &move_values);
    // Moves again
    let moved_keys = tombstone_manager
        .move_values(keys.clone(), dest_keys.clone())
        .unwrap();
    assert_eq!(0, moved_keys);
    check_moved_values(&tombstone_manager.kv_backend, &move_values);
}

#[test]
fn test_move_values_with_non_exists_values() {
    let mut tombstone_manager = TombstoneManager::new(MemoryKvBackend::new());
    let kvs = vec![
        (b"bar".to_vec(), b"baz".to_vec()),
        (b"foo".to_vec(), b"hi".to_vec()),
        (b"baz".to_vec(), b"hello".to_vec()),
    ];
    put_all(&mut tombstone_manager.kv_backend, &kvs);
    let move_values = to_move_values(&tombstone_manager, &kvs);
    let (mut keys, mut dest_keys) = unzip(&move_values);
    keys.push(b"non-exists".to_vec());
    dest_keys.push(b"hi/non-exists".to_vec());
    let moved_keys = tombstone_manager
        .move_values(keys.clone(), dest_keys.clone())
        .unwrap();
    check_moved_values(&tombstone_manager.kv_backend, &move_values);
    assert_eq!(3, moved_keys);
    // Moves again
    let moved_keys = tombstone_manager
        .move_values(keys.clone(), dest_keys.clone())
        .unwrap();
    check_moved_values(&tombstone_manager.kv_backend, &move_values);
    assert_eq!(0, moved_keys);
}

#[test]
fn test_move_values_changed() {
    let mut tombstone_manager = TombstoneManager::new(MemoryKvBackend::new());
    let kvs = vec![
        (b"bar".to_vec(), b"baz".to_vec()),
        (b"foo".to_vec(), b"hi".to_vec()),
        (b"baz".to_vec(), b"hello".to_vec()),
    ];
    put_all(&mut tombstone_manager.kv_backend, &kvs);

    tombstone_manager
        .kv_backend
        .put(b"baz".to_vec(), b"changed".to_vec());

    let move_values = to_move_values(&tombstone_manager, &kvs);
    let (keys, dest_keys) = unzip(&move_values);
    let moved_keys = tombstone_manager.move_values(keys, dest_keys).unwrap();
    assert_eq!(kvs.len(), moved_keys);
}

#[test]
fn test_move_values_overwrite_dest_values() {
    let mut tombstone_manager = TombstoneManager::new(MemoryKvBackend::new());
    let kvs = vec![
        (b"bar".to_vec(), b"baz".to_vec()),
        (b"foo".to_vec(), b"hi".to_vec()),
        (b"baz".to_vec(), b"hello".to_vec()),
    ];
    put_all(&mut tombstone_manager.kv_backend, &kvs);

    // Prepares
    let move_values = to_move_values(&tombstone_manager, &kvs);
    let (keys, dest_keys) = unzip(&move_values);
    tombstone_manager.move_values(keys, dest_keys).unwrap();
    check_moved_values(&tombstone_manager.kv_backend, &move_values);

    // Overwrites existing dest keys.
    let kvs = vec![
        (b"bar".to_vec(), b"new baz".to_vec()),
        (b"foo".to_vec(), b"new hi".to_vec()),
        (b"baz".to_vec(), b"new baz".to_vec()),
    ];
    put_all(&mut tombstone_manager.kv_backend, &kvs);
    let move_values = to_move_values(&tombstone_manager, &kvs);
    let (keys, dest_keys) = unzip(&move_values);
    tombstone_manager.move_values(keys, dest_keys).unwrap();
    check_moved_values(&tombstone_manager.kv_backend, &move_values);
}

#[test]
fn test_move_values_with_different_lengths() {
    let mut tombstone_manager = TombstoneManager::new(MemoryKvBackend::new());

    let keys = vec![b"bar".to_vec(), b"foo".to_vec()];
    let dest_keys = vec![b"bar".to_vec(), b"foo".to_vec(), b"baz".to_vec()];

    let err = tombstone_manager
        .move_values(keys, dest_keys)
        .unwrap_err();
    assert!(err
        .to_string()
        .contains("The length of keys(2) does not match the length of dest_keys(3)."),);
    assert!(matches!(
        err,
        Error::InvalidArgument {
            keys_len: 2,
            dest_keys_len: 3
        }
    ));

    let moved_keys = tombstone_manager.move_values(vec![], vec![]).unwrap();
    assert_eq!(0, moved_keys);
}
