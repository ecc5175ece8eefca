use tombstone::error::Error;
use tombstone::kv_backend::{BackendError, KvBackend};
use tombstone::manager::{TombstoneManager, MAX_RETRIES};
use tombstone::memory::MemoryKvBackend;
use tombstone::txn::{KeyValue, MergedTxn, TxnOpResponse, TxnResponse};

/// What another user of the store does between two calls of the manager.
#[derive(Clone)]
enum Meddle {
    Put(Vec<u8>, Vec<u8>),
    Delete(Vec<u8>),
}

/// A store in memory that another user writes to: before each transaction
/// the next scripted write is applied.
struct SharedBackend {
    inner: MemoryKvBackend,
    script: Vec<Meddle>,
    next: usize,
    calls: usize,
    txns: usize,
    ceiling: usize,
    largest_txn: usize,
}

impl SharedBackend {
    fn new(script: Vec<Meddle>) -> Self {
        SharedBackend {
            inner: MemoryKvBackend::new(),
            script,
            next: 0,
            calls: 0,
            txns: 0,
            ceiling: usize::MAX,
            largest_txn: 0,
        }
    }
}

impl KvBackend for SharedBackend {
    fn max_txn_ops(&self) -> usize {
        self.ceiling
    }

    fn batch_get(&mut self, keys: &Vec<Vec<u8>>) -> Result<Vec<KeyValue>, BackendError> {
        self.calls += 1;
        self.inner.batch_get(keys)
    }

    fn batch_delete(&mut self, keys: &Vec<Vec<u8>>) -> Result<(), BackendError> {
        self.calls += 1;
        self.inner.batch_delete(keys)
    }

    fn txn(&mut self, txn: &MergedTxn) -> Result<TxnResponse, BackendError> {
        self.calls += 1;
        self.txns += 1;
        if txn.units.len() > self.largest_txn {
            self.largest_txn = txn.units.len();
        }
        if self.next < self.script.len() {
            match self.script[self.next].clone() {
                Meddle::Put(key, value) => self.inner.put(key, value),
                Meddle::Delete(key) => {
                    self.inner.batch_delete(&vec![key]).unwrap();
                }
            }
            self.next += 1;
        }
        self.inner.txn(txn)
    }
}

/// A store whose every call fails.
struct BrokenBackend;

impl KvBackend for BrokenBackend {
    fn max_txn_ops(&self) -> usize {
        128
    }

    fn batch_get(&mut self, _keys: &Vec<Vec<u8>>) -> Result<Vec<KeyValue>, BackendError> {
        Err(BackendError { message: "read refused".to_string() })
    }

    fn batch_delete(&mut self, _keys: &Vec<Vec<u8>>) -> Result<(), BackendError> {
        Err(BackendError { message: "delete refused".to_string() })
    }

    fn txn(&mut self, _txn: &MergedTxn) -> Result<TxnResponse, BackendError> {
        Err(BackendError { message: "txn refused".to_string() })
    }
}

/// A store that reads well and refuses every transaction.
struct ReadOnlyBackend {
    inner: MemoryKvBackend,
}

impl KvBackend for ReadOnlyBackend {
    fn max_txn_ops(&self) -> usize {
        128
    }

    fn batch_get(&mut self, keys: &Vec<Vec<u8>>) -> Result<Vec<KeyValue>, BackendError> {
        self.inner.batch_get(keys)
    }

    fn batch_delete(&mut self, keys: &Vec<Vec<u8>>) -> Result<(), BackendError> {
        self.inner.batch_delete(keys)
    }

    fn txn(&mut self, _txn: &MergedTxn) -> Result<TxnResponse, BackendError> {
        Err(BackendError { message: "txn refused".to_string() })
    }
}

/// A store that answers every transaction with an empty, failed response.
struct MuteBackend {
    inner: MemoryKvBackend,
    txns: usize,
}

impl KvBackend for MuteBackend {
    fn max_txn_ops(&self) -> usize {
        128
    }

    fn batch_get(&mut self, keys: &Vec<Vec<u8>>) -> Result<Vec<KeyValue>, BackendError> {
        self.inner.batch_get(keys)
    }

    fn batch_delete(&mut self, keys: &Vec<Vec<u8>>) -> Result<(), BackendError> {
        self.inner.batch_delete(keys)
    }

    fn txn(&mut self, _txn: &MergedTxn) -> Result<TxnResponse, BackendError> {
        self.txns += 1;
        let responses: Vec<TxnOpResponse> = Vec::new();
        Ok(TxnResponse { succeeded: false, responses })
    }
}

#[test]
fn empty_move_issues_no_backend_call() {
    let mut manager = TombstoneManager::new(SharedBackend::new(vec![]));
    assert_eq!(manager.move_values(vec![], vec![]).unwrap(), 0);
    assert_eq!(manager.kv_backend.calls, 0);
    assert_eq!(manager.create(vec![]).unwrap(), 0);
    assert_eq!(manager.restore(vec![]).unwrap(), 0);
    assert_eq!(manager.kv_backend.calls, 0);
}

#[test]
fn mismatched_lengths_issue_no_backend_call() {
    let mut manager = TombstoneManager::new(SharedBackend::new(vec![]));
    let err = manager
        .move_values(vec![b"a".to_vec()], vec![])
        .unwrap_err();
    assert!(matches!(err, Error::InvalidArgument { keys_len: 1, dest_keys_len: 0 }));
    assert_eq!(manager.kv_backend.calls, 0);
}

#[test]
fn value_changed_after_the_pre_read_is_moved_in_the_next_round() {
    let script = vec![Meddle::Put(b"a".to_vec(), b"new".to_vec())];
    let mut manager = TombstoneManager::new(SharedBackend::new(script));
    manager.kv_backend.inner.put(b"a".to_vec(), b"old".to_vec());
    manager.kv_backend.inner.put(b"b".to_vec(), b"bee".to_vec());
    let moved = manager
        .move_values(
            vec![b"a".to_vec(), b"b".to_vec()],
            vec![b"x/a".to_vec(), b"x/b".to_vec()],
        )
        .unwrap();
    assert_eq!(moved, 2);
    assert_eq!(manager.kv_backend.txns, 2);
    let store = &manager.kv_backend.inner;
    assert_eq!(store.get(&b"x/a".to_vec()).unwrap(), b"new");
    assert_eq!(store.get(&b"x/b".to_vec()).unwrap(), b"bee");
    assert!(!store.contains_key(&b"a".to_vec()));
    assert!(!store.contains_key(&b"b".to_vec()));
    assert_eq!(store.len(), 2);
}

#[test]
fn key_deleted_after_the_pre_read_is_dropped_and_not_counted() {
    let script = vec![Meddle::Delete(b"a".to_vec())];
    let mut manager = TombstoneManager::new(SharedBackend::new(script));
    manager.kv_backend.inner.put(b"a".to_vec(), b"old".to_vec());
    manager.kv_backend.inner.put(b"b".to_vec(), b"bee".to_vec());
    let moved = manager
        .move_values(
            vec![b"a".to_vec(), b"b".to_vec()],
            vec![b"x/a".to_vec(), b"x/b".to_vec()],
        )
        .unwrap();
    assert_eq!(moved, 1);
    // The one failed round settled both keys: no second round was needed.
    assert_eq!(manager.kv_backend.txns, 1);
    let store = &manager.kv_backend.inner;
    assert!(!store.contains_key(&b"x/a".to_vec()));
    assert_eq!(store.get(&b"x/b".to_vec()).unwrap(), b"bee");
    assert_eq!(store.len(), 1);
}

#[test]
fn key_that_keeps_changing_exhausts_the_rounds() {
    let mut script = Vec::new();
    for round in 0..MAX_RETRIES {
        script.push(Meddle::Put(b"a".to_vec(), format!("v{round}").into_bytes()));
    }
    let mut manager = TombstoneManager::new(SharedBackend::new(script));
    manager.kv_backend.inner.put(b"a".to_vec(), b"old".to_vec());
    manager.kv_backend.inner.put(b"b".to_vec(), b"bee".to_vec());
    let err = manager
        .move_values(
            vec![b"a".to_vec(), b"b".to_vec()],
            vec![b"x/a".to_vec(), b"x/b".to_vec()],
        )
        .unwrap_err();
    match &err {
        Error::ConvergenceExhausted { keys } => assert_eq!(keys, &vec![b"a".to_vec()]),
        other => panic!("unexpected error: {other:?}"),
    }
    assert_eq!(err.to_string(), "Failed to move values: keys: [a]");
    assert_eq!(manager.kv_backend.txns, MAX_RETRIES);
    assert_eq!(MAX_RETRIES, 8);
    // The key that held still was moved in the first round.
    let store = &manager.kv_backend.inner;
    assert_eq!(store.get(&b"x/b".to_vec()).unwrap(), b"bee");
    assert_eq!(store.get(&b"a".to_vec()).unwrap(), b"v7");
    assert!(!store.contains_key(&b"x/a".to_vec()));
}

#[test]
fn key_that_changes_seven_times_is_moved_in_the_last_round() {
    let mut script = Vec::new();
    for round in 0..MAX_RETRIES - 1 {
        script.push(Meddle::Put(b"a".to_vec(), format!("v{round}").into_bytes()));
    }
    let mut manager = TombstoneManager::new(SharedBackend::new(script));
    manager.kv_backend.inner.put(b"a".to_vec(), b"old".to_vec());
    let moved = manager
        .move_values(vec![b"a".to_vec()], vec![b"x/a".to_vec()])
        .unwrap();
    assert_eq!(moved, 1);
    assert_eq!(manager.kv_backend.txns, 8);
    assert_eq!(
        manager.kv_backend.inner.get(&b"x/a".to_vec()).unwrap(),
        b"v6"
    );
}

#[test]
fn smaller_budget_of_rounds_gives_up_sooner() {
    let script = vec![
        Meddle::Put(b"a".to_vec(), b"v0".to_vec()),
        Meddle::Put(b"a".to_vec(), b"v1".to_vec()),
        Meddle::Put(b"a".to_vec(), b"v2".to_vec()),
    ];
    let mut manager = TombstoneManager::new(SharedBackend::new(script.clone()));
    manager.set_max_retries(3);
    manager.kv_backend.inner.put(b"a".to_vec(), b"old".to_vec());
    let err = manager
        .move_values(vec![b"a".to_vec()], vec![b"x/a".to_vec()])
        .unwrap_err();
    assert!(matches!(err, Error::ConvergenceExhausted { .. }));
    assert_eq!(manager.kv_backend.txns, 3);

    let mut manager = TombstoneManager::new(SharedBackend::new(script));
    manager.set_max_retries(4);
    manager.kv_backend.inner.put(b"a".to_vec(), b"old".to_vec());
    let moved = manager
        .move_values(vec![b"a".to_vec()], vec![b"x/a".to_vec()])
        .unwrap();
    assert_eq!(moved, 1);
    assert_eq!(manager.kv_backend.txns, 4);

    let mut manager = TombstoneManager::new(SharedBackend::new(vec![]));
    manager.set_max_retries(0);
    manager.kv_backend.inner.put(b"a".to_vec(), b"old".to_vec());
    let err = manager
        .move_values(vec![b"a".to_vec(), b"b".to_vec()], vec![b"x/a".to_vec(), b"x/b".to_vec()])
        .unwrap_err();
    assert!(matches!(err, Error::ConvergenceExhausted { .. }));
    assert_eq!(manager.kv_backend.txns, 0);
}

#[test]
fn keys_absent_at_the_pre_read_cost_no_transaction() {
    let mut manager = TombstoneManager::new(SharedBackend::new(vec![]));
    let moved = manager
        .move_values(vec![b"a".to_vec()], vec![b"x/a".to_vec()])
        .unwrap();
    assert_eq!(moved, 0);
    assert_eq!(manager.kv_backend.calls, 1);
    assert_eq!(manager.kv_backend.txns, 0);
}

#[test]
fn chunks_hold_half_the_ceiling() {
    let mut manager = TombstoneManager::new(SharedBackend::new(vec![]));
    manager.kv_backend.ceiling = 6;
    let mut keys = Vec::new();
    let mut dest_keys = Vec::new();
    for i in 0..7u8 {
        manager.kv_backend.inner.put(vec![b'k', i], vec![i]);
        keys.push(vec![b'k', i]);
        dest_keys.push(vec![b'd', i]);
    }
    assert_eq!(manager.max_txn_ops(), 6);
    assert_eq!(manager.move_values(keys, dest_keys).unwrap(), 7);
    // Chunks of three pairs: 3 + 3 + 1.
    assert_eq!(manager.kv_backend.largest_txn, 3);
    assert_eq!(manager.kv_backend.txns, 3);
    assert_eq!(manager.kv_backend.calls, 6);
}

#[test]
fn ceiling_that_was_set_goes_before_the_one_of_the_store() {
    let mut manager = TombstoneManager::new(SharedBackend::new(vec![]));
    manager.kv_backend.ceiling = 100;
    assert_eq!(manager.max_txn_ops(), 100);
    manager.set_max_txn_ops(2);
    assert_eq!(manager.max_txn_ops(), 2);
    let mut keys = Vec::new();
    let mut dest_keys = Vec::new();
    for i in 0..3u8 {
        manager.kv_backend.inner.put(vec![b'k', i], vec![i]);
        keys.push(vec![b'k', i]);
        dest_keys.push(vec![b'd', i]);
    }
    assert_eq!(manager.move_values(keys, dest_keys).unwrap(), 3);
    assert_eq!(manager.kv_backend.largest_txn, 1);
    assert_eq!(manager.kv_backend.txns, 3);
}

#[test]
fn ceiling_under_two_still_moves_one_pair_at_a_time() {
    for ceiling in [0usize, 1] {
        let mut manager = TombstoneManager::new(SharedBackend::new(vec![]));
        manager.set_max_txn_ops(ceiling);
        manager.kv_backend.inner.put(b"a".to_vec(), b"1".to_vec());
        manager.kv_backend.inner.put(b"b".to_vec(), b"2".to_vec());
        let moved = manager
            .move_values(
                vec![b"a".to_vec(), b"b".to_vec()],
                vec![b"x/a".to_vec(), b"x/b".to_vec()],
            )
            .unwrap();
        assert_eq!(moved, 2);
        assert_eq!(manager.kv_backend.largest_txn, 1);
    }
}

#[test]
fn failed_read_is_passed_on() {
    let mut manager = TombstoneManager::new(BrokenBackend);
    let err = manager.create(vec![b"a".to_vec()]).unwrap_err();
    match &err {
        Error::BackendFailure(e) => assert_eq!(e.message, "read refused"),
        other => panic!("unexpected error: {other:?}"),
    }
    assert_eq!(err.to_string(), "read refused");
}

#[test]
fn failed_transaction_is_passed_on() {
    let mut inner = MemoryKvBackend::new();
    inner.put(b"a".to_vec(), b"1".to_vec());
    let mut manager = TombstoneManager::new(ReadOnlyBackend { inner });
    let err = manager.create(vec![b"a".to_vec()]).unwrap_err();
    match &err {
        Error::BackendFailure(e) => assert_eq!(e.message, "txn refused"),
        other => panic!("unexpected error: {other:?}"),
    }
    assert_eq!(manager.kv_backend.inner.get(&b"a".to_vec()).unwrap(), b"1");
}

#[test]
fn failed_delete_is_passed_on() {
    let mut manager = TombstoneManager::new(BrokenBackend);
    let err = manager.delete(vec![b"a".to_vec()]).unwrap_err();
    match &err {
        Error::BackendFailure(e) => assert_eq!(e.message, "delete refused"),
        other => panic!("unexpected error: {other:?}"),
    }
}

#[test]
fn response_without_a_read_counts_the_keys_as_moved() {
    let mut inner = MemoryKvBackend::new();
    inner.put(b"a".to_vec(), b"1".to_vec());
    inner.put(b"b".to_vec(), b"2".to_vec());
    let mut manager = TombstoneManager::new(MuteBackend { inner, txns: 0 });
    let moved = manager
        .move_values(
            vec![b"a".to_vec(), b"b".to_vec()],
            vec![b"x/a".to_vec(), b"x/b".to_vec()],
        )
        .unwrap();
    assert_eq!(moved, 2);
    assert_eq!(manager.kv_backend.txns, 1);
}
