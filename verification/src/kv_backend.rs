//! The store behind the tombstone manager.
//!
//! [`KvBackend`] is the narrow interface through which the manager reaches a
//! transactional key-value store. A handle may be one of many users of the
//! store, and its calls may fail; what such a handle returns is then bound by
//! nothing. A handle that is [`KvBackend::exclusive`] is the store's only
//! user and cannot fail: its calls follow the model of [`crate::txn`] to the
//! letter.

use vstd::prelude::*;
use crate::bytes::{bytes_eq, keys_view};
use crate::txn::{KeyValue, KeyValueView, MergedTxn, Store, TxnResponse, TxnResponseView};

verus! {

/// A failure of the store or of the way to it.
#[derive(Debug)]
pub struct BackendError {
    pub message: String,
}

/// The value that a list of entries gives for a key: that of the first entry
/// with this key.
pub open spec fn find_value(kvs: Seq<KeyValueView>, key: Seq<u8>) -> Option<Seq<u8>>
    decreases kvs.len(),
{
    if kvs.len() == 0 {
        None
    } else if kvs[0].key == key {
        Some(kvs[0].value)
    } else {
        find_value(kvs.drop_first(), key)
    }
}

/// What a batch read of `keys` owes: for each key asked for that exists, its
/// value; nothing for any other key.
pub open spec fn batch_get_result(store: Store, keys: Seq<Seq<u8>>, kvs: Seq<KeyValueView>) -> bool {
    forall|key: Seq<u8>|
        #[trigger] find_value(kvs, key) == if keys.contains(key) && store.contains_key(key) {
            Some(store[key])
        } else {
            None
        }
}

/// The response that a store with contents `store` gives to a merged
/// transaction.
pub open spec fn txn_response(store: Store, units: Seq<crate::txn::TxnView>) -> TxnResponseView {
    TxnResponseView {
        succeeded: crate::txn::merged_succeeded(store, units),
        responses: crate::txn::merged_responses(store, units),
    }
}

/// A transactional key-value store.
pub trait KvBackend {
    /// The contents of the store when this handle last returned. It matters
    /// only for a handle that is [`Self::exclusive`].
    open spec fn view(&self) -> Store {
        Map::empty()
    }

    /// Whether this handle is the only user of the store and cannot fail.
    /// Unless an implementation says otherwise, it is not.
    open spec fn exclusive(&self) -> bool {
        false
    }

    /// The most operations that one transaction may hold. It matters only
    /// for a handle that is [`Self::exclusive`].
    open spec fn max_ops(&self) -> usize {
        0
    }

    /// Returns the most operations that one transaction may hold.
    fn max_txn_ops(&self) -> (n: usize)
        ensures
            self.exclusive() ==> n == self.max_ops(),
    ;

    /// Reads the keys that exist among `keys`.
    fn batch_get(&mut self, keys: &Vec<Vec<u8>>) -> (r: Result<Vec<KeyValue>, BackendError>)
        ensures
            old(self).exclusive() ==> {
                &&& final(self).exclusive()
                &&& final(self)@ == old(self)@
                &&& r is Ok
                &&& batch_get_result(old(self)@, keys_view(keys@), crate::txn::kvs_view(r->Ok_0@))
            },
    ;

    /// Removes `keys`; a key that does not exist is passed over.
    fn batch_delete(&mut self, keys: &Vec<Vec<u8>>) -> (r: Result<(), BackendError>)
        ensures
            old(self).exclusive() ==> {
                &&& final(self).exclusive()
                &&& final(self)@ == old(self)@.remove_keys(keys_view(keys@).to_set())
                &&& r is Ok
            },
    ;

    /// Applies a merged transaction atomically.
    fn txn(&mut self, txn: &MergedTxn) -> (r: Result<TxnResponse, BackendError>)
        ensures
            old(self).exclusive() ==> {
                &&& final(self).exclusive()
                &&& final(self)@ == crate::txn::merged_store(old(self)@, txn@)
                &&& r is Ok
                &&& r->Ok_0@ == txn_response(old(self)@, txn@)
            },
    ;
}

/// Finds the first entry with the given key.
pub fn find_entry(kvs: &Vec<KeyValue>, key: &Vec<u8>) -> (found: Option<usize>)
    ensures
        match found {
            Some(i) => {
                &&& i < kvs@.len()
                &&& kvs@[i as int].key@ == key@
                &&& forall|j: int| 0 <= j < i ==> kvs@[j].key@ != key@
                &&& find_value(crate::txn::kvs_view(kvs@), key@) == Some(kvs@[i as int].value@)
            },
            None => {
                &&& forall|j: int| 0 <= j < kvs@.len() ==> kvs@[j].key@ != key@
                &&& find_value(crate::txn::kvs_view(kvs@), key@) is None
            },
        },
{
    let ghost all = crate::txn::kvs_view(kvs@);
    let mut i: usize = 0;
    assert(all.skip(0) =~= all);
    while i < kvs.len()
        invariant
            0 <= i <= kvs@.len(),
            all == crate::txn::kvs_view(kvs@),
            forall|j: int| 0 <= j < i ==> kvs@[j].key@ != key@,
            find_value(all, key@) == find_value(all.skip(i as int), key@),
        decreases kvs@.len() - i,
    {
        assert(all.skip(i as int)[0] == kvs@[i as int]@);
        if bytes_eq(&kvs[i].key, key) {
            return Some(i);
        }
        assert(all.skip(i as int).drop_first() =~= all.skip(i + 1));
        i += 1;
    }
    None
}

} // verus!
