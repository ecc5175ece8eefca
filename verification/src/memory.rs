//! A store that lives in memory.
//!
//! [`MemoryKvBackend`] keeps its entries in a list, no key twice, and applies
//! a merged transaction unit by unit, as the model of [`crate::txn`] says. It
//! has no other user and cannot fail.

use vstd::prelude::*;
use crate::bytes::{bytes_eq, clone_bytes, keys_view};
use crate::kv_backend::{
    batch_get_result, find_entry, find_value, txn_response, BackendError, KvBackend,
};
use crate::txn::{
    all_hold, compare_holds, kvs_view, merged_responses, merged_store, merged_succeeded,
    op_response, op_store, ops_responses, ops_store, read_key, responses_view, Compare, KeyValue,
    KeyValueView, MergedTxn, Store, TxnOp, TxnOpResponse, TxnOpResponseView, TxnResponse,
};

verus! {

/// The keys of a list of entries, in order.
pub open spec fn entry_keys(entries: Seq<KeyValueView>) -> Seq<Seq<u8>> {
    Seq::new(entries.len(), |i: int| entries[i].key)
}

/// The store that a list of entries stands for.
pub open spec fn entries_store(entries: Seq<KeyValueView>) -> Store {
    Map::new(
        |k: Seq<u8>| find_value(entries, k) is Some,
        |k: Seq<u8>| find_value(entries, k)->Some_0,
    )
}

/// A list gives a value for a key exactly when one of its entries has the
/// key.
pub proof fn lemma_find_value_some(kvs: Seq<KeyValueView>, key: Seq<u8>)
    ensures
        find_value(kvs, key) is Some <==> exists|i: int| 0 <= i < kvs.len() && kvs[i].key == key,
    decreases kvs.len(),
{
    if kvs.len() > 0 {
        lemma_find_value_some(kvs.drop_first(), key);
        if kvs[0].key != key {
            if find_value(kvs, key) is Some {
                let i = choose|i: int|
                    0 <= i < kvs.drop_first().len() && kvs.drop_first()[i].key == key;
                assert(kvs[i + 1].key == key);
            }
            if exists|i: int| 0 <= i < kvs.len() && kvs[i].key == key {
                let i = choose|i: int| 0 <= i < kvs.len() && kvs[i].key == key;
                assert(kvs.drop_first()[i - 1].key == key);
            }
        }
    }
}

/// An entry added at the end gives its value to its key unless the list had
/// one for it.
pub proof fn lemma_find_value_push(kvs: Seq<KeyValueView>, kv: KeyValueView, key: Seq<u8>)
    ensures
        find_value(kvs.push(kv), key) == match find_value(kvs, key) {
            Some(v) => Some(v),
            None => if kv.key == key {
                Some(kv.value)
            } else {
                None
            },
        },
    decreases kvs.len(),
{
    reveal_with_fuel(find_value, 2);
    if kvs.len() == 0 {
        assert(kvs.push(kv).drop_first() =~= kvs);
    } else {
        assert(kvs.push(kv).drop_first() =~= kvs.drop_first().push(kv));
        lemma_find_value_push(kvs.drop_first(), kv, key);
    }
}

/// Replacing the first entry of a key changes the value of that key only.
pub proof fn lemma_find_value_update(
    kvs: Seq<KeyValueView>,
    i: int,
    kv: KeyValueView,
    key: Seq<u8>,
)
    requires
        0 <= i < kvs.len(),
        kvs[i].key == kv.key,
        forall|j: int| 0 <= j < i ==> kvs[j].key != kv.key,
    ensures
        find_value(kvs.update(i, kv), key) == if key == kv.key {
            Some(kv.value)
        } else {
            find_value(kvs, key)
        },
    decreases kvs.len(),
{
    if i == 0 {
        assert(kvs.update(i, kv).drop_first() =~= kvs.drop_first());
    } else {
        assert(kvs.update(i, kv).drop_first() =~= kvs.drop_first().update(i - 1, kv));
        assert(kvs[0].key != kv.key);
        assert forall|j: int| 0 <= j < i - 1 implies kvs.drop_first()[j].key != kv.key by {
            assert(kvs[j + 1].key != kv.key);
        }
        lemma_find_value_update(kvs.drop_first(), i - 1, kv, key);
    }
}

/// Taking an entry out of a list that holds no key twice takes the key out
/// and changes nothing else.
pub proof fn lemma_find_value_remove(kvs: Seq<KeyValueView>, i: int, key: Seq<u8>)
    requires
        0 <= i < kvs.len(),
        entry_keys(kvs).no_duplicates(),
    ensures
        find_value(kvs.remove(i), key) == if key == kvs[i].key {
            None
        } else {
            find_value(kvs, key)
        },
        entry_keys(kvs.remove(i)).no_duplicates(),
    decreases kvs.len(),
{
    let keys = entry_keys(kvs);
    assert(entry_keys(kvs.remove(i)).no_duplicates()) by {
        let after = entry_keys(kvs.remove(i));
        assert forall|a: int, b: int| 0 <= a < after.len() && 0 <= b < after.len() && a != b implies after[a]
            != after[b] by {
            let a0 = if a < i {
                a
            } else {
                a + 1
            };
            let b0 = if b < i {
                b
            } else {
                b + 1
            };
            assert(keys[a0] != keys[b0]);
        }
    }
    if i == 0 {
        assert(kvs.remove(0) =~= kvs.drop_first());
        if key == kvs[0].key {
            lemma_find_value_some(kvs.drop_first(), key);
            if find_value(kvs.drop_first(), key) is Some {
                let j = choose|j: int|
                    0 <= j < kvs.drop_first().len() && kvs.drop_first()[j].key == key;
                assert(keys[0] == keys[j + 1]);
            }
        }
    } else {
        assert(kvs.remove(i).drop_first() =~= kvs.drop_first().remove(i - 1));
        assert(entry_keys(kvs.drop_first()).no_duplicates()) by {
            let rest = entry_keys(kvs.drop_first());
            assert forall|a: int, b: int| 0 <= a < rest.len() && 0 <= b < rest.len() && a != b implies rest[a]
                != rest[b] by {
                assert(keys[a + 1] != keys[b + 1]);
            }
        }
        lemma_find_value_remove(kvs.drop_first(), i - 1, key);
        assert(keys[0] != keys[i]);
    }
}

/// Looks up the value of a key.
fn get_entry<'a>(entries: &'a Vec<KeyValue>, key: &Vec<u8>) -> (value: Option<&'a Vec<u8>>)
    ensures
        match value {
            Some(v) => entries_store(kvs_view(entries@)).contains_key(key@) && entries_store(
                kvs_view(entries@),
            )[key@] == v@,
            None => !entries_store(kvs_view(entries@)).contains_key(key@),
        },
{
    match find_entry(entries, key) {
        Some(i) => Some(&entries[i].value),
        None => None,
    }
}

/// Writes a value at a key.
fn put_entry(entries: &mut Vec<KeyValue>, key: Vec<u8>, value: Vec<u8>)
    requires
        entry_keys(kvs_view(old(entries)@)).no_duplicates(),
    ensures
        entry_keys(kvs_view(final(entries)@)).no_duplicates(),
        entries_store(kvs_view(final(entries)@)) == entries_store(kvs_view(old(entries)@)).insert(
            key@,
            value@,
        ),
{
    let ghost before = kvs_view(entries@);
    let ghost kv = KeyValueView { key: key@, value: value@ };
    match find_entry(entries, &key) {
        Some(i) => {
            entries.set(i, KeyValue { key, value });
            proof {
                let after = kvs_view(entries@);
                assert(after =~= before.update(i as int, kv));
                assert(entry_keys(after) =~= entry_keys(before));
                assert forall|k: Seq<u8>| #[trigger]
                    find_value(after, k) == if k == kv.key {
                        Some(kv.value)
                    } else {
                        find_value(before, k)
                    } by {
                    lemma_find_value_update(before, i as int, kv, k);
                }
                assert(entries_store(after) =~= entries_store(before).insert(kv.key, kv.value));
            }
        },
        None => {
            entries.push(KeyValue { key, value });
            proof {
                let after = kvs_view(entries@);
                assert(after =~= before.push(kv));
                assert(entry_keys(after) =~= entry_keys(before).push(kv.key));
                assert forall|k: Seq<u8>| #[trigger]
                    find_value(after, k) == match find_value(before, k) {
                        Some(v) => Some(v),
                        None => if kv.key == k {
                            Some(kv.value)
                        } else {
                            None
                        },
                    } by {
                    lemma_find_value_push(before, kv, k);
                }
                assert(entries_store(after) =~= entries_store(before).insert(kv.key, kv.value));
            }
        },
    }
}

/// Removes a key.
fn delete_entry(entries: &mut Vec<KeyValue>, key: &Vec<u8>)
    requires
        entry_keys(kvs_view(old(entries)@)).no_duplicates(),
    ensures
        entry_keys(kvs_view(final(entries)@)).no_duplicates(),
        entries_store(kvs_view(final(entries)@)) == entries_store(kvs_view(old(entries)@)).remove(
            key@,
        ),
{
    let ghost before = kvs_view(entries@);
    match find_entry(entries, key) {
        Some(i) => {
            let _ = entries.remove(i);
            proof {
                let after = kvs_view(entries@);
                assert(after =~= before.remove(i as int));
                assert forall|k: Seq<u8>| #[trigger]
                    find_value(after, k) == if k == key@ {
                        None
                    } else {
                        find_value(before, k)
                    } by {
                    lemma_find_value_remove(before, i as int, k);
                }
                lemma_find_value_remove(before, i as int, key@);
                assert(entries_store(after) =~= entries_store(before).remove(key@));
            }
        },
        None => {
            assert(entries_store(before) =~= entries_store(before).remove(key@));
        },
    }
}

/// Tells whether every predicate of a list holds.
fn check_compares(entries: &Vec<KeyValue>, compares: &Vec<Compare>) -> (holds: bool)
    ensures
        holds == all_hold(
            entries_store(kvs_view(entries@)),
            crate::txn::compares_view(compares@),
        ),
{
    let ghost store = entries_store(kvs_view(entries@));
    let ghost all = crate::txn::compares_view(compares@);
    let mut i: usize = 0;
    while i < compares.len()
        invariant
            0 <= i <= compares@.len(),
            store == entries_store(kvs_view(entries@)),
            all == crate::txn::compares_view(compares@),
            forall|j: int| 0 <= j < i ==> compare_holds(store, #[trigger] all[j]),
        decreases compares@.len() - i,
    {
        let holds = match get_entry(entries, &compares[i].key) {
            Some(v) => bytes_eq(v, &compares[i].value),
            None => false,
        };
        assert(all[i as int] == compares@[i as int]@);
        if !holds {
            assert(!compare_holds(store, all[i as int]));
            return false;
        }
        i += 1;
    }
    true
}

/// Runs the operations of a branch, in order, and appends their responses.
fn apply_ops(entries: &mut Vec<KeyValue>, ops: &Vec<TxnOp>, responses: &mut Vec<TxnOpResponse>)
    requires
        entry_keys(kvs_view(old(entries)@)).no_duplicates(),
    ensures
        entry_keys(kvs_view(final(entries)@)).no_duplicates(),
        entries_store(kvs_view(final(entries)@)) == ops_store(
            entries_store(kvs_view(old(entries)@)),
            crate::txn::ops_view(ops@),
        ),
        responses_view(final(responses)@) == responses_view(old(responses)@) + ops_responses(
            entries_store(kvs_view(old(entries)@)),
            crate::txn::ops_view(ops@),
        ),
{
    let ghost start = entries_store(kvs_view(entries@));
    let ghost had = responses_view(responses@);
    let ghost all = crate::txn::ops_view(ops@);
    let mut i: usize = 0;
    assert(all.skip(0) =~= all);
    assert(had + Seq::<TxnOpResponseView>::empty() =~= had);
    while i < ops.len()
        invariant
            0 <= i <= ops@.len(),
            all == crate::txn::ops_view(ops@),
            entry_keys(kvs_view(entries@)).no_duplicates(),
            ops_store(start, all) == ops_store(
                entries_store(kvs_view(entries@)),
                all.skip(i as int),
            ),
            had + ops_responses(start, all) == responses_view(responses@) + ops_responses(
                entries_store(kvs_view(entries@)),
                all.skip(i as int),
            ),
        decreases ops@.len() - i,
    {
        let ghost store = entries_store(kvs_view(entries@));
        let ghost so_far = responses_view(responses@);
        let ghost rest = all.skip(i as int);
        assert(rest[0] == ops@[i as int]@);
        assert(rest.drop_first() =~= all.skip(i + 1));
        let response = match &ops[i] {
            TxnOp::Put(key, value) => {
                put_entry(entries, clone_bytes(key), clone_bytes(value));
                TxnOpResponse::ResponsePut
            },
            TxnOp::Get(key) => {
                let mut kvs: Vec<KeyValue> = Vec::new();
                match get_entry(entries, key) {
                    Some(v) => {
                        kvs.push(KeyValue { key: clone_bytes(key), value: clone_bytes(v) });
                    },
                    None => {},
                }
                assert(kvs_view(kvs@) =~= read_key(store, key@));
                TxnOpResponse::ResponseGet(kvs)
            },
            TxnOp::Delete(key) => {
                delete_entry(entries, key);
                TxnOpResponse::ResponseDelete
            },
        };
        assert(response@ == op_response(store, rest[0]));
        responses.push(response);
        proof {
            let now = responses_view(responses@);
            assert(now =~= so_far + seq![op_response(store, rest[0])]);
            assert(so_far + ops_responses(store, rest) =~= now + ops_responses(
                op_store(store, rest[0]),
                rest.drop_first(),
            ));
        }
        i += 1;
    }
    assert(responses_view(responses@) + Seq::<TxnOpResponseView>::empty() =~= responses_view(
        responses@,
    ));
}

/// Applies a merged transaction: every unit in turn, by its own predicates.
fn apply_txn(entries: &mut Vec<KeyValue>, txn: &MergedTxn) -> (response: TxnResponse)
    requires
        entry_keys(kvs_view(old(entries)@)).no_duplicates(),
    ensures
        entry_keys(kvs_view(final(entries)@)).no_duplicates(),
        entries_store(kvs_view(final(entries)@)) == merged_store(
            entries_store(kvs_view(old(entries)@)),
            txn@,
        ),
        response@ == txn_response(entries_store(kvs_view(old(entries)@)), txn@),
{
    let ghost start = entries_store(kvs_view(entries@));
    let ghost units = txn@;
    let mut responses: Vec<TxnOpResponse> = Vec::new();
    let mut succeeded: bool = true;
    let mut i: usize = 0;
    assert(units.skip(0) =~= units);
    assert(responses_view(responses@) =~= Seq::<TxnOpResponseView>::empty());
    assert(Seq::<TxnOpResponseView>::empty() + merged_responses(start, units)
        =~= merged_responses(start, units));
    while i < txn.units.len()
        invariant
            0 <= i <= txn.units@.len(),
            units == txn@,
            entry_keys(kvs_view(entries@)).no_duplicates(),
            merged_store(start, units) == merged_store(
                entries_store(kvs_view(entries@)),
                units.skip(i as int),
            ),
            merged_responses(start, units) == responses_view(responses@) + merged_responses(
                entries_store(kvs_view(entries@)),
                units.skip(i as int),
            ),
            merged_succeeded(start, units) == (succeeded && merged_succeeded(
                entries_store(kvs_view(entries@)),
                units.skip(i as int),
            )),
        decreases txn.units@.len() - i,
    {
        let ghost store = entries_store(kvs_view(entries@));
        let ghost so_far = responses_view(responses@);
        let ghost rest = units.skip(i as int);
        let unit = &txn.units[i];
        assert(rest[0] == unit@);
        assert(rest.drop_first() =~= units.skip(i + 1));
        if check_compares(entries, &unit.compare) {
            apply_ops(entries, &unit.success, &mut responses);
        } else {
            succeeded = false;
            apply_ops(entries, &unit.failure, &mut responses);
        }
        proof {
            assert(so_far + merged_responses(store, rest) =~= responses_view(responses@)
                + merged_responses(rest[0].store_after(store), rest.drop_first()));
        }
        i += 1;
    }
    assert(responses_view(responses@) + Seq::<TxnOpResponseView>::empty() =~= responses_view(
        responses@,
    ));
    TxnResponse { succeeded, responses }
}

/// Reads the keys that exist among `keys`, in the order asked.
fn read_entries(entries: &Vec<KeyValue>, keys: &Vec<Vec<u8>>) -> (kvs: Vec<KeyValue>)
    ensures
        batch_get_result(entries_store(kvs_view(entries@)), keys_view(keys@), kvs_view(kvs@)),
{
    let ghost store = entries_store(kvs_view(entries@));
    let ghost asked = keys_view(keys@);
    let mut kvs: Vec<KeyValue> = Vec::new();
    let mut i: usize = 0;
    assert(kvs_view(kvs@) =~= Seq::<KeyValueView>::empty());
    while i < keys.len()
        invariant
            0 <= i <= keys@.len(),
            store == entries_store(kvs_view(entries@)),
            asked == keys_view(keys@),
            forall|key: Seq<u8>|
                #[trigger] find_value(kvs_view(kvs@), key) == if asked.take(i as int).contains(key)
                    && store.contains_key(key) {
                    Some(store[key])
                } else {
                    None
                },
        decreases keys@.len() - i,
    {
        let ghost so_far = kvs_view(kvs@);
        let ghost this = asked[i as int];
        assert(this == keys@[i as int]@);
        assert forall|key: Seq<u8>|
            asked.take(i + 1).contains(key) <==> (asked.take(i as int).contains(key) || key
                == this) by {
            crate::bytes::lemma_take_contains(asked, i as int, key);
        }
        match get_entry(entries, &keys[i]) {
            Some(v) => {
                kvs.push(KeyValue { key: clone_bytes(&keys[i]), value: clone_bytes(v) });
                proof {
                    let kv = KeyValueView { key: this, value: store[this] };
                    assert(kvs_view(kvs@) =~= so_far.push(kv));
                    assert forall|key: Seq<u8>|
                        #[trigger] find_value(kvs_view(kvs@), key) == if asked.take(
                            i + 1,
                        ).contains(key) && store.contains_key(key) {
                            Some(store[key])
                        } else {
                            None
                        } by {
                        lemma_find_value_push(so_far, kv, key);
                    }
                }
            },
            None => {},
        }
        i += 1;
    }
    assert(asked.take(i as int) =~= asked);
    kvs
}

/// Removes every key of `keys`.
fn delete_entries(entries: &mut Vec<KeyValue>, keys: &Vec<Vec<u8>>)
    requires
        entry_keys(kvs_view(old(entries)@)).no_duplicates(),
    ensures
        entry_keys(kvs_view(final(entries)@)).no_duplicates(),
        entries_store(kvs_view(final(entries)@)) == entries_store(
            kvs_view(old(entries)@),
        ).remove_keys(keys_view(keys@).to_set()),
{
    let ghost start = entries_store(kvs_view(entries@));
    let ghost asked = keys_view(keys@);
    let mut i: usize = 0;
    assert(start.remove_keys(asked.take(0).to_set()) =~= start);
    while i < keys.len()
        invariant
            0 <= i <= keys@.len(),
            asked == keys_view(keys@),
            entry_keys(kvs_view(entries@)).no_duplicates(),
            entries_store(kvs_view(entries@)) == start.remove_keys(asked.take(i as int).to_set()),
        decreases keys@.len() - i,
    {
        let ghost this = asked[i as int];
        assert(this == keys@[i as int]@);
        delete_entry(entries, &keys[i]);
        proof {
            assert(asked.take(i + 1) =~= asked.take(i as int).push(this));
            assert(asked.take(i + 1).to_set() =~= asked.take(i as int).to_set().insert(this)) by {
                assert forall|key: Seq<u8>|
                    asked.take(i + 1).to_set().contains(key) <==> asked.take(
                        i as int,
                    ).to_set().insert(this).contains(key) by {
                    crate::bytes::lemma_take_contains(asked, i as int, key);
                }
            }
            assert(entries_store(kvs_view(entries@)) =~= start.remove_keys(
                asked.take(i + 1).to_set(),
            ));
        }
        i += 1;
    }
    assert(asked.take(i as int) =~= asked);
}

/// A store in memory, for one user.
pub struct MemoryKvBackend {
    entries: Vec<KeyValue>,
}

impl MemoryKvBackend {
    #[verifier::type_invariant]
    spec fn no_key_twice(&self) -> bool {
        entry_keys(kvs_view(self.entries@)).no_duplicates()
    }

    /// The contents of the store.
    pub closed spec fn contents(&self) -> Store {
        entries_store(kvs_view(self.entries@))
    }

    /// Returns an empty store.
    pub fn new() -> (backend: Self)
        ensures
            backend.contents() == Map::<Seq<u8>, Seq<u8>>::empty(),
    {
        let backend = MemoryKvBackend { entries: Vec::new() };
        assert(kvs_view(backend.entries@) =~= Seq::<KeyValueView>::empty());
        assert(backend.contents() =~= Map::<Seq<u8>, Seq<u8>>::empty());
        backend
    }

    /// Writes `value` at `key`, replacing what was there.
    pub fn put(&mut self, key: Vec<u8>, value: Vec<u8>)
        ensures
            final(self).contents() == old(self).contents().insert(key@, value@),
    {
        proof {
            use_type_invariant(&*self);
        }
        let mut entries: Vec<KeyValue> = Vec::new();
        std::mem::swap(&mut entries, &mut self.entries);
        put_entry(&mut entries, key, value);
        self.entries = entries;
    }

    /// Returns the value at `key`, if the key exists.
    pub fn get(&self, key: &Vec<u8>) -> (value: Option<Vec<u8>>)
        ensures
            match value {
                Some(v) => self.contents().contains_key(key@) && self.contents()[key@] == v@,
                None => !self.contents().contains_key(key@),
            },
    {
        match get_entry(&self.entries, key) {
            Some(v) => Some(clone_bytes(v)),
            None => None,
        }
    }

    /// Tells whether `key` exists.
    pub fn contains_key(&self, key: &Vec<u8>) -> (found: bool)
        ensures
            found == self.contents().contains_key(key@),
    {
        get_entry(&self.entries, key).is_some()
    }

    /// Returns the number of keys that exist.
    pub fn len(&self) -> (n: usize)
        ensures
            self.contents().dom().finite(),
            n == self.contents().dom().len(),
    {
        proof {
            use_type_invariant(self);
            let kvs = kvs_view(self.entries@);
            let keys = entry_keys(kvs);
            assert(self.contents().dom() =~= keys.to_set()) by {
                assert forall|k: Seq<u8>| self.contents().dom().contains(k) <==> keys.to_set().contains(
                    k,
                ) by {
                    lemma_find_value_some(kvs, k);
                    if keys.contains(k) {
                        let i = choose|i: int| 0 <= i < keys.len() && keys[i] == k;
                        assert(kvs[i].key == k);
                    }
                    if exists|i: int| 0 <= i < kvs.len() && kvs[i].key == k {
                        let i = choose|i: int| 0 <= i < kvs.len() && kvs[i].key == k;
                        assert(keys[i] == k);
                    }
                }
            }
            keys.unique_seq_to_set();
            vstd::seq_lib::seq_to_set_is_finite(keys);
        }
        self.entries.len()
    }

    /// Tells whether the store holds no key.
    pub fn is_empty(&self) -> (empty: bool)
        ensures
            empty == (self.contents() == Map::<Seq<u8>, Seq<u8>>::empty()),
    {
        proof {
            let kvs = kvs_view(self.entries@);
            if kvs.len() > 0 {
                assert(self.contents().contains_key(kvs[0].key));
            } else {
                assert(self.contents() =~= Map::<Seq<u8>, Seq<u8>>::empty());
            }
        }
        self.entries.len() == 0
    }

    /// Returns every entry of the store.
    pub fn dump(&self) -> (kvs: Vec<KeyValue>)
        ensures
            entries_store(kvs_view(kvs@)) == self.contents(),
            entry_keys(kvs_view(kvs@)).no_duplicates(),
    {
        proof {
            use_type_invariant(self);
        }
        let mut kvs: Vec<KeyValue> = Vec::with_capacity(self.entries.len());
        let mut i: usize = 0;
        while i < self.entries.len()
            invariant
                0 <= i <= self.entries@.len(),
                kvs@.len() == i,
                forall|j: int| 0 <= j < i ==> (#[trigger] kvs@[j])@ == self.entries@[j]@,
            decreases self.entries@.len() - i,
        {
            let entry = &self.entries[i];
            kvs.push(KeyValue { key: clone_bytes(&entry.key), value: clone_bytes(&entry.value) });
            i += 1;
        }
        assert(kvs_view(kvs@) =~= kvs_view(self.entries@));
        kvs
    }
}

impl KvBackend for MemoryKvBackend {
    open spec fn view(&self) -> Store {
        self.contents()
    }

    open spec fn exclusive(&self) -> bool {
        true
    }

    open spec fn max_ops(&self) -> usize {
        usize::MAX
    }

    fn max_txn_ops(&self) -> (n: usize) {
        usize::MAX
    }

    fn batch_get(&mut self, keys: &Vec<Vec<u8>>) -> (r: Result<Vec<KeyValue>, BackendError>) {
        Ok(read_entries(&self.entries, keys))
    }

    fn batch_delete(&mut self, keys: &Vec<Vec<u8>>) -> (r: Result<(), BackendError>) {
        proof {
            use_type_invariant(&*self);
        }
        let mut entries: Vec<KeyValue> = Vec::new();
        std::mem::swap(&mut entries, &mut self.entries);
        delete_entries(&mut entries, keys);
        self.entries = entries;
        Ok(())
    }

    fn txn(&mut self, txn: &MergedTxn) -> (r: Result<TxnResponse, BackendError>) {
        proof {
            use_type_invariant(&*self);
        }
        let mut entries: Vec<KeyValue> = Vec::new();
        std::mem::swap(&mut entries, &mut self.entries);
        let response = apply_txn(&mut entries, txn);
        self.entries = entries;
        Ok(response)
    }
}

} // verus!
