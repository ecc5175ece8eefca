//! The working set of a move: the items that are still to be resolved.
//!
//! An item pairs a source key with its destination and with the value that
//! the source is expected to hold. A round turns every item into one
//! conditional unit; what comes back either settles the item or refreshes
//! its expected value for the next round.

use vstd::prelude::*;
use crate::bytes::{clone_bytes, keys_view};
use crate::extract::{extract, extract_outcomes, Outcome, OutcomeView};
use crate::kv_backend::{find_entry, find_value};
use crate::txn::{
    Compare, CompareSpec, KeyValue, KeyValueView, MergedTxn, Store, Txn, TxnOp, TxnOpResponse,
    TxnOpView, TxnView,
};

verus! {

/// A source key, its destination, and the value last seen at the source.
#[derive(Debug)]
pub struct MoveItem {
    pub key: Vec<u8>,
    pub dest_key: Vec<u8>,
    pub value: Vec<u8>,
}

pub struct MoveItemView {
    pub key: Seq<u8>,
    pub dest_key: Seq<u8>,
    pub value: Seq<u8>,
}

impl View for MoveItem {
    type V = MoveItemView;

    open spec fn view(&self) -> MoveItemView {
        MoveItemView { key: self.key@, dest_key: self.dest_key@, value: self.value@ }
    }
}

/// The mathematical value of a working set.
pub open spec fn items_view(items: Seq<MoveItem>) -> Seq<MoveItemView> {
    Seq::new(items.len(), |i: int| items[i]@)
}

/// The source keys of a working set, in order.
pub open spec fn item_keys(items: Seq<MoveItemView>) -> Seq<Seq<u8>> {
    Seq::new(items.len(), |i: int| items[i].key)
}

/// The destination keys of a working set, in order.
pub open spec fn item_dests(items: Seq<MoveItemView>) -> Seq<Seq<u8>> {
    Seq::new(items.len(), |i: int| items[i].dest_key)
}

/// The unit that moves one value: if `key` still holds `value`, write it to
/// `dest_key` and remove `key`; otherwise read `key`.
pub open spec fn move_txn(key: Seq<u8>, value: Seq<u8>, dest_key: Seq<u8>) -> TxnView {
    TxnView {
        compare: seq![CompareSpec { key: key, value: value }],
        success: seq![TxnOpView::Put(dest_key, value), TxnOpView::Delete(key)],
        failure: seq![TxnOpView::Get(key)],
    }
}

/// The units of a round, one for each item.
pub open spec fn round_txns(items: Seq<MoveItemView>) -> Seq<TxnView> {
    Seq::new(items.len(), |i: int| move_txn(items[i].key, items[i].value, items[i].dest_key))
}

/// The working set that a pre-read gives: one item for each key that the
/// read found, in the order of `keys`, with the value that it found. Keys
/// beyond the length of `dest_keys` are left out.
pub open spec fn initial_items(
    keys: Seq<Seq<u8>>,
    dest_keys: Seq<Seq<u8>>,
    kvs: Seq<KeyValueView>,
) -> Seq<MoveItemView>
    decreases keys.len(),
{
    if keys.len() == 0 || dest_keys.len() == 0 {
        seq![]
    } else {
        let rest = initial_items(keys.drop_first(), dest_keys.drop_first(), kvs);
        match find_value(kvs, keys[0]) {
            Some(v) => seq![MoveItemView { key: keys[0], dest_key: dest_keys[0], value: v }] + rest,
            None => rest,
        }
    }
}

/// The working set that a pre-read of `store` gives: one item for each pair
/// whose source exists, with the value found there.
pub open spec fn present_items(store: Store, keys: Seq<Seq<u8>>, dest_keys: Seq<Seq<u8>>) -> Seq<
    MoveItemView,
>
    decreases keys.len(),
{
    if keys.len() == 0 || dest_keys.len() == 0 {
        seq![]
    } else {
        let rest = present_items(store, keys.drop_first(), dest_keys.drop_first());
        if store.contains_key(keys[0]) {
            seq![MoveItemView { key: keys[0], dest_key: dest_keys[0], value: store[keys[0]] }]
                + rest
        } else {
            rest
        }
    }
}

/// The items that a round leaves unresolved: those whose source was seen
/// with another value, now expected to hold that value.
pub open spec fn pending_after(items: Seq<MoveItemView>, outcomes: Seq<OutcomeView>) -> Seq<
    MoveItemView,
>
    recommends
        items.len() == outcomes.len(),
    decreases items.len(),
{
    if items.len() == 0 || outcomes.len() == 0 {
        seq![]
    } else {
        let rest = pending_after(items.drop_first(), outcomes.drop_first());
        match outcomes[0] {
            OutcomeView::Refreshed(v) => seq![MoveItemView { value: v, ..items[0] }] + rest,
            _ => rest,
        }
    }
}

/// The number of keys that a round moved.
pub open spec fn moved_in(outcomes: Seq<OutcomeView>) -> nat
    decreases outcomes.len(),
{
    if outcomes.len() == 0 {
        0
    } else {
        (if outcomes[0] is Moved {
            1nat
        } else {
            0nat
        }) + moved_in(outcomes.drop_first())
    }
}

/// Every item of a pre-read stands for one of the pairs that were asked
/// for, with the value that the read found at its source.
pub proof fn lemma_initial_items(
    keys: Seq<Seq<u8>>,
    dest_keys: Seq<Seq<u8>>,
    kvs: Seq<KeyValueView>,
    m: int,
) -> (i: int)
    requires
        keys.len() == dest_keys.len(),
        0 <= m < initial_items(keys, dest_keys, kvs).len(),
    ensures
        0 <= i < keys.len(),
        initial_items(keys, dest_keys, kvs)[m].key == keys[i],
        initial_items(keys, dest_keys, kvs)[m].dest_key == dest_keys[i],
        find_value(kvs, keys[i]) == Some(initial_items(keys, dest_keys, kvs)[m].value),
    decreases keys.len(),
{
    let rest = initial_items(keys.drop_first(), dest_keys.drop_first(), kvs);
    match find_value(kvs, keys[0]) {
        Some(v) => {
            if m == 0 {
                0
            } else {
                lemma_initial_items(keys.drop_first(), dest_keys.drop_first(), kvs, m - 1) + 1
            }
        },
        None => lemma_initial_items(keys.drop_first(), dest_keys.drop_first(), kvs, m) + 1,
    }
}

/// Every key of `part` is one of `whole`.
pub open spec fn among(part: Seq<Seq<u8>>, whole: Seq<Seq<u8>>) -> bool {
    forall|i: int| 0 <= i < part.len() ==> whole.contains(#[trigger] part[i])
}

/// The sources of the items of a pre-read are among the keys that were read.
pub proof fn lemma_items_among(
    keys: Seq<Seq<u8>>,
    dest_keys: Seq<Seq<u8>>,
    kvs: Seq<KeyValueView>,
)
    requires
        keys.len() == dest_keys.len(),
    ensures
        among(item_keys(initial_items(keys, dest_keys, kvs)), keys),
{
    let items = initial_items(keys, dest_keys, kvs);
    assert forall|m: int| 0 <= m < item_keys(items).len() implies keys.contains(
        #[trigger] item_keys(items)[m],
    ) by {
        let i = lemma_initial_items(keys, dest_keys, kvs, m);
        assert(keys[i] == item_keys(items)[m]);
    }
}

/// The sources of the items that a round leaves unresolved are among the
/// sources that went into it.
pub proof fn lemma_pending_among(
    items: Seq<MoveItemView>,
    outcomes: Seq<OutcomeView>,
    whole: Seq<Seq<u8>>,
)
    requires
        among(item_keys(items), whole),
    ensures
        among(item_keys(pending_after(items, outcomes)), whole),
    decreases items.len(),
{
    let pending = pending_after(items, outcomes);
    if items.len() > 0 && outcomes.len() > 0 {
        let rest = pending_after(items.drop_first(), outcomes.drop_first());
        assert(among(item_keys(items.drop_first()), whole)) by {
            assert forall|i: int| 0 <= i < item_keys(items.drop_first()).len() implies whole.contains(
                #[trigger] item_keys(items.drop_first())[i],
            ) by {
                assert(item_keys(items)[i + 1] == item_keys(items.drop_first())[i]);
            }
        }
        lemma_pending_among(items.drop_first(), outcomes.drop_first(), whole);
        assert forall|i: int| 0 <= i < item_keys(pending).len() implies whole.contains(
            #[trigger] item_keys(pending)[i],
        ) by {
            if outcomes[0] is Refreshed {
                if i == 0 {
                    assert(item_keys(pending)[0] == item_keys(items)[0]);
                } else {
                    assert(item_keys(pending)[i] == item_keys(rest)[i - 1]);
                }
            } else {
                assert(item_keys(pending)[i] == item_keys(rest)[i]);
            }
        }
    }
}

/// A pre-read that returned what it owed gives the working set of the pairs
/// whose source exists.
pub proof fn lemma_items_are_present(
    store: Store,
    keys: Seq<Seq<u8>>,
    dest_keys: Seq<Seq<u8>>,
    kvs: Seq<KeyValueView>,
)
    requires
        forall|i: int|
            0 <= i < keys.len() ==> find_value(kvs, #[trigger] keys[i]) == if store.contains_key(
                keys[i],
            ) {
                Some(store[keys[i]])
            } else {
                None
            },
    ensures
        initial_items(keys, dest_keys, kvs) == present_items(store, keys, dest_keys),
    decreases keys.len(),
{
    if keys.len() > 0 && dest_keys.len() > 0 {
        assert forall|i: int| 0 <= i < keys.drop_first().len() implies find_value(
            kvs,
            #[trigger] keys.drop_first()[i],
        ) == if store.contains_key(keys.drop_first()[i]) {
            Some(store[keys.drop_first()[i]])
        } else {
            None
        } by {
            assert(keys.drop_first()[i] == keys[i + 1]);
        }
        lemma_items_are_present(store, keys.drop_first(), dest_keys.drop_first(), kvs);
    }
}

/// Every item of a working set of present pairs stands for one of the pairs,
/// with the value that the store holds at its source.
pub proof fn lemma_present_items(
    store: Store,
    keys: Seq<Seq<u8>>,
    dest_keys: Seq<Seq<u8>>,
    m: int,
) -> (i: int)
    requires
        keys.len() == dest_keys.len(),
        0 <= m < present_items(store, keys, dest_keys).len(),
    ensures
        0 <= i < keys.len(),
        present_items(store, keys, dest_keys)[m].key == keys[i],
        present_items(store, keys, dest_keys)[m].dest_key == dest_keys[i],
        store.contains_key(keys[i]),
        present_items(store, keys, dest_keys)[m].value == store[keys[i]],
    decreases keys.len(),
{
    if store.contains_key(keys[0]) {
        if m == 0 {
            0
        } else {
            lemma_present_items(store, keys.drop_first(), dest_keys.drop_first(), m - 1) + 1
        }
    } else {
        lemma_present_items(store, keys.drop_first(), dest_keys.drop_first(), m) + 1
    }
}

/// A pre-read gives no more items than keys were read.
pub proof fn lemma_items_bound(keys: Seq<Seq<u8>>, dest_keys: Seq<Seq<u8>>, kvs: Seq<KeyValueView>)
    ensures
        initial_items(keys, dest_keys, kvs).len() <= keys.len(),
    decreases keys.len(),
{
    if keys.len() > 0 && dest_keys.len() > 0 {
        lemma_items_bound(keys.drop_first(), dest_keys.drop_first(), kvs);
    }
}

/// The extractor answers for every key.
pub proof fn lemma_extract_len(responses: Seq<crate::txn::TxnOpResponseView>, keys: Seq<Seq<u8>>)
    ensures
        extract(responses, keys).len() == keys.len(),
    decreases keys.len(),
{
    if keys.len() > 0 {
        lemma_extract_len(responses.drop_first(), keys.drop_first());
        lemma_extract_len(crate::extract::after_success(responses), keys.drop_first());
    }
}

/// Builds the working set of a chunk from what its pre-read returned.
pub fn pre_read_items(keys: &Vec<Vec<u8>>, dest_keys: &Vec<Vec<u8>>, kvs: &Vec<KeyValue>) -> (items:
    Vec<MoveItem>)
    ensures
        items_view(items@) == initial_items(
            keys_view(keys@),
            keys_view(dest_keys@),
            crate::txn::kvs_view(kvs@),
        ),
        items@.len() <= keys@.len(),
{
    let ghost all_keys = keys_view(keys@);
    let ghost all_dests = keys_view(dest_keys@);
    let ghost found = crate::txn::kvs_view(kvs@);
    let mut items: Vec<MoveItem> = Vec::new();
    let mut i: usize = 0;
    assert(all_keys.skip(0) =~= all_keys);
    assert(all_dests.skip(0) =~= all_dests);
    assert(items_view(items@) =~= seq![]);
    while i < keys.len() && i < dest_keys.len()
        invariant
            all_keys == keys_view(keys@),
            all_dests == keys_view(dest_keys@),
            found == crate::txn::kvs_view(kvs@),
            0 <= i <= keys@.len(),
            0 <= i <= dest_keys@.len(),
            items@.len() <= i,
            initial_items(all_keys, all_dests, found) == items_view(items@) + initial_items(
                all_keys.skip(i as int),
                all_dests.skip(i as int),
                found,
            ),
        decreases keys@.len() - i,
    {
        let ghost before = items_view(items@);
        assert(all_keys.skip(i as int).len() > 0 && all_dests.skip(i as int).len() > 0);
        assert(all_keys.skip(i as int)[0] == keys@[i as int]@);
        assert(all_dests.skip(i as int)[0] == dest_keys@[i as int]@);
        assert(all_keys.skip(i as int).drop_first() =~= all_keys.skip(i + 1));
        assert(all_dests.skip(i as int).drop_first() =~= all_dests.skip(i + 1));
        match find_entry(kvs, &keys[i]) {
            Some(at) => {
                let item = MoveItem {
                    key: clone_bytes(&keys[i]),
                    dest_key: clone_bytes(&dest_keys[i]),
                    value: clone_bytes(&kvs[at].value),
                };
                items.push(item);
                assert(items_view(items@) =~= before + seq![items@[items@.len() - 1]@]);
            },
            None => {},
        }
        i += 1;
    }
    assert(all_keys.skip(i as int).len() == 0 || all_dests.skip(i as int).len() == 0);
    assert(items_view(items@) + Seq::<MoveItemView>::empty() =~= items_view(items@));
    items
}

/// Builds the unit that moves the value of `src_key` to `dest_key` if
/// `src_key` still holds `value`, and reads `src_key` otherwise.
pub fn move_value_txn(src_key: Vec<u8>, value: Vec<u8>, dest_key: Vec<u8>) -> (txn: Txn)
    ensures
        txn@ == move_txn(src_key@, value@, dest_key@),
{
    let mut compares: Vec<Compare> = Vec::new();
    compares.push(Compare::with_value(clone_bytes(&src_key), clone_bytes(&value)));
    let mut success: Vec<TxnOp> = Vec::new();
    success.push(TxnOp::Put(dest_key, value));
    success.push(TxnOp::Delete(clone_bytes(&src_key)));
    let mut failure: Vec<TxnOp> = Vec::new();
    failure.push(TxnOp::Get(src_key));
    let txn = Txn::new().when(compares).and_then(success).or_else(failure);
    assert(txn@.compare =~= move_txn(src_key@, value@, dest_key@).compare);
    assert(txn@.success =~= move_txn(src_key@, value@, dest_key@).success);
    assert(txn@.failure =~= move_txn(src_key@, value@, dest_key@).failure);
    txn
}

/// Builds the merged transaction of a round: one unit for each item, in
/// order.
pub fn round_txn(items: &Vec<MoveItem>) -> (merged: MergedTxn)
    ensures
        merged@ == round_txns(items_view(items@)),
{
    let mut txns: Vec<Txn> = Vec::with_capacity(items.len());
    let mut i: usize = 0;
    while i < items.len()
        invariant
            0 <= i <= items@.len(),
            txns@.len() == i,
            forall|j: int|
                0 <= j < i ==> (#[trigger] txns@[j])@ == move_txn(
                    items@[j].key@,
                    items@[j].value@,
                    items@[j].dest_key@,
                ),
        decreases items@.len() - i,
    {
        let item = &items[i];
        let txn = move_value_txn(
            clone_bytes(&item.key),
            clone_bytes(&item.value),
            clone_bytes(&item.dest_key),
        );
        txns.push(txn);
        i += 1;
    }
    let merged = Txn::merge_all(txns);
    assert(merged@ =~= round_txns(items_view(items@)));
    merged
}

/// The source keys of a working set.
pub fn source_keys(items: &Vec<MoveItem>) -> (keys: Vec<Vec<u8>>)
    ensures
        keys_view(keys@) == item_keys(items_view(items@)),
{
    let mut keys: Vec<Vec<u8>> = Vec::with_capacity(items.len());
    let mut i: usize = 0;
    while i < items.len()
        invariant
            0 <= i <= items@.len(),
            keys@.len() == i,
            forall|j: int| 0 <= j < i ==> (#[trigger] keys@[j])@ == items@[j].key@,
        decreases items@.len() - i,
    {
        keys.push(clone_bytes(&items[i].key));
        i += 1;
    }
    assert(keys_view(keys@) =~= item_keys(items_view(items@)));
    keys
}

/// Settles a round that did not succeed as a whole: reads the outcome of
/// every item out of the responses, and returns the items that are still
/// unresolved, with their refreshed values, and the number of items that
/// the round moved.
pub fn settle(items: &Vec<MoveItem>, responses: &Vec<TxnOpResponse>) -> (settled: (
    Vec<MoveItem>,
    usize,
))
    ensures
        ({
            let outcomes = extract(
                crate::txn::responses_view(responses@),
                item_keys(items_view(items@)),
            );
            &&& items_view(settled.0@) == pending_after(items_view(items@), outcomes)
            &&& settled.1 == moved_in(outcomes)
            &&& settled.0@.len() + settled.1 <= items@.len()
        }),
{
    let keys = source_keys(items);
    let outcomes = extract_outcomes(responses, &keys);
    let ghost all_items = items_view(items@);
    let ghost all_outcomes = crate::extract::outcomes_view(outcomes@);
    proof {
        lemma_extract_len(crate::txn::responses_view(responses@), item_keys(all_items));
    }
    let mut pending: Vec<MoveItem> = Vec::new();
    let mut moved: usize = 0;
    let mut i: usize = 0;
    assert(all_items.skip(0) =~= all_items);
    assert(all_outcomes.skip(0) =~= all_outcomes);
    assert(items_view(pending@) =~= seq![]);
    while i < items.len()
        invariant
            all_items == items_view(items@),
            all_outcomes == crate::extract::outcomes_view(outcomes@),
            outcomes@.len() == items@.len(),
            0 <= i <= items@.len(),
            pending@.len() + moved <= i,
            pending_after(all_items, all_outcomes) == items_view(pending@) + pending_after(
                all_items.skip(i as int),
                all_outcomes.skip(i as int),
            ),
            moved_in(all_outcomes) == moved + moved_in(all_outcomes.skip(i as int)),
        decreases items@.len() - i,
    {
        let ghost before = items_view(pending@);
        assert(all_items.skip(i as int)[0] == items@[i as int]@);
        assert(all_outcomes.skip(i as int)[0] == outcomes@[i as int]@);
        assert(all_items.skip(i as int).drop_first() =~= all_items.skip(i + 1));
        assert(all_outcomes.skip(i as int).drop_first() =~= all_outcomes.skip(i + 1));
        match &outcomes[i] {
            Outcome::Moved => {
                moved += 1;
            },
            Outcome::Refreshed(value) => {
                let item = MoveItem {
                    key: clone_bytes(&items[i].key),
                    dest_key: clone_bytes(&items[i].dest_key),
                    value: clone_bytes(value),
                };
                pending.push(item);
                assert(items_view(pending@) =~= before + seq![pending@[pending@.len() - 1]@]);
            },
            Outcome::Absent => {},
        }
        i += 1;
    }
    assert(items_view(pending@) + Seq::<MoveItemView>::empty() =~= items_view(pending@));
    (pending, moved)
}

} // verus!
