//! What a round of moves does to a store, and what a move is.
//!
//! The first half follows one merged round through the transaction model
//! and shows that the extractor reads out of the responses exactly what
//! happened. The second half defines the plain meaning of moving
//! values, pair by pair, and shows that a round on a store that nobody else
//! touches does just that.

use vstd::prelude::*;
use crate::extract::{extract, OutcomeView};
use crate::txn::{
    all_hold, merged_responses, merged_store, merged_succeeded, ops_responses, ops_store, read_key,
    Store, TxnOpResponseView,
};
use crate::working_set::{
    item_dests, item_keys, lemma_present_items, move_txn, moved_in, pending_after, present_items,
    round_txns, MoveItemView,
};

verus! {

/// Whether the source of an item holds the value that the item expects.
pub open spec fn unit_holds(store: Store, item: MoveItemView) -> bool {
    store.contains_key(item.key) && store[item.key] == item.value
}

/// The store after the unit of one item.
pub open spec fn unit_store(store: Store, item: MoveItemView) -> Store {
    if unit_holds(store, item) {
        store.insert(item.dest_key, item.value).remove(item.key)
    } else {
        store
    }
}

/// What becomes of one item when its unit runs on a store.
pub open spec fn unit_outcome(store: Store, item: MoveItemView) -> OutcomeView {
    if unit_holds(store, item) {
        OutcomeView::Moved
    } else if store.contains_key(item.key) {
        OutcomeView::Refreshed(store[item.key])
    } else {
        OutcomeView::Absent
    }
}

/// The store after a round.
pub open spec fn round_store(store: Store, items: Seq<MoveItemView>) -> Store
    decreases items.len(),
{
    if items.len() == 0 {
        store
    } else {
        round_store(unit_store(store, items[0]), items.drop_first())
    }
}

/// What becomes of every item in a round.
pub open spec fn round_outcomes(store: Store, items: Seq<MoveItemView>) -> Seq<OutcomeView>
    decreases items.len(),
{
    if items.len() == 0 {
        seq![]
    } else {
        seq![unit_outcome(store, items[0])] + round_outcomes(
            unit_store(store, items[0]),
            items.drop_first(),
        )
    }
}

/// Whether a round moves every item.
pub open spec fn round_succeeds(store: Store, items: Seq<MoveItemView>) -> bool
    decreases items.len(),
{
    if items.len() == 0 {
        true
    } else {
        unit_holds(store, items[0]) && round_succeeds(
            unit_store(store, items[0]),
            items.drop_first(),
        )
    }
}

/// The responses of the unit of one item.
pub open spec fn unit_responses(store: Store, item: MoveItemView) -> Seq<TxnOpResponseView> {
    if unit_holds(store, item) {
        seq![TxnOpResponseView::ResponsePut, TxnOpResponseView::ResponseDelete]
    } else {
        seq![TxnOpResponseView::ResponseGet(read_key(store, item.key))]
    }
}

/// The unit of an item moves the value when the source holds what the item
/// expects, and reads the source otherwise.
pub proof fn lemma_move_txn(store: Store, item: MoveItemView)
    ensures
        all_hold(store, move_txn(item.key, item.value, item.dest_key).compare) == unit_holds(
            store,
            item,
        ),
        move_txn(item.key, item.value, item.dest_key).store_after(store) == unit_store(
            store,
            item,
        ),
        move_txn(item.key, item.value, item.dest_key).responses(store) == unit_responses(
            store,
            item,
        ),
{
    let t = move_txn(item.key, item.value, item.dest_key);
    assert(t.compare[0].key == item.key && t.compare[0].value == item.value);
    reveal_with_fuel(ops_store, 3);
    reveal_with_fuel(ops_responses, 3);
    if unit_holds(store, item) {
        assert(t.success.drop_first() =~= seq![t.success[1]]);
        assert(t.success.drop_first().drop_first() =~= seq![]);
        assert(t.responses(store) =~= unit_responses(store, item));
    } else {
        assert(t.failure.drop_first() =~= seq![]);
        assert(t.responses(store) =~= unit_responses(store, item));
    }
}

/// A merged round applies the units of its items one after the other, and the
/// extractor recovers from its responses what became of every item.
pub proof fn lemma_round(store: Store, items: Seq<MoveItemView>)
    ensures
        merged_store(store, round_txns(items)) == round_store(store, items),
        merged_succeeded(store, round_txns(items)) == round_succeeds(store, items),
        extract(merged_responses(store, round_txns(items)), item_keys(items)) == round_outcomes(
            store,
            items,
        ),
    decreases items.len(),
{
    let units = round_txns(items);
    let keys = item_keys(items);
    if items.len() > 0 {
        let item = items[0];
        let next = unit_store(store, item);
        lemma_move_txn(store, item);
        lemma_round(next, items.drop_first());
        assert(units.drop_first() =~= round_txns(items.drop_first()));
        assert(keys.drop_first() =~= item_keys(items.drop_first()));
        assert(units[0] == move_txn(item.key, item.value, item.dest_key));
        let head = unit_responses(store, item);
        let tail = merged_responses(next, units.drop_first());
        let all = merged_responses(store, units);
        assert(all == head + tail);
        if unit_holds(store, item) {
            assert(crate::extract::after_success(all) =~= tail);
        } else {
            assert(all.drop_first() =~= tail);
            let kvs = read_key(store, item.key);
            assert(all[0] == TxnOpResponseView::ResponseGet(kvs));
            reveal_with_fuel(crate::kv_backend::find_value, 2);
            if store.contains_key(item.key) {
                assert(kvs.drop_first() =~= seq![]);
            }
        }
    }
}

/// The store after the value at `key`, if there is one, has gone to
/// `dest_key`.
pub open spec fn move_one(store: Store, key: Seq<u8>, dest_key: Seq<u8>) -> Store {
    if store.contains_key(key) {
        store.insert(dest_key, store[key]).remove(key)
    } else {
        store
    }
}

/// The store after every pair has been moved, in order.
pub open spec fn move_all(store: Store, keys: Seq<Seq<u8>>, dest_keys: Seq<Seq<u8>>) -> Store
    recommends
        keys.len() == dest_keys.len(),
    decreases keys.len(),
{
    if keys.len() == 0 || dest_keys.len() == 0 {
        store
    } else {
        move_all(
            move_one(store, keys[0], dest_keys[0]),
            keys.drop_first(),
            dest_keys.drop_first(),
        )
    }
}

/// The number of pairs whose source exists when its turn comes.
pub open spec fn moved_count(store: Store, keys: Seq<Seq<u8>>, dest_keys: Seq<Seq<u8>>) -> nat
    recommends
        keys.len() == dest_keys.len(),
    decreases keys.len(),
{
    if keys.len() == 0 || dest_keys.len() == 0 {
        0
    } else {
        (if store.contains_key(keys[0]) {
            1nat
        } else {
            0nat
        }) + moved_count(
            move_one(store, keys[0], dest_keys[0]),
            keys.drop_first(),
            dest_keys.drop_first(),
        )
    }
}

/// No destination is also a source.
pub open spec fn independent(keys: Seq<Seq<u8>>, dest_keys: Seq<Seq<u8>>) -> bool {
    forall|i: int, j: int|
        0 <= i < dest_keys.len() && 0 <= j < keys.len() ==> #[trigger] dest_keys[i]
            != #[trigger] keys[j]
}

/// Independence read the other way round: no source is a destination.
pub proof fn lemma_independent_swapped(keys: Seq<Seq<u8>>, dest_keys: Seq<Seq<u8>>)
    requires
        independent(keys, dest_keys),
    ensures
        independent(dest_keys, keys),
{
    assert forall|i: int, j: int|
        0 <= i < keys.len() && 0 <= j < dest_keys.len() implies #[trigger] keys[i]
        != #[trigger] dest_keys[j] by {
        assert(dest_keys[j] != keys[i]);
    }
}

/// Every item whose source exists expects the value that is there.
pub open spec fn settled(store: Store, items: Seq<MoveItemView>) -> bool {
    forall|i: int|
        0 <= i < items.len() && store.contains_key((#[trigger] items[i]).key) ==> store[items[i].key]
            == items[i].value
}

/// On a store that nobody else touches, one round whose items expect what
/// the store holds, and none of whose destinations is a source, moves every
/// pair and leaves nothing unresolved.
pub proof fn lemma_round_alone(store: Store, items: Seq<MoveItemView>)
    requires
        settled(store, items),
        independent(item_keys(items), item_dests(items)),
    ensures
        round_store(store, items) == move_all(store, item_keys(items), item_dests(items)),
        pending_after(items, round_outcomes(store, items)) == Seq::<MoveItemView>::empty(),
        moved_in(round_outcomes(store, items)) == moved_count(
            store,
            item_keys(items),
            item_dests(items),
        ),
        round_succeeds(store, items) ==> moved_count(store, item_keys(items), item_dests(items))
            == items.len(),
    decreases items.len(),
{
    let keys = item_keys(items);
    let dests = item_dests(items);
    if items.len() > 0 {
        let item = items[0];
        let rest = items.drop_first();
        let next = unit_store(store, item);
        assert(keys.drop_first() =~= item_keys(rest));
        assert(dests.drop_first() =~= item_dests(rest));
        assert(keys[0] == item.key && dests[0] == item.dest_key);
        assert(next == move_one(store, item.key, item.dest_key));
        assert(settled(next, rest)) by {
            assert forall|i: int|
                0 <= i < rest.len() && next.contains_key((#[trigger] rest[i]).key) implies next[rest[i].key]
                == rest[i].value by {
                assert(rest[i] == items[i + 1]);
                assert(dests[0] != keys[i + 1]);
            }
        }
        assert(independent(item_keys(rest), item_dests(rest))) by {
            assert forall|i: int, j: int|
                0 <= i < item_dests(rest).len() && 0 <= j < item_keys(rest).len() implies #[trigger] item_dests(
                rest,
            )[i] != #[trigger] item_keys(rest)[j] by {
                assert(dests[i + 1] != keys[j + 1]);
            }
        }
        lemma_round_alone(next, rest);
        let outcomes = round_outcomes(store, items);
        assert(outcomes.drop_first() =~= round_outcomes(next, rest));
        assert(!(outcomes[0] is Refreshed));
    }
}

/// A store agrees with an earlier state of itself on the keys of a list: a
/// key that did not exist then does not exist now, and a key that existed
/// then holds the value it held, if it still exists.
pub open spec fn agrees_with(store: Store, earlier: Store, keys: Seq<Seq<u8>>) -> bool {
    forall|i: int|
        0 <= i < keys.len() ==> if earlier.contains_key(#[trigger] keys[i]) {
            store.contains_key(keys[i]) ==> store[keys[i]] == earlier[keys[i]]
        } else {
            !store.contains_key(keys[i])
        }
}

/// Moving the pairs whose source existed at the pre-read moves every pair:
/// the pairs that are left out have nothing at their source.
pub proof fn lemma_pre_read(
    store: Store,
    earlier: Store,
    keys: Seq<Seq<u8>>,
    dest_keys: Seq<Seq<u8>>,
)
    requires
        keys.len() == dest_keys.len(),
        independent(keys, dest_keys),
        agrees_with(store, earlier, keys),
    ensures
        ({
            let items = present_items(earlier, keys, dest_keys);
            &&& settled(store, items)
            &&& independent(item_keys(items), item_dests(items))
            &&& move_all(store, item_keys(items), item_dests(items)) == move_all(
                store,
                keys,
                dest_keys,
            )
            &&& moved_count(store, item_keys(items), item_dests(items)) == moved_count(
                store,
                keys,
                dest_keys,
            )
        }),
    decreases keys.len(),
{
    let items = present_items(earlier, keys, dest_keys);
    assert(settled(store, items)) by {
        assert forall|m: int|
            0 <= m < items.len() && store.contains_key((#[trigger] items[m]).key) implies store[items[m].key]
            == items[m].value by {
            let i = lemma_present_items(earlier, keys, dest_keys, m);
            assert(earlier.contains_key(keys[i]));
        }
    }
    assert(independent(item_keys(items), item_dests(items))) by {
        assert forall|a: int, b: int|
            0 <= a < item_dests(items).len() && 0 <= b < item_keys(items).len() implies #[trigger] item_dests(
            items,
        )[a] != #[trigger] item_keys(items)[b] by {
            let i = lemma_present_items(earlier, keys, dest_keys, a);
            let j = lemma_present_items(earlier, keys, dest_keys, b);
            assert(dest_keys[i] != keys[j]);
        }
    }
    if keys.len() > 0 {
        let next = move_one(store, keys[0], dest_keys[0]);
        let rest_keys = keys.drop_first();
        let rest_dests = dest_keys.drop_first();
        let rest = present_items(earlier, rest_keys, rest_dests);
        assert(independent(rest_keys, rest_dests)) by {
            assert forall|i: int, j: int|
                0 <= i < rest_dests.len() && 0 <= j < rest_keys.len() implies #[trigger] rest_dests[i]
                != #[trigger] rest_keys[j] by {
                assert(dest_keys[i + 1] != keys[j + 1]);
            }
        }
        assert(agrees_with(next, earlier, rest_keys)) by {
            assert forall|i: int| 0 <= i < rest_keys.len() implies if earlier.contains_key(
                #[trigger] rest_keys[i],
            ) {
                next.contains_key(rest_keys[i]) ==> next[rest_keys[i]] == earlier[rest_keys[i]]
            } else {
                !next.contains_key(rest_keys[i])
            } by {
                assert(rest_keys[i] == keys[i + 1]);
                assert(dest_keys[0] != keys[i + 1]);
            }
        }
        lemma_pre_read(next, earlier, rest_keys, rest_dests);
        if earlier.contains_key(keys[0]) {
            let first = MoveItemView {
                key: keys[0],
                dest_key: dest_keys[0],
                value: earlier[keys[0]],
            };
            assert(items == seq![first] + rest);
            assert(item_keys(items).drop_first() =~= item_keys(rest));
            assert(item_dests(items).drop_first() =~= item_dests(rest));
            assert(item_keys(items)[0] == keys[0]);
            assert(item_dests(items)[0] == dest_keys[0]);
        } else {
            assert(next == store);
        }
    }
}

/// Moving one list of pairs after another is moving the two lists as one.
pub proof fn lemma_move_all_concat(
    store: Store,
    keys: Seq<Seq<u8>>,
    dest_keys: Seq<Seq<u8>>,
    more_keys: Seq<Seq<u8>>,
    more_dest_keys: Seq<Seq<u8>>,
)
    requires
        keys.len() == dest_keys.len(),
        more_keys.len() == more_dest_keys.len(),
    ensures
        move_all(store, keys + more_keys, dest_keys + more_dest_keys) == move_all(
            move_all(store, keys, dest_keys),
            more_keys,
            more_dest_keys,
        ),
        moved_count(store, keys + more_keys, dest_keys + more_dest_keys) == moved_count(
            store,
            keys,
            dest_keys,
        ) + moved_count(move_all(store, keys, dest_keys), more_keys, more_dest_keys),
    decreases keys.len(),
{
    if keys.len() == 0 {
        assert(keys + more_keys =~= more_keys);
        assert(dest_keys + more_dest_keys =~= more_dest_keys);
    } else {
        let next = move_one(store, keys[0], dest_keys[0]);
        assert((keys + more_keys).drop_first() =~= keys.drop_first() + more_keys);
        assert((dest_keys + more_dest_keys).drop_first() =~= dest_keys.drop_first()
            + more_dest_keys);
        lemma_move_all_concat(
            next,
            keys.drop_first(),
            dest_keys.drop_first(),
            more_keys,
            more_dest_keys,
        );
    }
}

} // verus!
