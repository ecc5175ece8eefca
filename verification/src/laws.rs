//! What holds of moves, tombstones and restores on a store that nobody else
//! touches.
//!
//! The manager's functions say what they do to such a store in terms of
//! [`move_all`] and [`moved_count`]; the laws below are stated over the same
//! functions.

use vstd::prelude::*;
use crate::manager::{tombstone_free, tombstone_key, tombstone_keys};
use crate::moves::{
    independent, lemma_independent_swapped, lemma_move_all_concat, move_all, move_one,
    moved_count,
};
use crate::run::{chunked_run, lemma_chunked_run_independent, Run};
use crate::txn::Store;

verus! {

/// Some pair whose source exists has `x` for its destination.
pub open spec fn arrives(
    store: Store,
    keys: Seq<Seq<u8>>,
    dest_keys: Seq<Seq<u8>>,
    x: Seq<u8>,
) -> bool {
    exists|i: int|
        0 <= i < keys.len() && i < dest_keys.len() && #[trigger] dest_keys[i] == x
            && store.contains_key(keys[i])
}

/// Two pairs have the same source exactly when they have the same
/// destination.
pub open spec fn paired(keys: Seq<Seq<u8>>, dest_keys: Seq<Seq<u8>>) -> bool {
    forall|i: int, j: int|
        0 <= i < keys.len() && 0 <= j < keys.len() ==> ((#[trigger] keys[i] == #[trigger] keys[j])
            <==> dest_keys[i] == dest_keys[j])
}

/// Moving a single pair is [`move_one`].
pub proof fn lemma_move_all_single(store: Store, key: Seq<u8>, dest_key: Seq<u8>)
    ensures
        move_all(store, seq![key], seq![dest_key]) == move_one(store, key, dest_key),
        moved_count(store, seq![key], seq![dest_key]) == if store.contains_key(key) {
            1nat
        } else {
            0nat
        },
{
    reveal_with_fuel(move_all, 2);
    reveal_with_fuel(moved_count, 2);
    assert(seq![key].drop_first().len() == 0);
}

/// A move never puts anything at a key that is no destination.
pub proof fn lemma_never_added(
    store: Store,
    keys: Seq<Seq<u8>>,
    dest_keys: Seq<Seq<u8>>,
    x: Seq<u8>,
)
    requires
        keys.len() == dest_keys.len(),
        !store.contains_key(x),
        forall|i: int| 0 <= i < dest_keys.len() ==> #[trigger] dest_keys[i] != x,
    ensures
        !move_all(store, keys, dest_keys).contains_key(x),
    decreases keys.len(),
{
    if keys.len() > 0 {
        assert(dest_keys[0] != x);
        assert forall|i: int| 0 <= i < dest_keys.drop_first().len() implies #[trigger] dest_keys.drop_first()[i]
            != x by {
            assert(dest_keys[i + 1] != x);
        }
        lemma_never_added(
            move_one(store, keys[0], dest_keys[0]),
            keys.drop_first(),
            dest_keys.drop_first(),
            x,
        );
    }
}

/// A part of independent lists is independent.
pub proof fn lemma_independent_rest(keys: Seq<Seq<u8>>, dest_keys: Seq<Seq<u8>>)
    requires
        keys.len() == dest_keys.len(),
        keys.len() > 0,
        independent(keys, dest_keys),
    ensures
        independent(keys.drop_first(), dest_keys.drop_first()),
        independent(keys.drop_last(), dest_keys.drop_last()),
{
    assert forall|i: int, j: int|
        0 <= i < dest_keys.drop_first().len() && 0 <= j < keys.drop_first().len() implies #[trigger] dest_keys.drop_first()[i]
        != #[trigger] keys.drop_first()[j] by {
        assert(dest_keys[i + 1] != keys[j + 1]);
    }
    assert forall|i: int, j: int|
        0 <= i < dest_keys.drop_last().len() && 0 <= j < keys.drop_last().len() implies #[trigger] dest_keys.drop_last()[i]
        != #[trigger] keys.drop_last()[j] by {
        assert(dest_keys[i] != keys[j]);
    }
}

/// After a move none of whose destinations is a source, no source exists.
pub proof fn lemma_sources_gone(store: Store, keys: Seq<Seq<u8>>, dest_keys: Seq<Seq<u8>>)
    requires
        keys.len() == dest_keys.len(),
        independent(keys, dest_keys),
    ensures
        forall|j: int|
            0 <= j < keys.len() ==> !move_all(store, keys, dest_keys).contains_key(
                #[trigger] keys[j],
            ),
    decreases keys.len(),
{
    if keys.len() > 0 {
        let next = move_one(store, keys[0], dest_keys[0]);
        let rest = keys.drop_first();
        let rest_dests = dest_keys.drop_first();
        lemma_independent_rest(keys, dest_keys);
        lemma_sources_gone(next, rest, rest_dests);
        assert forall|j: int| 0 <= j < keys.len() implies !move_all(
            store,
            keys,
            dest_keys,
        ).contains_key(#[trigger] keys[j]) by {
            if j == 0 {
                assert(dest_keys[0] != keys[0]);
                assert forall|i: int| 0 <= i < rest_dests.len() implies #[trigger] rest_dests[i]
                    != keys[0] by {
                    assert(dest_keys[i + 1] != keys[0]);
                }
                lemma_never_added(next, rest, rest_dests, keys[0]);
            } else {
                assert(rest[j - 1] == keys[j]);
            }
        }
    }
}

/// A move changes nothing where none of its sources exists.
pub proof fn lemma_nothing_to_move(store: Store, keys: Seq<Seq<u8>>, dest_keys: Seq<Seq<u8>>)
    requires
        keys.len() == dest_keys.len(),
        forall|j: int| 0 <= j < keys.len() ==> !store.contains_key(#[trigger] keys[j]),
    ensures
        move_all(store, keys, dest_keys) == store,
        moved_count(store, keys, dest_keys) == 0,
    decreases keys.len(),
{
    if keys.len() > 0 {
        assert(!store.contains_key(keys[0]));
        assert forall|j: int| 0 <= j < keys.drop_first().len() implies !store.contains_key(
            #[trigger] keys.drop_first()[j],
        ) by {
            assert(keys.drop_first()[j] == keys[j + 1]);
        }
        lemma_nothing_to_move(store, keys.drop_first(), dest_keys.drop_first());
    }
}

/// Where no destination is a source and the pairs go one to one, a move is
/// this: a key exists afterwards if a source that existed is paired with it,
/// or if it existed and is no source; a destination holds what its source
/// held; every other key holds what it held.
pub proof fn lemma_move_all_paired(store: Store, keys: Seq<Seq<u8>>, dest_keys: Seq<Seq<u8>>)
    requires
        keys.len() == dest_keys.len(),
        independent(keys, dest_keys),
        paired(keys, dest_keys),
    ensures
        forall|x: Seq<u8>| #[trigger]
            move_all(store, keys, dest_keys).contains_key(x) <==> (arrives(
                store,
                keys,
                dest_keys,
                x,
            ) || (store.contains_key(x) && !keys.contains(x))),
        forall|i: int|
            0 <= i < keys.len() && store.contains_key(#[trigger] keys[i]) ==> move_all(
                store,
                keys,
                dest_keys,
            ).contains_key(dest_keys[i]) && move_all(store, keys, dest_keys)[dest_keys[i]]
                == store[keys[i]],
        forall|x: Seq<u8>| #[trigger]
            move_all(store, keys, dest_keys).contains_key(x) && !arrives(
                store,
                keys,
                dest_keys,
                x,
            ) ==> move_all(store, keys, dest_keys)[x] == store[x],
    decreases keys.len(),
{
    let after = move_all(store, keys, dest_keys);
    if keys.len() > 0 {
        let n = keys.len() - 1;
        let a = keys.drop_last();
        let da = dest_keys.drop_last();
        let k = keys.last();
        let d = dest_keys.last();
        let prev = move_all(store, a, da);
        assert(keys =~= a + seq![k]);
        assert(dest_keys =~= da + seq![d]);
        lemma_move_all_concat(store, a, da, seq![k], seq![d]);
        lemma_move_all_single(prev, k, d);
        assert(after == move_one(prev, k, d));
        lemma_independent_rest(keys, dest_keys);
        assert(paired(a, da)) by {
            assert forall|i: int, j: int| 0 <= i < a.len() && 0 <= j < a.len() implies ((
            #[trigger] a[i] == #[trigger] a[j]) <==> da[i] == da[j]) by {
                assert(keys[i] == a[i] && keys[j] == a[j]);
            }
        }
        lemma_move_all_paired(store, a, da);
        // What arrives with the whole list arrives with its front, or with
        // its last pair.
        assert forall|x: Seq<u8>|
            arrives(store, keys, dest_keys, x) <==> (arrives(store, a, da, x) || (d == x
                && store.contains_key(k))) by {
            if arrives(store, keys, dest_keys, x) {
                let i = choose|i: int|
                    0 <= i < keys.len() && i < dest_keys.len() && #[trigger] dest_keys[i] == x
                        && store.contains_key(keys[i]);
                if i < n {
                    assert(da[i] == x && store.contains_key(a[i]));
                }
            }
            if arrives(store, a, da, x) {
                let i = choose|i: int|
                    0 <= i < a.len() && i < da.len() && #[trigger] da[i] == x
                        && store.contains_key(a[i]);
                assert(dest_keys[i] == x && store.contains_key(keys[i]));
            }
            if d == x && store.contains_key(k) {
                assert(dest_keys[n] == x && store.contains_key(keys[n]));
            }
        }
        assert forall|x: Seq<u8>| keys.contains(x) <==> (a.contains(x) || x == k) by {
            if keys.contains(x) {
                let i = choose|i: int| 0 <= i < keys.len() && keys[i] == x;
                if i < n {
                    assert(a[i] == x);
                }
            }
            if a.contains(x) {
                let i = choose|i: int| 0 <= i < a.len() && a[i] == x;
                assert(keys[i] == x);
            }
            if x == k {
                assert(keys[n] == x);
            }
        }
        // The last source is no destination, and the last destination is no
        // source.
        assert(!arrives(store, a, da, k)) by {
            if arrives(store, a, da, k) {
                let i = choose|i: int|
                    0 <= i < a.len() && i < da.len() && #[trigger] da[i] == k
                        && store.contains_key(a[i]);
                assert(dest_keys[i] != keys[n]);
            }
        }
        assert(!keys.contains(d)) by {
            if keys.contains(d) {
                let i = choose|i: int| 0 <= i < keys.len() && keys[i] == d;
                assert(dest_keys[n] != keys[i]);
            }
        }
        assert(d != k) by {
            assert(dest_keys[n] != keys[n]);
        }
        assert(prev.contains_key(k) <==> (store.contains_key(k) && !a.contains(k)));
        // A source that occurs in the front shares its destination with the
        // last pair.
        if a.contains(k) && store.contains_key(k) {
            let j = choose|j: int| 0 <= j < a.len() && a[j] == k;
            assert(keys[j] == keys[n]);
            assert(da[j] == d);
            assert(arrives(store, a, da, d));
            assert(prev.contains_key(d) && prev[d] == store[k]) by {
                assert(store.contains_key(a[j]));
            }
        }
        assert forall|x: Seq<u8>| #[trigger]
            after.contains_key(x) <==> (arrives(store, keys, dest_keys, x) || (store.contains_key(
                x,
            ) && !keys.contains(x))) by {
            if prev.contains_key(k) {
                if x == d {
                } else if x == k {
                    assert(!arrives(store, keys, dest_keys, k)) by {
                        if arrives(store, keys, dest_keys, k) {
                            let i = choose|i: int|
                                0 <= i < keys.len() && i < dest_keys.len()
                                    && #[trigger] dest_keys[i] == k && store.contains_key(keys[i]);
                            assert(dest_keys[i] != keys[n]);
                        }
                    }
                } else {
                }
            } else {
            }
        }
        assert forall|i: int|
            0 <= i < keys.len() && store.contains_key(#[trigger] keys[i]) implies after.contains_key(
            dest_keys[i],
        ) && after[dest_keys[i]] == store[keys[i]] by {
            assert(dest_keys[i] != keys[n]);
            if i < n {
                assert(a[i] == keys[i] && da[i] == dest_keys[i]);
                assert(prev.contains_key(da[i]) && prev[da[i]] == store[a[i]]);
                if dest_keys[i] == d {
                    assert(keys[i] == keys[n]);
                }
            } else {
                if prev.contains_key(k) {
                    assert(!arrives(store, a, da, k));
                    assert(prev[k] == store[k]);
                }
            }
        }
        assert forall|x: Seq<u8>| #[trigger]
            after.contains_key(x) && !arrives(store, keys, dest_keys, x) implies after[x]
            == store[x] by {
            assert(!arrives(store, a, da, x));
            if prev.contains_key(k) {
                assert(x != d);
                assert(x != k);
            }
        }
    } else {
        assert forall|x: Seq<u8>| !arrives(store, keys, dest_keys, x) by {}
    }
}

/// A tombstone key gives back its key when the prefix is stripped.
pub proof fn tombstone_key_is_reversible(prefix: Seq<u8>, key: Seq<u8>)
    ensures
        tombstone_key(prefix, key).len() == prefix.len() + key.len(),
        tombstone_key(prefix, key).take(prefix.len() as int) == prefix,
        tombstone_key(prefix, key).skip(prefix.len() as int) == key,
{
    assert(tombstone_key(prefix, key).take(prefix.len() as int) =~= prefix);
    assert(tombstone_key(prefix, key).skip(prefix.len() as int) =~= key);
}

/// Tombstone keys go one to one with their keys.
pub proof fn lemma_tombstones_paired(prefix: Seq<u8>, keys: Seq<Seq<u8>>)
    ensures
        paired(keys, tombstone_keys(prefix, keys)),
        paired(tombstone_keys(prefix, keys), keys),
{
    let tombstones = tombstone_keys(prefix, keys);
    assert forall|i: int, j: int| 0 <= i < keys.len() && 0 <= j < keys.len() implies ((
    #[trigger] keys[i] == #[trigger] keys[j]) <==> tombstones[i] == tombstones[j]) by {
        tombstone_key_is_reversible(prefix, keys[i]);
        tombstone_key_is_reversible(prefix, keys[j]);
    }
    assert forall|i: int, j: int|
        0 <= i < tombstones.len() && 0 <= j < tombstones.len() implies ((
    #[trigger] tombstones[i] == #[trigger] tombstones[j]) <==> keys[i] == keys[j]) by {
        tombstone_key_is_reversible(prefix, keys[i]);
        tombstone_key_is_reversible(prefix, keys[j]);
    }
}

/// Creating tombstones for keys and then restoring the same keys gives back
/// the store as it was, byte for byte. It is asked that no key is the
/// tombstone key of one of the keys, and that none of the tombstone keys
/// exists beforehand.
pub proof fn create_then_restore_gives_back(store: Store, prefix: Seq<u8>, keys: Seq<Seq<u8>>)
    requires
        tombstone_free(prefix, keys),
        forall|i: int|
            0 <= i < keys.len() ==> !store.contains_key(tombstone_key(prefix, #[trigger] keys[i])),
    ensures
        move_all(
            move_all(store, keys, tombstone_keys(prefix, keys)),
            tombstone_keys(prefix, keys),
            keys,
        ) == store,
{
    let tombstones = tombstone_keys(prefix, keys);
    let created = move_all(store, keys, tombstones);
    let restored = move_all(created, tombstones, keys);
    lemma_tombstones_paired(prefix, keys);
    lemma_independent_swapped(keys, tombstones);
    assert(independent(tombstones, keys));
    lemma_move_all_paired(store, keys, tombstones);
    lemma_move_all_paired(created, tombstones, keys);
    assert forall|x: Seq<u8>| !store.contains_key(x) || !tombstones.contains(x) by {
        if tombstones.contains(x) {
            let i = choose|i: int| 0 <= i < tombstones.len() && tombstones[i] == x;
            assert(!store.contains_key(tombstone_key(prefix, keys[i])));
        }
    }
    // A tombstone exists after the first move exactly when its key existed.
    assert forall|j: int| 0 <= j < keys.len() implies (created.contains_key(
        #[trigger] tombstones[j],
    ) <==> store.contains_key(keys[j])) by {
        if created.contains_key(tombstones[j]) {
            assert(arrives(store, keys, tombstones, tombstones[j]));
            let m = choose|m: int|
                0 <= m < keys.len() && m < tombstones.len() && #[trigger] tombstones[m]
                    == tombstones[j] && store.contains_key(keys[m]);
            assert(keys[m] == keys[j]);
        }
        if store.contains_key(keys[j]) {
            assert(created.contains_key(tombstones[j]));
        }
    }
    assert forall|x: Seq<u8>| #[trigger]
        restored.contains_key(x) <==> store.contains_key(x) by {
        if arrives(created, tombstones, keys, x) {
            let j = choose|j: int|
                0 <= j < tombstones.len() && j < keys.len() && #[trigger] keys[j] == x
                    && created.contains_key(tombstones[j]);
            assert(store.contains_key(keys[j]));
        }
        if keys.contains(x) {
            let j = choose|j: int| 0 <= j < keys.len() && keys[j] == x;
            if store.contains_key(x) {
                assert(created.contains_key(tombstones[j]));
                assert(arrives(created, tombstones, keys, keys[j]));
            } else {
                assert(!arrives(store, keys, tombstones, x)) by {
                    if arrives(store, keys, tombstones, x) {
                        let m = choose|m: int|
                            0 <= m < keys.len() && m < tombstones.len() && #[trigger] tombstones[m]
                                == x && store.contains_key(keys[m]);
                        assert(tombstones[m] != keys[j]);
                    }
                }
            }
        } else if tombstones.contains(x) {
        } else {
            assert(!arrives(store, keys, tombstones, x)) by {
                if arrives(store, keys, tombstones, x) {
                    let m = choose|m: int|
                        0 <= m < keys.len() && m < tombstones.len() && #[trigger] tombstones[m]
                            == x && store.contains_key(keys[m]);
                    assert(tombstones.contains(x));
                }
            }
        }
    }
    assert forall|x: Seq<u8>| #[trigger] restored.contains_key(x) implies restored[x]
        == store[x] by {
        if arrives(created, tombstones, keys, x) {
            let j = choose|j: int|
                0 <= j < tombstones.len() && j < keys.len() && #[trigger] keys[j] == x
                    && created.contains_key(tombstones[j]);
            assert(restored[keys[j]] == created[tombstones[j]]);
            assert(store.contains_key(keys[j]));
            assert(created[tombstones[j]] == store[keys[j]]);
        } else {
            assert(restored[x] == created[x]);
            assert(created.contains_key(x));
            assert(!keys.contains(x)) by {
                if keys.contains(x) {
                    let j = choose|j: int| 0 <= j < keys.len() && keys[j] == x;
                    assert(created.contains_key(tombstones[j]));
                    assert(arrives(created, tombstones, keys, keys[j]));
                }
            }
            assert(!arrives(store, keys, tombstones, x)) by {
                if arrives(store, keys, tombstones, x) {
                    let m = choose|m: int|
                        0 <= m < keys.len() && m < tombstones.len() && #[trigger] tombstones[m]
                            == x && store.contains_key(keys[m]);
                    assert(tombstones.contains(x));
                }
            }
        }
    }
    assert(restored =~= store);
}

/// A source that exists after a move is also a destination.
pub proof fn lemma_source_left_is_destination(
    store: Store,
    keys: Seq<Seq<u8>>,
    dest_keys: Seq<Seq<u8>>,
    j: int,
)
    requires
        keys.len() == dest_keys.len(),
        0 <= j < keys.len(),
        move_all(store, keys, dest_keys).contains_key(keys[j]),
    ensures
        dest_keys.contains(keys[j]),
    decreases keys.len(),
{
    let n = keys.len() - 1;
    let a = keys.drop_last();
    let da = dest_keys.drop_last();
    let k = keys.last();
    let d = dest_keys.last();
    let prev = move_all(store, a, da);
    assert(keys =~= a + seq![k]);
    assert(dest_keys =~= da + seq![d]);
    lemma_move_all_concat(store, a, da, seq![k], seq![d]);
    lemma_move_all_single(prev, k, d);
    if keys[j] == d {
        assert(dest_keys[n] == keys[j]);
    } else {
        assert(keys[j] != k);
        assert(prev.contains_key(keys[j]));
        assert(a[j] == keys[j]);
        lemma_source_left_is_destination(store, a, da, j);
        let i = choose|i: int| 0 <= i < da.len() && da[i] == a[j];
        assert(dest_keys[i] == keys[j]);
    }
}

/// Creating tombstones for keys and then deleting the tombstones of the same
/// keys leaves neither a key of the list nor its tombstone key.
pub proof fn create_then_delete_leaves_nothing(store: Store, prefix: Seq<u8>, keys: Seq<Seq<u8>>)
    ensures
        forall|i: int|
            0 <= i < keys.len() ==> {
                let left = move_all(store, keys, tombstone_keys(prefix, keys)).remove_keys(
                    tombstone_keys(prefix, keys).to_set(),
                );
                &&& !left.contains_key(#[trigger] keys[i])
                &&& !left.contains_key(tombstone_key(prefix, keys[i]))
            },
{
    let tombstones = tombstone_keys(prefix, keys);
    let created = move_all(store, keys, tombstones);
    assert forall|i: int| 0 <= i < keys.len() implies {
        let left = created.remove_keys(tombstones.to_set());
        &&& !left.contains_key(#[trigger] keys[i])
        &&& !left.contains_key(tombstone_key(prefix, keys[i]))
    } by {
        assert(tombstones[i] == tombstone_key(prefix, keys[i]));
        assert(tombstones.to_set().contains(tombstones[i]));
        if created.contains_key(keys[i]) {
            lemma_source_left_is_destination(store, keys, tombstones, i);
            assert(tombstones.to_set().contains(keys[i]));
        }
    }
}

/// A move that is made a second time, with the same keys and destinations,
/// moves nothing and leaves the store as the first move left it. It is asked
/// that no destination is a source.
pub proof fn second_move_changes_nothing(
    store: Store,
    keys: Seq<Seq<u8>>,
    dest_keys: Seq<Seq<u8>>,
)
    requires
        keys.len() == dest_keys.len(),
        independent(keys, dest_keys),
    ensures
        moved_count(move_all(store, keys, dest_keys), keys, dest_keys) == 0,
        move_all(move_all(store, keys, dest_keys), keys, dest_keys) == move_all(
            store,
            keys,
            dest_keys,
        ),
{
    lemma_sources_gone(store, keys, dest_keys);
    lemma_nothing_to_move(move_all(store, keys, dest_keys), keys, dest_keys);
}

/// The number of keys of a list that exist in a store; a key that stands in
/// the list more than once counts once.
pub open spec fn existing_count(store: Store, keys: Seq<Seq<u8>>) -> nat
    decreases keys.len(),
{
    if keys.len() == 0 {
        0
    } else {
        existing_count(store, keys.drop_last()) + if store.contains_key(keys.last())
            && !keys.drop_last().contains(keys.last()) {
            1nat
        } else {
            0nat
        }
    }
}

/// A move leaves alone every key that is neither a source nor a destination.
pub proof fn lemma_untouched(
    store: Store,
    keys: Seq<Seq<u8>>,
    dest_keys: Seq<Seq<u8>>,
    x: Seq<u8>,
)
    requires
        keys.len() == dest_keys.len(),
        forall|i: int| 0 <= i < keys.len() ==> #[trigger] keys[i] != x,
        forall|i: int| 0 <= i < dest_keys.len() ==> #[trigger] dest_keys[i] != x,
    ensures
        move_all(store, keys, dest_keys).contains_key(x) == store.contains_key(x),
        store.contains_key(x) ==> move_all(store, keys, dest_keys)[x] == store[x],
    decreases keys.len(),
{
    if keys.len() > 0 {
        assert(keys[0] != x && dest_keys[0] != x);
        assert forall|i: int| 0 <= i < keys.drop_first().len() implies #[trigger] keys.drop_first()[i]
            != x by {
            assert(keys[i + 1] != x);
        }
        assert forall|i: int| 0 <= i < dest_keys.drop_first().len() implies #[trigger] dest_keys.drop_first()[i]
            != x by {
            assert(dest_keys[i + 1] != x);
        }
        lemma_untouched(
            move_one(store, keys[0], dest_keys[0]),
            keys.drop_first(),
            dest_keys.drop_first(),
            x,
        );
    }
}

/// A move counts the keys that existed, and no others: a key that does not
/// exist adds nothing to the count. It is asked that no destination is a
/// source.
pub proof fn move_counts_existing_keys(store: Store, keys: Seq<Seq<u8>>, dest_keys: Seq<Seq<u8>>)
    requires
        keys.len() == dest_keys.len(),
        independent(keys, dest_keys),
    ensures
        moved_count(store, keys, dest_keys) == existing_count(store, keys),
    decreases keys.len(),
{
    if keys.len() > 0 {
        let n = keys.len() - 1;
        let a = keys.drop_last();
        let da = dest_keys.drop_last();
        let k = keys.last();
        let d = dest_keys.last();
        let prev = move_all(store, a, da);
        assert(keys =~= a + seq![k]);
        assert(dest_keys =~= da + seq![d]);
        lemma_move_all_concat(store, a, da, seq![k], seq![d]);
        lemma_move_all_single(prev, k, d);
        lemma_independent_rest(keys, dest_keys);
        move_counts_existing_keys(store, a, da);
        assert forall|i: int| 0 <= i < da.len() implies #[trigger] da[i] != k by {
            assert(dest_keys[i] != keys[n]);
        }
        if a.contains(k) {
            let j = choose|j: int| 0 <= j < a.len() && a[j] == k;
            lemma_sources_gone(store, a, da);
            assert(!prev.contains_key(a[j]));
        } else {
            assert forall|i: int| 0 <= i < a.len() implies #[trigger] a[i] != k by {
                assert(a.contains(a[i]));
            }
            lemma_untouched(store, a, da, k);
        }
    }
}

/// A move creates nothing for a key that does not exist: whatever exists
/// afterwards existed before, or is the destination of a source that
/// existed. It is asked that no destination is a source.
pub proof fn move_creates_nothing_for_absent_keys(
    store: Store,
    keys: Seq<Seq<u8>>,
    dest_keys: Seq<Seq<u8>>,
    x: Seq<u8>,
)
    requires
        keys.len() == dest_keys.len(),
        independent(keys, dest_keys),
        move_all(store, keys, dest_keys).contains_key(x),
    ensures
        store.contains_key(x) || arrives(store, keys, dest_keys, x),
    decreases keys.len(),
{
    if keys.len() > 0 {
        let n = keys.len() - 1;
        let a = keys.drop_last();
        let da = dest_keys.drop_last();
        let k = keys.last();
        let d = dest_keys.last();
        let prev = move_all(store, a, da);
        assert(keys =~= a + seq![k]);
        assert(dest_keys =~= da + seq![d]);
        lemma_move_all_concat(store, a, da, seq![k], seq![d]);
        lemma_move_all_single(prev, k, d);
        lemma_independent_rest(keys, dest_keys);
        if prev.contains_key(x) {
            move_creates_nothing_for_absent_keys(store, a, da, x);
            if arrives(store, a, da, x) {
                let i = choose|i: int|
                    0 <= i < a.len() && i < da.len() && #[trigger] da[i] == x
                        && store.contains_key(a[i]);
                assert(dest_keys[i] == x && store.contains_key(keys[i]));
            }
        } else {
            assert(x == d && prev.contains_key(k));
            assert forall|i: int| 0 <= i < da.len() implies #[trigger] da[i] != k by {
                assert(dest_keys[i] != keys[n]);
            }
            if !store.contains_key(k) {
                lemma_never_added(store, a, da, k);
            }
            assert(dest_keys[n] == x && store.contains_key(keys[n]));
        }
    }
}

/// The size of the chunks changes nothing: a move that is cut into chunks of
/// one size ends with the same store and the same count as the move cut into
/// chunks of another size, or not cut at all. It is asked that no destination
/// is a source, and that a chunk may submit at least one round.
pub proof fn chunk_size_changes_nothing(
    store: Store,
    keys: Seq<Seq<u8>>,
    dest_keys: Seq<Seq<u8>>,
    chunk_size: int,
    other_chunk_size: int,
    max_retries: nat,
)
    requires
        keys.len() == dest_keys.len(),
        independent(keys, dest_keys),
        chunk_size >= 1,
        other_chunk_size >= 1,
        max_retries >= 1,
    ensures
        chunked_run(store, keys, dest_keys, chunk_size, max_retries, 0) == chunked_run(
            store,
            keys,
            dest_keys,
            other_chunk_size,
            max_retries,
            0,
        ),
        chunked_run(store, keys, dest_keys, chunk_size, max_retries, 0) == (Run {
            store: move_all(store, keys, dest_keys),
            ending: Ok(moved_count(store, keys, dest_keys)),
        }),
{
    lemma_chunked_run_independent(store, keys, dest_keys, chunk_size, max_retries, 0);
    lemma_chunked_run_independent(store, keys, dest_keys, other_chunk_size, max_retries, 0);
}

} // verus!
