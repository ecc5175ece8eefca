//! The tombstone manager: logical deletion, restoring and purging of values.

use vstd::prelude::*;
use vstd::string::*;
use crate::bytes::{clone_bytes, clone_range, keys_view};
use crate::error::Error;
use crate::kv_backend::KvBackend;
use crate::moves::{independent, move_all, moved_count};
use crate::rounds::{MoveAction, MoveState};
use crate::run::{chunk_move, chunk_run, chunked_run, ends_with};
use crate::txn::Txn;
use crate::working_set::{
    among, item_keys, lemma_items_among, lemma_items_bound, lemma_pending_among, move_txn,
    move_value_txn,
};

verus! {

/// The prefix of a tombstone key, unless another one is chosen.
pub const TOMBSTONE_PREFIX: &'static str = "__tombstone/";

/// The number of rounds after which a move that has not converged gives up.
pub const MAX_RETRIES: usize = 8;

/// Moves values to and from their tombstone keys:
/// - [`TombstoneManager::create`] deletes values logically,
/// - [`TombstoneManager::restore`] brings them back,
/// - [`TombstoneManager::delete`] purges what was deleted logically.
pub struct TombstoneManager<B: KvBackend> {
    pub kv_backend: B,
    pub tombstone_prefix: Vec<u8>,
    /// Stands in for the store's own ceiling on the operations of one
    /// transaction.
    pub max_txn_ops: Option<usize>,
    /// The number of rounds after which a chunk that has not converged gives
    /// up.
    pub max_retries: usize,
}

/// The tombstone key of a key.
pub open spec fn tombstone_key(prefix: Seq<u8>, key: Seq<u8>) -> Seq<u8> {
    prefix + key
}

/// The tombstone keys of a list of keys.
pub open spec fn tombstone_keys(prefix: Seq<u8>, keys: Seq<Seq<u8>>) -> Seq<Seq<u8>> {
    Seq::new(keys.len(), |i: int| tombstone_key(prefix, keys[i]))
}

/// The number of pairs that go into one merged transaction under a ceiling
/// of `max_txn_ops` operations: a pair may take two operations, and a chunk
/// holds at least one pair.
pub open spec fn chunk_pairs(max_txn_ops: usize) -> int {
    if max_txn_ops < 2 {
        1
    } else {
        max_txn_ops as int / 2
    }
}

/// Returns the number of pairs that go into one merged transaction.
pub fn chunk_size_for(max_txn_ops: usize) -> (pairs: usize)
    ensures
        pairs == chunk_pairs(max_txn_ops),
        pairs >= 1,
{
    let half: usize = max_txn_ops / 2;
    if half == 0 {
        1
    } else {
        half
    }
}

/// Returns the index at which the chunk that begins at `at` ends, for a list
/// of `len` pairs and chunks of `chunk_size` pairs.
pub fn chunk_end(len: usize, at: usize, chunk_size: usize) -> (end: usize)
    requires
        at <= len,
    ensures
        end == if len - at > chunk_size {
            at + chunk_size
        } else {
            len as int
        },
{
    if len - at > chunk_size {
        at + chunk_size
    } else {
        len
    }
}

/// Returns the tombstone key of `key` under `prefix`: the prefix, then
/// `key`.
pub fn to_tombstone_key(prefix: &Vec<u8>, key: &[u8]) -> (tombstone: Vec<u8>)
    ensures
        tombstone@ == tombstone_key(prefix@, key@),
{
    let mut tombstone = clone_bytes(prefix);
    let mut i: usize = 0;
    while i < key.len()
        invariant
            0 <= i <= key@.len(),
            tombstone@ == prefix@ + key@.subrange(0, i as int),
        decreases key@.len() - i,
    {
        tombstone.push(key[i]);
        assert(tombstone@ =~= prefix@ + key@.subrange(0, i + 1));
        i += 1;
    }
    assert(key@.subrange(0, i as int) =~= key@);
    tombstone
}

/// Returns the tombstone keys of `keys` under `prefix`, in order.
pub fn to_tombstone_keys(prefix: &Vec<u8>, keys: &Vec<Vec<u8>>) -> (tombstones: Vec<Vec<u8>>)
    ensures
        keys_view(tombstones@) == tombstone_keys(prefix@, keys_view(keys@)),
        tombstones@.len() == keys@.len(),
{
    let mut tombstones: Vec<Vec<u8>> = Vec::with_capacity(keys.len());
    let mut i: usize = 0;
    while i < keys.len()
        invariant
            0 <= i <= keys@.len(),
            tombstones@.len() == i,
            forall|j: int|
                0 <= j < i ==> (#[trigger] tombstones@[j])@ == tombstone_key(prefix@, keys@[j]@),
        decreases keys@.len() - i,
    {
        tombstones.push(to_tombstone_key(prefix, keys[i].as_slice()));
        i += 1;
    }
    assert(keys_view(tombstones@) =~= tombstone_keys(prefix@, keys_view(keys@)));
    tombstones
}

/// No key of the list is the tombstone key of a key of the list.
pub open spec fn tombstone_free(prefix: Seq<u8>, keys: Seq<Seq<u8>>) -> bool {
    independent(keys, tombstone_keys(prefix, keys))
}

impl<B: KvBackend> TombstoneManager<B> {
    /// The ceiling on the operations of one transaction that this manager
    /// goes by: the one that was set, or else the store's own.
    pub open spec fn txn_ops_limit(&self) -> usize {
        match self.max_txn_ops {
            Some(n) => n,
            None => self.kv_backend.max_ops(),
        }
    }

    /// Returns a manager with the prefix [`TOMBSTONE_PREFIX`].
    pub fn new(kv_backend: B) -> (manager: Self)
        ensures
            manager.kv_backend == kv_backend,
            manager.tombstone_prefix@ == TOMBSTONE_PREFIX.spec_bytes(),
            manager.max_txn_ops is None,
            manager.max_retries == MAX_RETRIES,
    {
        Self::new_with_prefix(kv_backend, TOMBSTONE_PREFIX)
    }

    /// Returns a manager with a tombstone prefix of the caller's choice.
    pub fn new_with_prefix(kv_backend: B, prefix: &str) -> (manager: Self)
        ensures
            manager.kv_backend == kv_backend,
            manager.tombstone_prefix@ == prefix.spec_bytes(),
            manager.max_txn_ops is None,
            manager.max_retries == MAX_RETRIES,
    {
        Self {
            kv_backend,
            tombstone_prefix: prefix.as_bytes_vec(),
            max_txn_ops: None,
            max_retries: MAX_RETRIES,
        }
    }

    /// Returns the tombstone key of `key`: the prefix, then `key`.
    pub fn to_tombstone(&self, key: &[u8]) -> (tombstone: Vec<u8>)
        ensures
            tombstone@ == tombstone_key(self.tombstone_prefix@, key@),
    {
        to_tombstone_key(&self.tombstone_prefix, key)
    }

    /// Sets the ceiling on the operations of one transaction, in place of the
    /// store's own.
    pub fn set_max_txn_ops(&mut self, max_txn_ops: usize)
        ensures
            final(self).max_txn_ops == Some(max_txn_ops),
            final(self).kv_backend == old(self).kv_backend,
            final(self).tombstone_prefix == old(self).tombstone_prefix,
            final(self).max_retries == old(self).max_retries,
    {
        self.max_txn_ops = Some(max_txn_ops);
    }

    /// Sets the number of rounds after which a chunk that has not converged
    /// gives up.
    pub fn set_max_retries(&mut self, max_retries: usize)
        ensures
            final(self).max_retries == max_retries,
            final(self).kv_backend == old(self).kv_backend,
            final(self).tombstone_prefix == old(self).tombstone_prefix,
            final(self).max_txn_ops == old(self).max_txn_ops,
    {
        self.max_retries = max_retries;
    }

    /// Returns the ceiling on the operations of one transaction: the one
    /// that was set, or else the store's own.
    pub fn max_txn_ops(&self) -> (n: usize)
        ensures
            self.max_txn_ops matches Some(set) ==> n == set,
            self.kv_backend.exclusive() ==> n == self.txn_ops_limit(),
    {
        match self.max_txn_ops {
            Some(n) => n,
            None => self.kv_backend.max_txn_ops(),
        }
    }

    /// Builds the unit that moves the value of `src_key` to `dest_key` if
    /// `src_key` still holds `value`, and reads `src_key` otherwise.
    pub fn build_move_value_txn(&self, src_key: Vec<u8>, value: Vec<u8>, dest_key: Vec<u8>) -> (txn:
        Txn)
        ensures
            txn@ == move_txn(src_key@, value@, dest_key@),
    {
        move_value_txn(src_key, value, dest_key)
    }

    /// Moves the values of `keys` to `dest_keys`, pair by pair, in one chunk.
    ///
    /// Reads the keys once, then submits up to [`Self::max_retries`] merged
    /// rounds. Each round holds one unit for every key that is still
    /// unresolved; a key that a round finds changed is tried again with the
    /// value found, and a key that a round finds gone is dropped and not
    /// counted. Returns the number of keys that were moved.
    pub fn move_values_inner(&mut self, keys: &Vec<Vec<u8>>, dest_keys: &Vec<Vec<u8>>) -> (r: Result<
        usize,
        Error,
    >)
        ensures
            final(self).tombstone_prefix == old(self).tombstone_prefix,
            final(self).max_txn_ops == old(self).max_txn_ops,
            final(self).max_retries == old(self).max_retries,
            keys@.len() != dest_keys@.len() ==> {
                &&& r == Err::<usize, Error>(
                    Error::InvalidArgument {
                        keys_len: keys@.len() as usize,
                        dest_keys_len: dest_keys@.len() as usize,
                    },
                )
                &&& final(self).kv_backend == old(self).kv_backend
            },
            r matches Err(Error::InvalidArgument { .. }) ==> keys@.len() != dest_keys@.len(),
            r matches Ok(n) ==> n <= keys@.len(),
            r matches Err(Error::ConvergenceExhausted { keys: pending }) ==> {
                &&& pending@.len() > 0
                &&& among(keys_view(pending@), keys_view(keys@))
            },
            old(self).kv_backend.exclusive() && keys@.len() == dest_keys@.len() ==> {
                let run = chunk_move(
                    old(self).kv_backend@,
                    keys_view(keys@),
                    keys_view(dest_keys@),
                    old(self).max_retries as nat,
                );
                &&& final(self).kv_backend.exclusive()
                &&& final(self).kv_backend@ == run.store
                &&& ends_with(r, run.ending)
            },
            old(self).kv_backend.exclusive() && old(self).max_retries >= 1 && keys@.len()
                == dest_keys@.len() && independent(keys_view(keys@), keys_view(dest_keys@)) ==> {
                &&& final(self).kv_backend.exclusive()
                &&& final(self).kv_backend@ == move_all(
                    old(self).kv_backend@,
                    keys_view(keys@),
                    keys_view(dest_keys@),
                )
                &&& r is Ok
                &&& r->Ok_0 == moved_count(
                    old(self).kv_backend@,
                    keys_view(keys@),
                    keys_view(dest_keys@),
                )
            },
    {
        if keys.len() != dest_keys.len() {
            return Err(
                Error::InvalidArgument { keys_len: keys.len(), dest_keys_len: dest_keys.len() },
            );
        }
        let ghost all_keys = keys_view(keys@);
        let ghost all_dests = keys_view(dest_keys@);
        let ghost start = old(self).kv_backend@;
        let ghost alone = old(self).kv_backend.exclusive();
        let ghost goal = chunk_move(start, all_keys, all_dests, self.max_retries as nat);
        let kvs = match self.kv_backend.batch_get(keys) {
            Ok(kvs) => kvs,
            Err(e) => {
                return Err(Error::BackendFailure(e));
            },
        };
        let mut state = MoveState::start(keys, dest_keys, &kvs, self.max_retries);
        proof {
            let found = crate::txn::kvs_view(kvs@);
            lemma_items_among(all_keys, all_dests, found);
            lemma_items_bound(all_keys, all_dests, found);
            if alone {
                assert forall|i: int| 0 <= i < all_keys.len() implies crate::kv_backend::find_value(
                    found,
                    #[trigger] all_keys[i],
                ) == if start.contains_key(all_keys[i]) {
                    Some(start[all_keys[i]])
                } else {
                    None
                } by {
                    assert(all_keys.contains(all_keys[i]));
                }
                crate::working_set::lemma_items_are_present(start, all_keys, all_dests, found);
            }
            if self.max_retries >= 1 && independent(all_keys, all_dests) {
                crate::run::lemma_chunk_move_independent(
                    start,
                    all_keys,
                    all_dests,
                    self.max_retries as nat,
                );
            }
        }
        loop
            invariant
                self.tombstone_prefix == old(self).tombstone_prefix,
                self.max_txn_ops == old(self).max_txn_ops,
                self.max_retries == old(self).max_retries,
                all_keys == keys_view(keys@),
                all_dests == keys_view(dest_keys@),
                keys@.len() == dest_keys@.len(),
                alone == old(self).kv_backend.exclusive(),
                goal == chunk_move(
                    old(self).kv_backend@,
                    all_keys,
                    all_dests,
                    old(self).max_retries as nat,
                ),
                state.pending().len() + state.moved() <= keys@.len(),
                among(item_keys(state.pending()), all_keys),
                old(self).max_retries >= 1 && independent(all_keys, all_dests) ==> goal == (
                crate::run::Run {
                    store: move_all(old(self).kv_backend@, all_keys, all_dests),
                    ending: Ok(moved_count(old(self).kv_backend@, all_keys, all_dests)),
                }),
                alone ==> {
                    &&& self.kv_backend.exclusive()
                    &&& chunk_run(
                        self.kv_backend@,
                        state.pending(),
                        state.moved(),
                        state.rounds_left(),
                    ) == goal
                },
            decreases state.rounds_left(),
        {
            let txn = match state.next_action() {
                MoveAction::Finish(result) => {
                    proof {
                        if result is Err {
                            let unresolved = result->Err_0->ConvergenceExhausted_keys;
                            assert(keys_view(unresolved@).len() == unresolved@.len());
                        }
                    }
                    return result;
                },
                MoveAction::Submit(txn) => txn,
            };
            let ghost before = self.kv_backend@;
            let ghost pending = state.pending();
            let resp = match self.kv_backend.txn(&txn) {
                Ok(resp) => resp,
                Err(e) => {
                    return Err(Error::BackendFailure(e));
                },
            };
            proof {
                lemma_pending_among(
                    pending,
                    crate::extract::extract(
                        crate::txn::responses_view(resp.responses@),
                        item_keys(pending),
                    ),
                    all_keys,
                );
                if alone {
                    crate::moves::lemma_round(before, pending);
                }
            }
            state = state.on_response(&resp);
            proof {
                if resp.succeeded {
                    assert(item_keys(state.pending()) =~= Seq::<Seq<u8>>::empty());
                }
            }
        }
    }

    /// Moves the values of `keys` to `dest_keys`, pair by pair.
    ///
    /// The pairs are cut into chunks of [`chunk_size_for`] the ceiling of
    /// [`Self::max_txn_ops`], and each chunk is moved to its end before the
    /// next one begins. Returns the number of keys that were moved: a key that
    /// does not exist is passed over and not counted.
    pub fn move_values(&mut self, keys: Vec<Vec<u8>>, dest_keys: Vec<Vec<u8>>) -> (r: Result<
        usize,
        Error,
    >)
        ensures
            final(self).tombstone_prefix == old(self).tombstone_prefix,
            final(self).max_txn_ops == old(self).max_txn_ops,
            final(self).max_retries == old(self).max_retries,
            keys@.len() != dest_keys@.len() ==> {
                &&& r == Err::<usize, Error>(
                    Error::InvalidArgument {
                        keys_len: keys@.len() as usize,
                        dest_keys_len: dest_keys@.len() as usize,
                    },
                )
                &&& final(self).kv_backend == old(self).kv_backend
            },
            r matches Err(Error::InvalidArgument { .. }) ==> keys@.len() != dest_keys@.len(),
            keys@.len() == 0 && dest_keys@.len() == 0 ==> {
                &&& r == Ok::<usize, Error>(0)
                &&& final(self).kv_backend == old(self).kv_backend
            },
            r matches Ok(n) ==> n <= keys@.len(),
            r matches Err(Error::ConvergenceExhausted { keys: pending }) ==> {
                &&& pending@.len() > 0
                &&& among(keys_view(pending@), keys_view(keys@))
            },
            old(self).kv_backend.exclusive() && keys@.len() == dest_keys@.len() ==> {
                let run = chunked_run(
                    old(self).kv_backend@,
                    keys_view(keys@),
                    keys_view(dest_keys@),
                    chunk_pairs(old(self).txn_ops_limit()),
                    old(self).max_retries as nat,
                    0,
                );
                &&& final(self).kv_backend.exclusive()
                &&& final(self).kv_backend@ == run.store
                &&& ends_with(r, run.ending)
            },
            old(self).kv_backend.exclusive() && old(self).max_retries >= 1 && keys@.len()
                == dest_keys@.len() && independent(keys_view(keys@), keys_view(dest_keys@)) ==> {
                &&& final(self).kv_backend.exclusive()
                &&& final(self).kv_backend@ == move_all(
                    old(self).kv_backend@,
                    keys_view(keys@),
                    keys_view(dest_keys@),
                )
                &&& r is Ok
                &&& r->Ok_0 == moved_count(
                    old(self).kv_backend@,
                    keys_view(keys@),
                    keys_view(dest_keys@),
                )
            },
    {
        if keys.len() != dest_keys.len() {
            return Err(
                Error::InvalidArgument { keys_len: keys.len(), dest_keys_len: dest_keys.len() },
            );
        }
        if keys.len() == 0 {
            return Ok(0);
        }
        let ghost all_keys = keys_view(keys@);
        let ghost all_dests = keys_view(dest_keys@);
        let ghost alone = old(self).kv_backend.exclusive();
        let chunk_size: usize = chunk_size_for(self.max_txn_ops());
        let ghost pairs = chunk_size as int;
        let ghost rounds = self.max_retries as nat;
        let ghost goal = chunked_run(old(self).kv_backend@, all_keys, all_dests, pairs, rounds, 0);
        let mut moved: usize = 0;
        let mut at: usize = 0;
        proof {
            assert(all_keys.skip(0) =~= all_keys);
            assert(all_dests.skip(0) =~= all_dests);
            if rounds >= 1 && independent(all_keys, all_dests) {
                crate::run::lemma_chunked_run_independent(
                    old(self).kv_backend@,
                    all_keys,
                    all_dests,
                    pairs,
                    rounds,
                    0,
                );
            }
        }
        while at < keys.len()
            invariant
                self.tombstone_prefix == old(self).tombstone_prefix,
                self.max_txn_ops == old(self).max_txn_ops,
                self.max_retries == old(self).max_retries,
                all_keys == keys_view(keys@),
                all_dests == keys_view(dest_keys@),
                keys@.len() == dest_keys@.len(),
                keys@.len() <= usize::MAX,
                chunk_size >= 1,
                pairs == chunk_size,
                rounds == old(self).max_retries,
                alone == old(self).kv_backend.exclusive(),
                alone ==> pairs == chunk_pairs(old(self).txn_ops_limit()),
                goal == chunked_run(old(self).kv_backend@, all_keys, all_dests, pairs, rounds, 0),
                rounds >= 1 && independent(all_keys, all_dests) ==> goal == (crate::run::Run {
                    store: move_all(old(self).kv_backend@, all_keys, all_dests),
                    ending: Ok(moved_count(old(self).kv_backend@, all_keys, all_dests)),
                }),
                0 <= at <= keys@.len(),
                moved <= at,
                alone ==> {
                    &&& self.kv_backend.exclusive()
                    &&& chunked_run(
                        self.kv_backend@,
                        all_keys.skip(at as int),
                        all_dests.skip(at as int),
                        pairs,
                        rounds,
                        moved as nat,
                    ) == goal
                },
            decreases keys@.len() - at,
        {
            let end: usize = chunk_end(keys.len(), at, chunk_size);
            let chunk_keys = clone_range(&keys, at, end);
            let chunk_dest_keys = clone_range(&dest_keys, at, end);
            let ghost part = all_keys.subrange(at as int, end as int);
            proof {
                let cut = end - at;
                assert(all_keys.skip(at as int).take(cut) =~= part);
                assert(all_dests.skip(at as int).take(cut) =~= all_dests.subrange(
                    at as int,
                    end as int,
                ));
                assert(all_keys.skip(at as int).skip(cut) =~= all_keys.skip(end as int));
                assert(all_dests.skip(at as int).skip(cut) =~= all_dests.skip(end as int));
            }
            let n: usize = match self.move_values_inner(&chunk_keys, &chunk_dest_keys) {
                Ok(n) => n,
                Err(e) => {
                    proof {
                        if e is ConvergenceExhausted {
                            let pending = e->ConvergenceExhausted_keys;
                            assert forall|i: int| 0 <= i < pending@.len() implies all_keys.contains(
                                #[trigger] keys_view(pending@)[i],
                            ) by {
                                let k = keys_view(pending@)[i];
                                assert(part.contains(k));
                                let j = choose|j: int| 0 <= j < part.len() && part[j] == k;
                                assert(all_keys[at + j] == k);
                            }
                        }
                    }
                    return Err(e);
                },
            };
            moved = moved + n;
            at = end;
        }
        Ok(moved)
    }

    /// Creates tombstones for `keys`: moves the value of each key that exists
    /// to its tombstone key.
    ///
    /// Returns the number of keys that were moved.
    pub fn create(&mut self, keys: Vec<Vec<u8>>) -> (r: Result<usize, Error>)
        ensures
            final(self).tombstone_prefix == old(self).tombstone_prefix,
            final(self).max_txn_ops == old(self).max_txn_ops,
            final(self).max_retries == old(self).max_retries,
            !(r matches Err(Error::InvalidArgument { .. })),
            keys@.len() == 0 ==> {
                &&& r == Ok::<usize, Error>(0)
                &&& final(self).kv_backend == old(self).kv_backend
            },
            r matches Ok(n) ==> n <= keys@.len(),
            r matches Err(Error::ConvergenceExhausted { keys: pending }) ==> {
                &&& pending@.len() > 0
                &&& among(keys_view(pending@), keys_view(keys@))
            },
            old(self).kv_backend.exclusive() ==> {
                let run = chunked_run(
                    old(self).kv_backend@,
                    keys_view(keys@),
                    tombstone_keys(old(self).tombstone_prefix@, keys_view(keys@)),
                    chunk_pairs(old(self).txn_ops_limit()),
                    old(self).max_retries as nat,
                    0,
                );
                &&& final(self).kv_backend.exclusive()
                &&& final(self).kv_backend@ == run.store
                &&& ends_with(r, run.ending)
            },
            old(self).kv_backend.exclusive() && old(self).max_retries >= 1 && tombstone_free(
                old(self).tombstone_prefix@,
                keys_view(keys@),
            ) ==> {
                &&& final(self).kv_backend.exclusive()
                &&& final(self).kv_backend@ == move_all(
                    old(self).kv_backend@,
                    keys_view(keys@),
                    tombstone_keys(old(self).tombstone_prefix@, keys_view(keys@)),
                )
                &&& r is Ok
                &&& r->Ok_0 == moved_count(
                    old(self).kv_backend@,
                    keys_view(keys@),
                    tombstone_keys(old(self).tombstone_prefix@, keys_view(keys@)),
                )
            },
    {
        let dest_keys = to_tombstone_keys(&self.tombstone_prefix, &keys);
        self.move_values(keys, dest_keys)
    }

    /// Restores the tombstones of `keys`: moves the value of each tombstone
    /// key that exists back to its key.
    ///
    /// Returns the number of keys that were restored.
    pub fn restore(&mut self, keys: Vec<Vec<u8>>) -> (r: Result<usize, Error>)
        ensures
            final(self).tombstone_prefix == old(self).tombstone_prefix,
            final(self).max_txn_ops == old(self).max_txn_ops,
            final(self).max_retries == old(self).max_retries,
            !(r matches Err(Error::InvalidArgument { .. })),
            keys@.len() == 0 ==> {
                &&& r == Ok::<usize, Error>(0)
                &&& final(self).kv_backend == old(self).kv_backend
            },
            r matches Ok(n) ==> n <= keys@.len(),
            r matches Err(Error::ConvergenceExhausted { keys: pending }) ==> {
                &&& pending@.len() > 0
                &&& among(
                    keys_view(pending@),
                    tombstone_keys(old(self).tombstone_prefix@, keys_view(keys@)),
                )
            },
            old(self).kv_backend.exclusive() ==> {
                let run = chunked_run(
                    old(self).kv_backend@,
                    tombstone_keys(old(self).tombstone_prefix@, keys_view(keys@)),
                    keys_view(keys@),
                    chunk_pairs(old(self).txn_ops_limit()),
                    old(self).max_retries as nat,
                    0,
                );
                &&& final(self).kv_backend.exclusive()
                &&& final(self).kv_backend@ == run.store
                &&& ends_with(r, run.ending)
            },
            old(self).kv_backend.exclusive() && old(self).max_retries >= 1 && tombstone_free(
                old(self).tombstone_prefix@,
                keys_view(keys@),
            ) ==> {
                &&& final(self).kv_backend.exclusive()
                &&& final(self).kv_backend@ == move_all(
                    old(self).kv_backend@,
                    tombstone_keys(old(self).tombstone_prefix@, keys_view(keys@)),
                    keys_view(keys@),
                )
                &&& r is Ok
                &&& r->Ok_0 == moved_count(
                    old(self).kv_backend@,
                    tombstone_keys(old(self).tombstone_prefix@, keys_view(keys@)),
                    keys_view(keys@),
                )
            },
    {
        let tombstones = to_tombstone_keys(&self.tombstone_prefix, &keys);
        proof {
            let sources = tombstone_keys(self.tombstone_prefix@, keys_view(keys@));
            if tombstone_free(self.tombstone_prefix@, keys_view(keys@)) {
                crate::moves::lemma_independent_swapped(keys_view(keys@), sources);
            }
        }
        self.move_values(tombstones, keys)
    }

    /// Deletes the tombstones of `keys` for good, whatever they hold.
    ///
    /// Returns the number of keys that were given, not the number of
    /// tombstones that existed.
    pub fn delete(&mut self, keys: Vec<Vec<u8>>) -> (r: Result<usize, Error>)
        ensures
            final(self).tombstone_prefix == old(self).tombstone_prefix,
            final(self).max_txn_ops == old(self).max_txn_ops,
            final(self).max_retries == old(self).max_retries,
            r matches Ok(n) ==> n == keys@.len(),
            r matches Err(e) ==> e is BackendFailure,
            old(self).kv_backend.exclusive() ==> {
                &&& final(self).kv_backend.exclusive()
                &&& final(self).kv_backend@ == old(self).kv_backend@.remove_keys(
                    tombstone_keys(old(self).tombstone_prefix@, keys_view(keys@)).to_set(),
                )
                &&& r == Ok::<usize, Error>(keys@.len() as usize)
            },
    {
        let tombstones = to_tombstone_keys(&self.tombstone_prefix, &keys);
        let num_keys: usize = keys.len();
        match self.kv_backend.batch_delete(&tombstones) {
            Ok(_) => Ok(num_keys),
            Err(e) => Err(Error::BackendFailure(e)),
        }
    }
}

} // verus!
