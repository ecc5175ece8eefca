//! What a move does on a store that nobody else touches, round by round and
//! chunk by chunk.
//!
//! [`chunked_run`] follows the manager step by step and says what it does
//! for every input. Where no destination is a source this is no more than
//! [`move_all`]: see [`lemma_chunked_run_independent`].

use vstd::prelude::*;
use crate::bytes::keys_view;
use crate::error::Error;
use crate::moves::{
    independent, lemma_move_all_concat, lemma_pre_read, lemma_round_alone, move_all, moved_count,
    round_outcomes, round_store, round_succeeds,
};
use crate::txn::Store;
use crate::working_set::{item_keys, moved_in, pending_after, present_items, MoveItemView};

verus! {

/// How a move ends: with the number of keys moved, or with the source keys
/// that it left unresolved.
pub type Ending = Result<nat, Seq<Seq<u8>>>;

/// The store after a move, and how the move ended.
pub struct Run {
    pub store: Store,
    pub ending: Ending,
}

/// How the result of a move reads as an ending.
pub open spec fn ends_with(r: Result<usize, Error>, ending: Ending) -> bool {
    match r {
        Ok(n) => ending == Ok::<nat, Seq<Seq<u8>>>(n as nat),
        Err(Error::ConvergenceExhausted { keys }) => ending == Err::<nat, Seq<Seq<u8>>>(
            keys_view(keys@),
        ),
        Err(_) => false,
    }
}

/// The rounds of a chunk, from a working set on: a round is submitted while
/// items are unresolved and rounds are left; a round that moves every item
/// ends the chunk.
pub open spec fn chunk_run(
    store: Store,
    items: Seq<MoveItemView>,
    moved: nat,
    rounds_left: nat,
) -> Run
    decreases rounds_left,
{
    if items.len() == 0 {
        Run { store, ending: Ok(moved) }
    } else if rounds_left == 0 {
        Run { store, ending: Err(item_keys(items)) }
    } else if round_succeeds(store, items) {
        Run { store: round_store(store, items), ending: Ok(moved + items.len()) }
    } else {
        let outcomes = round_outcomes(store, items);
        chunk_run(
            round_store(store, items),
            pending_after(items, outcomes),
            moved + moved_in(outcomes),
            (rounds_left - 1) as nat,
        )
    }
}

/// One chunk: a pre-read, then its rounds.
pub open spec fn chunk_move(
    store: Store,
    keys: Seq<Seq<u8>>,
    dest_keys: Seq<Seq<u8>>,
    max_retries: nat,
) -> Run {
    chunk_run(store, present_items(store, keys, dest_keys), 0, max_retries)
}

/// Chunk after chunk of `chunk_size` pairs, each to its end before the next
/// one begins, up to the first chunk that leaves keys unresolved.
pub open spec fn chunked_run(
    store: Store,
    keys: Seq<Seq<u8>>,
    dest_keys: Seq<Seq<u8>>,
    chunk_size: int,
    max_retries: nat,
    moved: nat,
) -> Run
    decreases keys.len(),
{
    if keys.len() == 0 || dest_keys.len() != keys.len() || chunk_size < 1 {
        Run { store, ending: Ok(moved) }
    } else {
        let cut = if keys.len() > chunk_size {
            chunk_size
        } else {
            keys.len() as int
        };
        let first = chunk_move(store, keys.take(cut), dest_keys.take(cut), max_retries);
        match first.ending {
            Ok(n) => chunked_run(
                first.store,
                keys.skip(cut),
                dest_keys.skip(cut),
                chunk_size,
                max_retries,
                moved + n,
            ),
            Err(_) => first,
        }
    }
}

/// Where no destination is a source, a chunk with at least one round moves
/// every pair, and never leaves a key unresolved.
pub proof fn lemma_chunk_move_independent(
    store: Store,
    keys: Seq<Seq<u8>>,
    dest_keys: Seq<Seq<u8>>,
    max_retries: nat,
)
    requires
        keys.len() == dest_keys.len(),
        independent(keys, dest_keys),
        max_retries >= 1,
    ensures
        chunk_move(store, keys, dest_keys, max_retries) == (Run {
            store: move_all(store, keys, dest_keys),
            ending: Ok(moved_count(store, keys, dest_keys)),
        }),
{
    let items = present_items(store, keys, dest_keys);
    lemma_pre_read(store, store, keys, dest_keys);
    lemma_round_alone(store, items);
    if items.len() > 0 && !round_succeeds(store, items) {
        reveal_with_fuel(chunk_run, 2);
    }
}

/// Where no destination is a source, moving chunk after chunk, with at least
/// one round for each, is moving all pairs at once, whatever the size of a
/// chunk.
pub proof fn lemma_chunked_run_independent(
    store: Store,
    keys: Seq<Seq<u8>>,
    dest_keys: Seq<Seq<u8>>,
    chunk_size: int,
    max_retries: nat,
    moved: nat,
)
    requires
        keys.len() == dest_keys.len(),
        independent(keys, dest_keys),
        chunk_size >= 1,
        max_retries >= 1,
    ensures
        chunked_run(store, keys, dest_keys, chunk_size, max_retries, moved) == (Run {
            store: move_all(store, keys, dest_keys),
            ending: Ok(moved + moved_count(store, keys, dest_keys)),
        }),
    decreases keys.len(),
{
    if keys.len() > 0 {
        let cut = if keys.len() > chunk_size {
            chunk_size
        } else {
            keys.len() as int
        };
        let part = keys.take(cut);
        let part_dests = dest_keys.take(cut);
        let rest = keys.skip(cut);
        let rest_dests = dest_keys.skip(cut);
        assert(independent(part, part_dests)) by {
            assert forall|i: int, j: int|
                0 <= i < part_dests.len() && 0 <= j < part.len() implies #[trigger] part_dests[i]
                != #[trigger] part[j] by {
                assert(dest_keys[i] != keys[j]);
            }
        }
        assert(independent(rest, rest_dests)) by {
            assert forall|i: int, j: int|
                0 <= i < rest_dests.len() && 0 <= j < rest.len() implies #[trigger] rest_dests[i]
                != #[trigger] rest[j] by {
                assert(dest_keys[cut + i] != keys[cut + j]);
            }
        }
        lemma_chunk_move_independent(store, part, part_dests, max_retries);
        let next = move_all(store, part, part_dests);
        lemma_chunked_run_independent(
            next,
            rest,
            rest_dests,
            chunk_size,
            max_retries,
            moved + moved_count(store, part, part_dests),
        );
        assert(keys =~= part + rest);
        assert(dest_keys =~= part_dests + rest_dests);
        lemma_move_all_concat(store, part, part_dests, rest, rest_dests);
    }
}

} // verus!
