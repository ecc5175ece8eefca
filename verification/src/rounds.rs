//! The rounds of one chunk, as a state machine.
//!
//! A [`MoveState`] holds the working set, the number of keys moved so far and
//! the number of rounds that may still be submitted. It says what is to be
//! done next, and takes the response of a submitted round; whoever reaches
//! the store runs the loop between the two.

use vstd::prelude::*;
use crate::bytes::keys_view;
use crate::error::Error;
use crate::extract::extract;
use crate::txn::{KeyValue, MergedTxn, TxnResponse};
use crate::working_set::{
    initial_items, item_keys, items_view, moved_in, pending_after, pre_read_items, round_txn,
    round_txns, settle, source_keys, MoveItem, MoveItemView,
};

verus! {

/// What is to be done next for a chunk.
#[derive(Debug)]
pub enum MoveAction {
    /// Submit this merged transaction and hand its response to
    /// [`MoveState::on_response`].
    Submit(MergedTxn),
    /// The chunk is done, with this result.
    Finish(Result<usize, Error>),
}

/// Where a chunk stands between two rounds.
#[derive(Debug)]
pub struct MoveState {
    items: Vec<MoveItem>,
    moved: usize,
    rounds_left: usize,
}

impl MoveState {
    #[verifier::type_invariant]
    spec fn within_limits(&self) -> bool {
        self.moved + self.items@.len() <= usize::MAX
    }

    /// The items that are still unresolved.
    pub closed spec fn pending(&self) -> Seq<MoveItemView> {
        items_view(self.items@)
    }

    /// The number of keys moved so far.
    pub closed spec fn moved(&self) -> nat {
        self.moved as nat
    }

    /// The number of rounds that may still be submitted.
    pub closed spec fn rounds_left(&self) -> nat {
        self.rounds_left as nat
    }

    /// Begins a chunk with what its pre-read returned: the working set holds
    /// the pairs whose source the read found, nothing is moved yet, and
    /// `max_retries` rounds may be submitted.
    pub fn start(
        keys: &Vec<Vec<u8>>,
        dest_keys: &Vec<Vec<u8>>,
        kvs: &Vec<KeyValue>,
        max_retries: usize,
    ) -> (state: MoveState)
        ensures
            state.pending() == initial_items(
                keys_view(keys@),
                keys_view(dest_keys@),
                crate::txn::kvs_view(kvs@),
            ),
            state.moved() == 0,
            state.rounds_left() == max_retries,
    {
        let items = pre_read_items(keys, dest_keys, kvs);
        assert(items.len() <= usize::MAX);
        MoveState { items, moved: 0, rounds_left: max_retries }
    }

    /// Says what is to be done next: nothing more where no item is
    /// unresolved; give up where items are unresolved and no round is left;
    /// otherwise submit a round with one unit for each unresolved item.
    pub fn next_action(&self) -> (action: MoveAction)
        ensures
            self.pending().len() == 0 ==> (action matches MoveAction::Finish(Ok(n)) && n
                == self.moved()),
            self.pending().len() > 0 && self.rounds_left() == 0 ==> (
            action matches MoveAction::Finish(Err(Error::ConvergenceExhausted { keys }))
                && keys_view(keys@) == item_keys(self.pending())),
            self.pending().len() > 0 && self.rounds_left() > 0 ==> (
            action matches MoveAction::Submit(txn) && txn@ == round_txns(self.pending())),
    {
        if self.items.len() == 0 {
            MoveAction::Finish(Ok(self.moved))
        } else if self.rounds_left == 0 {
            MoveAction::Finish(Err(Error::ConvergenceExhausted { keys: source_keys(&self.items) }))
        } else {
            MoveAction::Submit(round_txn(&self.items))
        }
    }

    /// Takes the response of the round that was submitted. A round that
    /// succeeded as a whole moved every item. Otherwise every item is settled
    /// by what the extractor reads for its key: moved, to be tried again with
    /// the value seen, or dropped because its source is gone.
    pub fn on_response(self, response: &TxnResponse) -> (next: MoveState)
        ensures
            next.rounds_left() == if self.rounds_left() > 0 {
                self.rounds_left() - 1
            } else {
                0
            },
            response.succeeded ==> {
                &&& next.pending() == Seq::<MoveItemView>::empty()
                &&& next.moved() == self.moved() + self.pending().len()
            },
            !response.succeeded ==> {
                let outcomes = extract(
                    crate::txn::responses_view(response.responses@),
                    item_keys(self.pending()),
                );
                &&& next.pending() == pending_after(self.pending(), outcomes)
                &&& next.moved() == self.moved() + moved_in(outcomes)
            },
            next.moved() + next.pending().len() <= self.moved() + self.pending().len(),
    {
        proof {
            use_type_invariant(&self);
        }
        let rounds_left: usize = if self.rounds_left > 0 {
            self.rounds_left - 1
        } else {
            0
        };
        if response.succeeded {
            let next = MoveState {
                items: Vec::new(),
                moved: self.moved + self.items.len(),
                rounds_left,
            };
            assert(next.pending() =~= Seq::<MoveItemView>::empty());
            next
        } else {
            let (pending, n) = settle(&self.items, &response.responses);
            MoveState { items: pending, moved: self.moved + n, rounds_left }
        }
    }

    /// Returns the number of keys moved so far.
    pub fn moved_keys(&self) -> (n: usize)
        ensures
            n == self.moved(),
    {
        self.moved
    }

    /// Returns the source keys of the items that are still unresolved.
    pub fn pending_keys(&self) -> (keys: Vec<Vec<u8>>)
        ensures
            keys_view(keys@) == item_keys(self.pending()),
    {
        source_keys(&self.items)
    }
}

} // verus!
