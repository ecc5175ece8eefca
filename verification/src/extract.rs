//! Reading the outcome of a merged move out of its flat response.
//!
//! A merged move holds one unit per source key. A unit whose predicate held
//! ran its two writes and answers with their two responses; a unit whose
//! predicate did not hold ran its single read and answers with that read.
//! Walking the response list in the order of the keys therefore tells, key by
//! key, which branch ran, and what the read saw.

use vstd::prelude::*;
use crate::bytes::{clone_bytes, keys_view};
use crate::kv_backend::{find_entry, find_value};
use crate::txn::{KeyValueView, TxnOpResponse, TxnOpResponseView};

verus! {

/// What became of one source key in a submitted round.
#[derive(Debug)]
pub enum Outcome {
    /// The predicate held: the value now stands at the destination and the
    /// source is gone.
    Moved,
    /// The predicate did not hold and the source now holds this value.
    Refreshed(Vec<u8>),
    /// The predicate did not hold and the source no longer exists.
    Absent,
}

pub enum OutcomeView {
    Moved,
    Refreshed(Seq<u8>),
    Absent,
}

impl View for Outcome {
    type V = OutcomeView;

    open spec fn view(&self) -> OutcomeView {
        match self {
            Outcome::Moved => OutcomeView::Moved,
            Outcome::Refreshed(v) => OutcomeView::Refreshed(v@),
            Outcome::Absent => OutcomeView::Absent,
        }
    }
}

/// The mathematical value of a list of outcomes.
pub open spec fn outcomes_view(outcomes: Seq<Outcome>) -> Seq<OutcomeView> {
    Seq::new(outcomes.len(), |i: int| outcomes[i]@)
}

/// The number of responses that a unit leaves when its predicate held.
pub const SUCCESS_OPS: usize = 2;

/// What a read of `key` that returned `kvs` saw.
pub open spec fn observed(kvs: Seq<KeyValueView>, key: Seq<u8>) -> OutcomeView {
    match find_value(kvs, key) {
        Some(v) => OutcomeView::Refreshed(v),
        None => OutcomeView::Absent,
    }
}

/// The responses that follow those of a unit whose predicate held.
pub open spec fn after_success(responses: Seq<TxnOpResponseView>) -> Seq<TxnOpResponseView> {
    if responses.len() >= 2 {
        responses.skip(2)
    } else {
        seq![]
    }
}

/// The outcome of every key, in the order of `keys`: a read at a key's place
/// in the responses means that its predicate did not hold; anything else is
/// taken as the two writes of a unit whose predicate held.
pub open spec fn extract(responses: Seq<TxnOpResponseView>, keys: Seq<Seq<u8>>) -> Seq<OutcomeView>
    decreases keys.len(),
{
    if keys.len() == 0 {
        seq![]
    } else if responses.len() > 0 && responses[0] is ResponseGet {
        seq![observed(responses[0]->ResponseGet_0, keys[0])] + extract(
            responses.drop_first(),
            keys.drop_first(),
        )
    } else {
        seq![OutcomeView::Moved] + extract(after_success(responses), keys.drop_first())
    }
}

/// Recovers the outcome of every key of a round from the round's responses.
pub fn extract_outcomes(responses: &Vec<TxnOpResponse>, keys: &Vec<Vec<u8>>) -> (outcomes: Vec<
    Outcome,
>)
    ensures
        outcomes_view(outcomes@) == extract(
            crate::txn::responses_view(responses@),
            keys_view(keys@),
        ),
{
    let ghost all_responses = crate::txn::responses_view(responses@);
    let ghost all_keys = keys_view(keys@);
    let mut outcomes: Vec<Outcome> = Vec::with_capacity(keys.len());
    let mut cursor: usize = 0;
    let mut i: usize = 0;
    assert(all_responses.skip(0) =~= all_responses);
    assert(all_keys.skip(0) =~= all_keys);
    assert(outcomes_view(outcomes@) =~= seq![]);
    while i < keys.len()
        invariant
            all_responses == crate::txn::responses_view(responses@),
            all_keys == keys_view(keys@),
            0 <= i <= keys@.len(),
            0 <= cursor <= responses@.len(),
            outcomes@.len() == i,
            extract(all_responses, all_keys) == outcomes_view(outcomes@) + extract(
                all_responses.skip(cursor as int),
                all_keys.skip(i as int),
            ),
        decreases keys@.len() - i,
    {
        let ghost rest = all_responses.skip(cursor as int);
        let ghost rest_keys = all_keys.skip(i as int);
        let ghost before = outcomes_view(outcomes@);
        assert(rest_keys[0] == keys@[i as int]@);
        assert(rest_keys.drop_first() =~= all_keys.skip(i + 1));
        let mut failed: bool = false;
        if cursor < responses.len() {
            assert(rest[0] == responses@[cursor as int]@);
            match &responses[cursor] {
                TxnOpResponse::ResponseGet(kvs) => {
                    failed = true;
                    let outcome = match find_entry(kvs, &keys[i]) {
                        Some(at) => Outcome::Refreshed(clone_bytes(&kvs[at].value)),
                        None => Outcome::Absent,
                    };
                    assert(outcome@ == observed(rest[0]->ResponseGet_0, rest_keys[0]));
                    outcomes.push(outcome);
                    assert(rest.drop_first() =~= all_responses.skip(cursor + 1));
                    cursor += 1;
                },
                _ => {},
            }
        }
        if !failed {
            outcomes.push(Outcome::Moved);
            if responses.len() - cursor >= SUCCESS_OPS {
                assert(after_success(rest) =~= all_responses.skip(cursor + 2));
                cursor += SUCCESS_OPS;
            } else {
                assert(after_success(rest) =~= all_responses.skip(responses@.len() as int));
                cursor = responses.len();
            }
        }
        assert(outcomes_view(outcomes@) =~= before + seq![outcomes@[i as int]@]);
        i += 1;
    }
    assert(outcomes_view(outcomes@) + Seq::<OutcomeView>::empty() =~= outcomes_view(outcomes@));
    outcomes
}

} // verus!
