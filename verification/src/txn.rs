//! The conditional transaction model.
//!
//! A [`Txn`] is one unit "if the predicates hold, run these operations,
//! otherwise run those". A [`MergedTxn`] bundles many units for one atomic
//! submission: each unit still picks its branch by its own predicates, and
//! the store applies the units in order without anything happening between
//! them. The functions on [`Store`] say what such a submission does.

use vstd::prelude::*;

verus! {

/// The contents of a store: every key that exists, with its value.
pub type Store = Map<Seq<u8>, Seq<u8>>;

/// A key with its value.
#[derive(Debug)]
pub struct KeyValue {
    pub key: Vec<u8>,
    pub value: Vec<u8>,
}

pub struct KeyValueView {
    pub key: Seq<u8>,
    pub value: Seq<u8>,
}

impl View for KeyValue {
    type V = KeyValueView;

    open spec fn view(&self) -> KeyValueView {
        KeyValueView { key: self.key@, value: self.value@ }
    }
}

/// The predicate "the value at `key` exists and equals `value`".
#[derive(Debug)]
pub struct Compare {
    pub key: Vec<u8>,
    pub value: Vec<u8>,
}

pub struct CompareSpec {
    pub key: Seq<u8>,
    pub value: Seq<u8>,
}

impl View for Compare {
    type V = CompareSpec;

    open spec fn view(&self) -> CompareSpec {
        CompareSpec { key: self.key@, value: self.value@ }
    }
}

impl Compare {
    /// The predicate that `key` holds exactly `value`.
    pub fn with_value(key: Vec<u8>, value: Vec<u8>) -> (c: Compare)
        ensures
            c@ == (CompareSpec { key: key@, value: value@ }),
    {
        Compare { key, value }
    }
}

/// One operation of a transaction branch.
#[derive(Debug)]
pub enum TxnOp {
    /// Writes a value at a key, replacing what was there.
    Put(Vec<u8>, Vec<u8>),
    /// Reads the value at a key.
    Get(Vec<u8>),
    /// Removes a key; removing an absent key changes nothing.
    Delete(Vec<u8>),
}

pub enum TxnOpView {
    Put(Seq<u8>, Seq<u8>),
    Get(Seq<u8>),
    Delete(Seq<u8>),
}

impl View for TxnOp {
    type V = TxnOpView;

    open spec fn view(&self) -> TxnOpView {
        match self {
            TxnOp::Put(k, v) => TxnOpView::Put(k@, v@),
            TxnOp::Get(k) => TxnOpView::Get(k@),
            TxnOp::Delete(k) => TxnOpView::Delete(k@),
        }
    }
}

/// What the store answers to one operation.
#[derive(Debug)]
pub enum TxnOpResponse {
    ResponsePut,
    /// The entries found by a read: none where the key is absent.
    ResponseGet(Vec<KeyValue>),
    ResponseDelete,
}

pub enum TxnOpResponseView {
    ResponsePut,
    ResponseGet(Seq<KeyValueView>),
    ResponseDelete,
}

/// The mathematical value of a list of entries.
pub open spec fn kvs_view(kvs: Seq<KeyValue>) -> Seq<KeyValueView> {
    Seq::new(kvs.len(), |i: int| kvs[i]@)
}

impl View for TxnOpResponse {
    type V = TxnOpResponseView;

    open spec fn view(&self) -> TxnOpResponseView {
        match self {
            TxnOpResponse::ResponsePut => TxnOpResponseView::ResponsePut,
            TxnOpResponse::ResponseGet(kvs) => TxnOpResponseView::ResponseGet(kvs_view(kvs@)),
            TxnOpResponse::ResponseDelete => TxnOpResponseView::ResponseDelete,
        }
    }
}

/// The mathematical value of a list of responses.
pub open spec fn responses_view(rs: Seq<TxnOpResponse>) -> Seq<TxnOpResponseView> {
    Seq::new(rs.len(), |i: int| rs[i]@)
}

/// What the store answers to a merged transaction.
#[derive(Debug)]
pub struct TxnResponse {
    /// True only if the predicates of every unit held.
    pub succeeded: bool,
    /// The responses of the operations that ran, in the order they ran.
    pub responses: Vec<TxnOpResponse>,
}

pub struct TxnResponseView {
    pub succeeded: bool,
    pub responses: Seq<TxnOpResponseView>,
}

impl View for TxnResponse {
    type V = TxnResponseView;

    open spec fn view(&self) -> TxnResponseView {
        TxnResponseView { succeeded: self.succeeded, responses: responses_view(self.responses@) }
    }
}

/// The mathematical value of a list of predicates.
pub open spec fn compares_view(cs: Seq<Compare>) -> Seq<CompareSpec> {
    Seq::new(cs.len(), |i: int| cs[i]@)
}

/// The mathematical value of a list of operations.
pub open spec fn ops_view(ops: Seq<TxnOp>) -> Seq<TxnOpView> {
    Seq::new(ops.len(), |i: int| ops[i]@)
}

/// One conditional unit: predicates, and the operations to run when they all
/// hold and when one of them does not.
#[derive(Debug)]
pub struct Txn {
    pub compare: Vec<Compare>,
    pub success: Vec<TxnOp>,
    pub failure: Vec<TxnOp>,
}

pub struct TxnView {
    pub compare: Seq<CompareSpec>,
    pub success: Seq<TxnOpView>,
    pub failure: Seq<TxnOpView>,
}

impl View for Txn {
    type V = TxnView;

    open spec fn view(&self) -> TxnView {
        TxnView {
            compare: compares_view(self.compare@),
            success: ops_view(self.success@),
            failure: ops_view(self.failure@),
        }
    }
}

/// The mathematical value of a list of units.
pub open spec fn txns_view(txns: Seq<Txn>) -> Seq<TxnView> {
    Seq::new(txns.len(), |i: int| txns[i]@)
}

impl Txn {
    /// A unit with no predicate and no operation.
    pub fn new() -> (txn: Txn)
        ensures
            txn@ == (TxnView { compare: seq![], success: seq![], failure: seq![] }),
    {
        let txn = Txn { compare: Vec::new(), success: Vec::new(), failure: Vec::new() };
        assert(txn@.compare =~= seq![]);
        assert(txn@.success =~= seq![]);
        assert(txn@.failure =~= seq![]);
        txn
    }

    /// Sets the predicates.
    pub fn when(self, compares: Vec<Compare>) -> (txn: Txn)
        ensures
            txn@ == (TxnView { compare: compares_view(compares@), ..self@ }),
    {
        Txn { compare: compares, success: self.success, failure: self.failure }
    }

    /// Sets the operations that run when every predicate holds.
    pub fn and_then(self, operations: Vec<TxnOp>) -> (txn: Txn)
        ensures
            txn@ == (TxnView { success: ops_view(operations@), ..self@ }),
    {
        Txn { compare: self.compare, success: operations, failure: self.failure }
    }

    /// Sets the operations that run when a predicate does not hold.
    pub fn or_else(self, operations: Vec<TxnOp>) -> (txn: Txn)
        ensures
            txn@ == (TxnView { failure: ops_view(operations@), ..self@ }),
    {
        Txn { compare: self.compare, success: self.success, failure: operations }
    }

    /// Bundles units, in the order given, for one atomic submission.
    pub fn merge_all(txns: Vec<Txn>) -> (merged: MergedTxn)
        ensures
            merged@ == txns_view(txns@),
    {
        MergedTxn { units: txns }
    }
}

/// Units that are submitted together and applied atomically, each by its own
/// predicates.
#[derive(Debug)]
pub struct MergedTxn {
    pub units: Vec<Txn>,
}

impl View for MergedTxn {
    type V = Seq<TxnView>;

    open spec fn view(&self) -> Seq<TxnView> {
        txns_view(self.units@)
    }
}

/// Whether a predicate holds of a store.
pub open spec fn compare_holds(store: Store, c: CompareSpec) -> bool {
    store.contains_key(c.key) && store[c.key] == c.value
}

/// Whether every predicate of a list holds of a store.
pub open spec fn all_hold(store: Store, cs: Seq<CompareSpec>) -> bool {
    forall|i: int| 0 <= i < cs.len() ==> compare_holds(store, #[trigger] cs[i])
}

/// The store after one operation.
pub open spec fn op_store(store: Store, op: TxnOpView) -> Store {
    match op {
        TxnOpView::Put(k, v) => store.insert(k, v),
        TxnOpView::Get(_) => store,
        TxnOpView::Delete(k) => store.remove(k),
    }
}

/// The entries that a read of `key` finds.
pub open spec fn read_key(store: Store, key: Seq<u8>) -> Seq<KeyValueView> {
    if store.contains_key(key) {
        seq![KeyValueView { key: key, value: store[key] }]
    } else {
        seq![]
    }
}

/// The response to one operation.
pub open spec fn op_response(store: Store, op: TxnOpView) -> TxnOpResponseView {
    match op {
        TxnOpView::Put(_, _) => TxnOpResponseView::ResponsePut,
        TxnOpView::Get(k) => TxnOpResponseView::ResponseGet(read_key(store, k)),
        TxnOpView::Delete(_) => TxnOpResponseView::ResponseDelete,
    }
}

/// The store after a list of operations, run in order.
pub open spec fn ops_store(store: Store, ops: Seq<TxnOpView>) -> Store
    decreases ops.len(),
{
    if ops.len() == 0 {
        store
    } else {
        ops_store(op_store(store, ops[0]), ops.drop_first())
    }
}

/// The responses to a list of operations, run in order.
pub open spec fn ops_responses(store: Store, ops: Seq<TxnOpView>) -> Seq<TxnOpResponseView>
    decreases ops.len(),
{
    if ops.len() == 0 {
        seq![]
    } else {
        seq![op_response(store, ops[0])] + ops_responses(
            op_store(store, ops[0]),
            ops.drop_first(),
        )
    }
}

impl TxnView {
    /// The operations that this unit runs on a store.
    pub open spec fn branch(self, store: Store) -> Seq<TxnOpView> {
        if all_hold(store, self.compare) {
            self.success
        } else {
            self.failure
        }
    }

    /// The store after this unit.
    pub open spec fn store_after(self, store: Store) -> Store {
        ops_store(store, self.branch(store))
    }

    /// The responses of this unit.
    pub open spec fn responses(self, store: Store) -> Seq<TxnOpResponseView> {
        ops_responses(store, self.branch(store))
    }
}

/// The store after a merged transaction: the units are applied in order, each
/// to the store that the one before it left.
pub open spec fn merged_store(store: Store, units: Seq<TxnView>) -> Store
    decreases units.len(),
{
    if units.len() == 0 {
        store
    } else {
        merged_store(units[0].store_after(store), units.drop_first())
    }
}

/// The responses of a merged transaction: those of its units, one after the
/// other.
pub open spec fn merged_responses(store: Store, units: Seq<TxnView>) -> Seq<TxnOpResponseView>
    decreases units.len(),
{
    if units.len() == 0 {
        seq![]
    } else {
        units[0].responses(store) + merged_responses(
            units[0].store_after(store),
            units.drop_first(),
        )
    }
}

/// The aggregate flag of a merged transaction: whether the predicates of
/// every unit held when its turn came.
pub open spec fn merged_succeeded(store: Store, units: Seq<TxnView>) -> bool
    decreases units.len(),
{
    if units.len() == 0 {
        true
    } else {
        all_hold(store, units[0].compare) && merged_succeeded(
            units[0].store_after(store),
            units.drop_first(),
        )
    }
}

} // verus!
