//! What a node hands to the outside: change notifications, and the tokens
//! that stand for transactions and assertions.

use crate::basis::BasisStamp;
use crate::expr::Expr;
use vstd::prelude::*;

verus! {

/// The identity of a transaction. Two identifiers name the same transaction
/// exactly when they are equal.
#[derive(Clone, Copy, Debug, PartialEq, Eq, Structural)]
pub struct TxnId {
    pub id: u64,
}

/// The identity of an assertion that reads a node once.
#[derive(Clone, Copy, Debug, PartialEq, Eq, Structural)]
pub struct TestId {
    pub id: u64,
}

/// The notification that a node's value changed, for every subscriber of
/// that node.
#[derive(Debug)]
pub struct PropChange {
    /// The name of the node that changed.
    pub from_name: String,
    /// Its new value.
    pub val: Expr,
    /// The transactions that the change follows from.
    pub preds: Vec<TxnId>,
    /// The basis of the new value.
    pub basis: BasisStamp,
}

} // verus!
