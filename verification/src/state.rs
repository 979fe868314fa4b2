//! The static description of what a node computes.

use crate::expr::Expr;
use crate::names::{NameMap, NameSet};
use vstd::prelude::*;

verus! {

/// What a node computes, fixed for its lifetime: its expression, the initial
/// value of each argument, and for each argument the source variables that
/// it depends on, directly or through other nodes.
#[derive(Debug)]
pub struct ChangeState {
    pub expr: Expr,
    pub arg_to_values: NameMap<Expr>,
    pub arg_to_vars: NameMap<NameSet>,
}

impl ChangeState {
    /// The description made of the three parts given.
    pub fn new(expr: Expr, arg_to_values: NameMap<Expr>, arg_to_vars: NameMap<NameSet>) -> (s: Self)
        ensures
            s.expr == expr,
            s.arg_to_values == arg_to_values,
            s.arg_to_vars == arg_to_vars,
    {
        ChangeState { expr, arg_to_values, arg_to_vars }
    }
}

} // verus!
