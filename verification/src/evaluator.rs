//! The constant-folding evaluator of a node.
//!
//! The evaluator substitutes concrete values for variables and reduces what
//! becomes constant. It is deliberately partial: whatever it cannot reduce
//! stays in the result as an unreduced operation, and nothing it meets is a
//! fault.

use crate::def_actor::DefActor;
use crate::expr::{fold_binop, fold_unop, substitute, BinOp, Expr, Term, UnOp};
use crate::names::NameMap;
use vstd::prelude::*;

verus! {

/// The terms that a map of expressions binds to its names.
pub open spec fn terms_of(subst: Map<Seq<char>, Expr>) -> Map<Seq<char>, Term> {
    Map::new(|k: Seq<char>| subst.contains_key(k), |k: Seq<char>| subst[k]@)
}

/// The binary operation left as it is, over copies of its operands.
fn unreduced_binop(op: &BinOp, left: &Expr, right: &Expr) -> (r: Expr)
    ensures
        r@ == Term::Binop(*op, Box::new(left@), Box::new(right@)),
{
    Expr::Binop { op: *op, expr1: Box::new(left.clone()), expr2: Box::new(right.clone()) }
}

/// The unary operation left as it is, over a copy of its operand.
fn unreduced_unop(op: &UnOp, operand: &Expr) -> (r: Expr)
    ensures
        r@ == Term::Unop(*op, Box::new(operand@)),
{
    Expr::Unop { op: *op, expr: Box::new(operand.clone()) }
}

/// The number `n` where there is one, and the fallback otherwise.
fn number_or(n: Option<i64>, fallback: Expr) -> (r: Expr)
    ensures
        r@ == (match n {
            Some(val) => Term::Number(val as int),
            None => fallback@,
        }),
{
    match n {
        Some(val) => Expr::Number { val },
        None => fallback,
    }
}

impl<A> DefActor<A> {
    /// Substitutes the values of `subst` for the variables of `expr` and
    /// folds the operations whose operands have become constants.
    pub fn substitute_expr(&self, expr: &Expr, subst: &NameMap<Expr>) -> (r: Expr)
        ensures
            r@ == substitute(expr@, terms_of(subst@)),
        decreases expr,
    {
        match expr {
            Expr::Variable { ident } => match subst.get(ident) {
                Some(bound) => bound.clone(),
                None => expr.clone(),
            },
            Expr::Binop { op, expr1, expr2 } => {
                let left_val = self.substitute_expr(&**expr1, subst);
                let right_val = self.substitute_expr(&**expr2, subst);
                self.eval_binop(op, &left_val, &right_val)
            },
            Expr::Unop { op, expr: operand } => {
                let operand_val = self.substitute_expr(&**operand, subst);
                self.eval_unop(op, &operand_val)
            },
            _ => expr.clone(),
        }
    }

    /// Folds a binary operation over two operands.
    pub fn eval_binop(&self, op: &BinOp, left: &Expr, right: &Expr) -> (r: Expr)
        ensures
            r@ == fold_binop(*op, left@, right@),
    {
        match (left, right) {
            (Expr::Number { val: l }, Expr::Number { val: r }) => match op {
                BinOp::Add => number_or(l.checked_add(*r), unreduced_binop(op, left, right)),
                BinOp::Sub => number_or(l.checked_sub(*r), unreduced_binop(op, left, right)),
                BinOp::Mul => number_or(l.checked_mul(*r), unreduced_binop(op, left, right)),
                BinOp::Div => number_or(l.checked_div(*r), unreduced_binop(op, left, right)),
                BinOp::Eq => Expr::Bool { val: *l == *r },
                BinOp::Lt => Expr::Bool { val: *l < *r },
                BinOp::Gt => Expr::Bool { val: *l > *r },
                _ => unreduced_binop(op, left, right),
            },
            (Expr::Bool { val: l }, Expr::Bool { val: r }) => match op {
                BinOp::And => Expr::Bool { val: *l && *r },
                BinOp::Or => Expr::Bool { val: *l || *r },
                BinOp::Eq => Expr::Bool { val: *l == *r },
                _ => unreduced_binop(op, left, right),
            },
            _ => unreduced_binop(op, left, right),
        }
    }

    /// Folds a unary operation over its operand.
    pub fn eval_unop(&self, op: &UnOp, operand: &Expr) -> (r: Expr)
        ensures
            r@ == fold_unop(*op, operand@),
    {
        match operand {
            Expr::Number { val } => match op {
                UnOp::Neg => number_or(0i64.checked_sub(*val), unreduced_unop(op, operand)),
                _ => unreduced_unop(op, operand),
            },
            Expr::Bool { val } => match op {
                UnOp::Not => Expr::Bool { val: !*val },
                _ => unreduced_unop(op, operand),
            },
            _ => unreduced_unop(op, operand),
        }
    }
}

} // verus!
