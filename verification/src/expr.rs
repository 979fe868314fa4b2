//! Expressions, their mathematical model, and the meaning of constant folding.
//!
//! An [`Expr`] is what a definition computes and what flows between nodes.
//! Its view is a [`Term`]: the same tree over unbounded integers and
//! sequences of characters. The contracts of the evaluator are stated over
//! terms, by the spec functions [`fold_binop`], [`fold_unop`] and
//! [`substitute`].

use vstd::prelude::*;

verus! {

/// A binary operator.
#[derive(Clone, Copy, Debug, PartialEq, Eq, Structural)]
pub enum BinOp {
    Add,
    Sub,
    Mul,
    Div,
    Eq,
    Lt,
    Gt,
    And,
    Or,
}

/// A unary operator.
#[derive(Clone, Copy, Debug, PartialEq, Eq, Structural)]
pub enum UnOp {
    Neg,
    Not,
}

/// An expression.
///
/// `Cond` stands for the forms that the evaluator of a node treats as
/// atomic: it is carried around and copied, never looked into.
#[derive(Debug, PartialEq, Eq)]
#[allow(inconsistent_fields)]
pub enum Expr {
    Number { val: i64 },
    Bool { val: bool },
    Variable { ident: String },
    Binop { op: BinOp, expr1: Box<Expr>, expr2: Box<Expr> },
    Unop { op: UnOp, expr: Box<Expr> },
    Cond { test: Box<Expr>, on_true: Box<Expr>, on_false: Box<Expr> },
}

/// The mathematical model of an expression.
pub enum Term {
    Number(int),
    Bool(bool),
    Variable(Seq<char>),
    Binop(BinOp, Box<Term>, Box<Term>),
    Unop(UnOp, Box<Term>),
    Cond(Box<Term>, Box<Term>, Box<Term>),
}

impl Expr {
    /// The term that this expression denotes.
    pub open spec fn term(&self) -> Term
        decreases self,
    {
        match self {
            Expr::Number { val } => Term::Number(*val as int),
            Expr::Bool { val } => Term::Bool(*val),
            Expr::Variable { ident } => Term::Variable(ident@),
            Expr::Binop { op, expr1, expr2 } => Term::Binop(
                *op,
                Box::new(expr1.term()),
                Box::new(expr2.term()),
            ),
            Expr::Unop { op, expr } => Term::Unop(*op, Box::new(expr.term())),
            Expr::Cond { test, on_true, on_false } => Term::Cond(
                Box::new(test.term()),
                Box::new(on_true.term()),
                Box::new(on_false.term()),
            ),
        }
    }
}

impl View for Expr {
    type V = Term;

    open spec fn view(&self) -> Term {
        self.term()
    }
}

impl Clone for Expr {
    /// A copy with the same model.
    fn clone(&self) -> (r: Self)
        ensures
            r@ == self@,
        decreases self,
    {
        match self {
            Expr::Number { val } => Expr::Number { val: *val },
            Expr::Bool { val } => Expr::Bool { val: *val },
            Expr::Variable { ident } => Expr::Variable { ident: ident.clone() },
            Expr::Binop { op, expr1, expr2 } => Expr::Binop {
                op: *op,
                expr1: Box::new((&**expr1).clone()),
                expr2: Box::new((&**expr2).clone()),
            },
            Expr::Unop { op, expr } => Expr::Unop { op: *op, expr: Box::new((&**expr).clone()) },
            Expr::Cond { test, on_true, on_false } => Expr::Cond {
                test: Box::new((&**test).clone()),
                on_true: Box::new((&**on_true).clone()),
                on_false: Box::new((&**on_false).clone()),
            },
        }
    }
}

/// Whether `n` is a number that an expression can hold.
pub open spec fn representable(n: int) -> bool {
    i64::MIN <= n <= i64::MAX
}

/// The integer quotient of `l` by `r`, rounded toward zero, for `r != 0`.
pub open spec fn quotient(l: int, r: int) -> int {
    if l >= 0 && r > 0 {
        l / r
    } else if l < 0 && r < 0 {
        (-l) / (-r)
    } else if l < 0 {
        -((-l) / r)
    } else {
        -(l / (-r))
    }
}

/// The number that `op` gives on the numbers `l` and `r`, where it gives
/// one: the exact sum, difference or product, and the quotient by a divisor
/// other than zero.
pub open spec fn arithmetic(op: BinOp, l: int, r: int) -> Option<int> {
    match op {
        BinOp::Add => Some(l + r),
        BinOp::Sub => Some(l - r),
        BinOp::Mul => Some(l * r),
        BinOp::Div => if r != 0 {
            Some(quotient(l, r))
        } else {
            None
        },
        _ => None,
    }
}

/// The truth value that `op` gives on the numbers `l` and `r`, where it
/// gives one.
pub open spec fn comparison(op: BinOp, l: int, r: int) -> Option<bool> {
    match op {
        BinOp::Eq => Some(l == r),
        BinOp::Lt => Some(l < r),
        BinOp::Gt => Some(l > r),
        _ => None,
    }
}

/// The truth value that `op` gives on the truth values `l` and `r`, where it
/// gives one.
pub open spec fn logic(op: BinOp, l: bool, r: bool) -> Option<bool> {
    match op {
        BinOp::And => Some(l && r),
        BinOp::Or => Some(l || r),
        BinOp::Eq => Some(l == r),
        _ => None,
    }
}

/// The result of folding `op` over two operands that are already folded.
///
/// Two numbers reduce to the exact number or truth value that the operator
/// gives; two truth values reduce to the truth value that it gives.
/// Everything else stays a binary operation over the two operands: an
/// operator that does not apply to the operands, operands of other forms, a
/// division by zero, and an arithmetic result that no expression can hold.
pub open spec fn fold_binop(op: BinOp, left: Term, right: Term) -> Term {
    let unreduced = Term::Binop(op, Box::new(left), Box::new(right));
    match (left, right) {
        (Term::Number(l), Term::Number(r)) => match (arithmetic(op, l, r), comparison(op, l, r)) {
            (Some(n), _) => if representable(n) {
                Term::Number(n)
            } else {
                unreduced
            },
            (None, Some(b)) => Term::Bool(b),
            (None, None) => unreduced,
        },
        (Term::Bool(l), Term::Bool(r)) => match logic(op, l, r) {
            Some(b) => Term::Bool(b),
            None => unreduced,
        },
        _ => unreduced,
    }
}

/// The result of folding `op` over an operand that is already folded.
///
/// Negation reduces on a number whose negative an expression can hold, and
/// `Not` reduces on a truth value. Everything else stays a unary operation
/// over the operand.
pub open spec fn fold_unop(op: UnOp, operand: Term) -> Term {
    let unreduced = Term::Unop(op, Box::new(operand));
    match (op, operand) {
        (UnOp::Neg, Term::Number(n)) => if representable(-n) {
            Term::Number(-n)
        } else {
            unreduced
        },
        (UnOp::Not, Term::Bool(b)) => Term::Bool(!b),
        _ => unreduced,
    }
}

/// The result of substituting `env` into `t` and folding constants.
///
/// A variable becomes the term bound to it, or stays as it is where none is
/// bound. Binary and unary operations are folded over their substituted
/// operands. Every other form is returned as it is, its parts untouched.
pub open spec fn substitute(t: Term, env: Map<Seq<char>, Term>) -> Term
    decreases t,
{
    match t {
        Term::Variable(x) => if env.contains_key(x) {
            env[x]
        } else {
            t
        },
        Term::Binop(op, left, right) => fold_binop(
            op,
            substitute(*left, env),
            substitute(*right, env),
        ),
        Term::Unop(op, operand) => fold_unop(op, substitute(*operand, env)),
        _ => t,
    }
}

} // verus!
