use glitchfree::def_actor::DefActor;
use glitchfree::expr::{BinOp, Expr, UnOp};
use glitchfree::names::NameMap;

fn num(val: i64) -> Expr {
    Expr::Number { val }
}

fn truth(val: bool) -> Expr {
    Expr::Bool { val }
}

fn var(ident: &str) -> Expr {
    Expr::Variable { ident: ident.to_string() }
}

fn binop(op: BinOp, left: Expr, right: Expr) -> Expr {
    Expr::Binop { op, expr1: Box::new(left), expr2: Box::new(right) }
}

fn unop(op: UnOp, operand: Expr) -> Expr {
    Expr::Unop { op, expr: Box::new(operand) }
}

fn evaluator() -> DefActor<u32> {
    DefActor::new(
        "n".to_string(),
        num(0),
        num(0),
        NameMap::new(),
        NameMap::new(),
        false,
        0u32,
    )
}

#[test]
fn addition_of_two_numbers_folds() {
    let node = evaluator();
    assert_eq!(node.eval_binop(&BinOp::Add, &num(2), &num(3)), num(5));
}

#[test]
fn subtraction_and_multiplication_fold() {
    let node = evaluator();
    assert_eq!(node.eval_binop(&BinOp::Sub, &num(2), &num(3)), num(-1));
    assert_eq!(node.eval_binop(&BinOp::Mul, &num(-4), &num(6)), num(-24));
}

#[test]
fn conjunction_of_true_and_false_is_false() {
    let node = evaluator();
    assert_eq!(node.eval_binop(&BinOp::And, &truth(true), &truth(false)), truth(false));
}

#[test]
fn disjunction_and_equality_of_truth_values_fold() {
    let node = evaluator();
    assert_eq!(node.eval_binop(&BinOp::Or, &truth(true), &truth(false)), truth(true));
    assert_eq!(node.eval_binop(&BinOp::Or, &truth(false), &truth(false)), truth(false));
    assert_eq!(node.eval_binop(&BinOp::Eq, &truth(false), &truth(false)), truth(true));
    assert_eq!(node.eval_binop(&BinOp::Eq, &truth(true), &truth(false)), truth(false));
    assert_eq!(node.eval_binop(&BinOp::And, &truth(true), &truth(true)), truth(true));
}

#[test]
fn division_by_zero_stays_a_division() {
    let node = evaluator();
    assert_eq!(
        node.eval_binop(&BinOp::Div, &num(5), &num(0)),
        binop(BinOp::Div, num(5), num(0))
    );
}

#[test]
fn division_rounds_toward_zero() {
    let node = evaluator();
    assert_eq!(node.eval_binop(&BinOp::Div, &num(7), &num(2)), num(3));
    assert_eq!(node.eval_binop(&BinOp::Div, &num(-7), &num(2)), num(-3));
    assert_eq!(node.eval_binop(&BinOp::Div, &num(7), &num(-2)), num(-3));
    assert_eq!(node.eval_binop(&BinOp::Div, &num(-7), &num(-2)), num(3));
    assert_eq!(node.eval_binop(&BinOp::Div, &num(0), &num(-2)), num(0));
}

#[test]
fn comparisons_of_numbers_fold_to_truth_values() {
    let node = evaluator();
    assert_eq!(node.eval_binop(&BinOp::Eq, &num(4), &num(4)), truth(true));
    assert_eq!(node.eval_binop(&BinOp::Eq, &num(4), &num(5)), truth(false));
    assert_eq!(node.eval_binop(&BinOp::Lt, &num(4), &num(5)), truth(true));
    assert_eq!(node.eval_binop(&BinOp::Lt, &num(5), &num(5)), truth(false));
    assert_eq!(node.eval_binop(&BinOp::Gt, &num(6), &num(5)), truth(true));
    assert_eq!(node.eval_binop(&BinOp::Gt, &num(5), &num(6)), truth(false));
}

#[test]
fn results_out_of_range_stay_unreduced() {
    let node = evaluator();
    assert_eq!(
        node.eval_binop(&BinOp::Add, &num(i64::MAX), &num(1)),
        binop(BinOp::Add, num(i64::MAX), num(1))
    );
    assert_eq!(
        node.eval_binop(&BinOp::Sub, &num(i64::MIN), &num(1)),
        binop(BinOp::Sub, num(i64::MIN), num(1))
    );
    assert_eq!(
        node.eval_binop(&BinOp::Mul, &num(i64::MAX), &num(2)),
        binop(BinOp::Mul, num(i64::MAX), num(2))
    );
    assert_eq!(
        node.eval_binop(&BinOp::Div, &num(i64::MIN), &num(-1)),
        binop(BinOp::Div, num(i64::MIN), num(-1))
    );
    assert_eq!(node.eval_unop(&UnOp::Neg, &num(i64::MIN)), unop(UnOp::Neg, num(i64::MIN)));
}

#[test]
fn largest_results_in_range_fold() {
    let node = evaluator();
    assert_eq!(node.eval_binop(&BinOp::Add, &num(i64::MAX - 1), &num(1)), num(i64::MAX));
    assert_eq!(node.eval_binop(&BinOp::Sub, &num(i64::MIN + 1), &num(1)), num(i64::MIN));
    assert_eq!(node.eval_unop(&UnOp::Neg, &num(i64::MAX)), num(i64::MIN + 1));
}

#[test]
fn operators_that_do_not_apply_stay_unreduced() {
    let node = evaluator();
    assert_eq!(
        node.eval_binop(&BinOp::And, &num(1), &num(2)),
        binop(BinOp::And, num(1), num(2))
    );
    assert_eq!(
        node.eval_binop(&BinOp::Or, &num(1), &num(2)),
        binop(BinOp::Or, num(1), num(2))
    );
    assert_eq!(
        node.eval_binop(&BinOp::Add, &truth(true), &truth(false)),
        binop(BinOp::Add, truth(true), truth(false))
    );
    assert_eq!(
        node.eval_binop(&BinOp::Lt, &truth(true), &truth(false)),
        binop(BinOp::Lt, truth(true), truth(false))
    );
}

#[test]
fn operands_of_different_kinds_stay_unreduced() {
    let node = evaluator();
    assert_eq!(
        node.eval_binop(&BinOp::Add, &num(1), &truth(true)),
        binop(BinOp::Add, num(1), truth(true))
    );
    assert_eq!(
        node.eval_binop(&BinOp::Eq, &truth(true), &num(1)),
        binop(BinOp::Eq, truth(true), num(1))
    );
    assert_eq!(
        node.eval_binop(&BinOp::Add, &var("x"), &num(1)),
        binop(BinOp::Add, var("x"), num(1))
    );
}

#[test]
fn negating_four_gives_minus_four() {
    let node = evaluator();
    assert_eq!(node.eval_unop(&UnOp::Neg, &num(4)), num(-4));
    assert_eq!(node.eval_unop(&UnOp::Neg, &num(-4)), num(4));
    assert_eq!(node.eval_unop(&UnOp::Neg, &num(0)), num(0));
}

#[test]
fn not_folds_on_truth_values() {
    let node = evaluator();
    assert_eq!(node.eval_unop(&UnOp::Not, &truth(true)), truth(false));
    assert_eq!(node.eval_unop(&UnOp::Not, &truth(false)), truth(true));
}

#[test]
fn unary_operators_that_do_not_apply_stay_unreduced() {
    let node = evaluator();
    assert_eq!(node.eval_unop(&UnOp::Not, &num(1)), unop(UnOp::Not, num(1)));
    assert_eq!(node.eval_unop(&UnOp::Neg, &truth(true)), unop(UnOp::Neg, truth(true)));
    assert_eq!(node.eval_unop(&UnOp::Neg, &var("x")), unop(UnOp::Neg, var("x")));
}

#[test]
fn bound_variable_is_replaced_and_unbound_stays() {
    let node = evaluator();
    let mut subst: NameMap<Expr> = NameMap::new();
    subst.insert("a".to_string(), num(2));
    assert_eq!(node.substitute_expr(&var("a"), &subst), num(2));
    assert_eq!(node.substitute_expr(&var("b"), &subst), var("b"));
}

#[test]
fn substitution_folds_nested_operations() {
    let node = evaluator();
    let mut subst: NameMap<Expr> = NameMap::new();
    subst.insert("a".to_string(), num(2));
    subst.insert("b".to_string(), num(3));
    let sum = binop(BinOp::Add, var("a"), var("b"));
    assert_eq!(node.substitute_expr(&sum, &subst), num(5));
    let nested = binop(
        BinOp::Lt,
        binop(BinOp::Mul, var("a"), var("b")),
        unop(UnOp::Neg, binop(BinOp::Sub, var("a"), num(10))),
    );
    assert_eq!(node.substitute_expr(&nested, &subst), truth(true));
}

#[test]
fn substitution_reduces_what_it_can() {
    let node = evaluator();
    let mut subst: NameMap<Expr> = NameMap::new();
    subst.insert("a".to_string(), num(2));
    let partly = binop(BinOp::Mul, binop(BinOp::Add, var("a"), num(3)), var("x"));
    assert_eq!(node.substitute_expr(&partly, &subst), binop(BinOp::Mul, num(5), var("x")));
    let around_zero = binop(BinOp::Add, binop(BinOp::Div, var("a"), num(0)), num(1));
    assert_eq!(
        node.substitute_expr(&around_zero, &subst),
        binop(BinOp::Add, binop(BinOp::Div, num(2), num(0)), num(1))
    );
}

#[test]
fn other_forms_are_returned_unchanged() {
    let node = evaluator();
    let mut subst: NameMap<Expr> = NameMap::new();
    subst.insert("a".to_string(), num(2));
    let cond = Expr::Cond {
        test: Box::new(var("a")),
        on_true: Box::new(binop(BinOp::Add, num(1), num(1))),
        on_false: Box::new(num(0)),
    };
    let same = Expr::Cond {
        test: Box::new(var("a")),
        on_true: Box::new(binop(BinOp::Add, num(1), num(1))),
        on_false: Box::new(num(0)),
    };
    assert_eq!(node.substitute_expr(&cond, &subst), same);
    assert_eq!(node.substitute_expr(&num(9), &subst), num(9));
    assert_eq!(node.substitute_expr(&truth(true), &subst), truth(true));
}

#[test]
fn substituted_value_may_be_any_expression() {
    let node = evaluator();
    let mut subst: NameMap<Expr> = NameMap::new();
    subst.insert("a".to_string(), var("z"));
    let sum = binop(BinOp::Add, var("a"), num(1));
    assert_eq!(node.substitute_expr(&sum, &subst), binop(BinOp::Add, var("z"), num(1)));
}

#[test]
fn clone_of_an_expression_equals_it() {
    let e = binop(BinOp::Add, var("a"), unop(UnOp::Not, truth(true)));
    assert_eq!(e.clone(), e);
}
