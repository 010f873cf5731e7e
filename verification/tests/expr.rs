use lambda_reducers::expr::{ArithBinaryOp, ArithExpr, ListFold, ListMapSequence, VariableExpr};
use lambda_reducers::strategy::Strategy;
use lambda_reducers::tree::Tree;

fn ev(x: usize) -> Tree {
    Tree::Var(x)
}

fn el(x: usize, body: Tree) -> Tree {
    Tree::Abs(x, Box::new(body))
}

fn ea(f: Tree, x: Tree) -> Tree {
    Tree::App(Box::new(f), Box::new(x))
}

fn num(n: u64) -> ArithExpr {
    ArithExpr::Numeral(n)
}

fn op(o: ArithBinaryOp, l: ArithExpr, r: ArithExpr) -> ArithExpr {
    ArithExpr::Op(o, Box::new(l), Box::new(r))
}

fn vop(o: ArithBinaryOp, l: VariableExpr, r: VariableExpr) -> VariableExpr {
    VariableExpr::Op(o, Box::new(l), Box::new(r))
}

fn plus_vars() -> VariableExpr {
    vop(ArithBinaryOp::Add, VariableExpr::Var1, VariableExpr::Var2)
}

fn successor() -> VariableExpr {
    vop(ArithBinaryOp::Add, VariableExpr::Var1, VariableExpr::Numeral(1))
}

fn normal_value(tree: &Tree) -> Option<u64> {
    let mut engine = Tree::Var(0);
    engine.build(tree);
    engine.reduce()
}

fn arith_depth(e: &ArithExpr) -> Option<usize> {
    match e {
        ArithExpr::Numeral(n) => {
            if *n < 2 {
                Some(0)
            } else {
                None
            }
        }
        ArithExpr::Op(ArithBinaryOp::Add, l, r) => {
            let (a, b) = (arith_depth(l)?, arith_depth(r)?);
            if a == b {
                Some(a + 1)
            } else {
                None
            }
        }
        _ => None,
    }
}

fn variable_depth(e: &VariableExpr, vars: usize) -> Option<usize> {
    match e {
        VariableExpr::Numeral(n) => {
            if *n < 2 {
                Some(0)
            } else {
                None
            }
        }
        VariableExpr::Var1 => {
            if vars >= 1 {
                Some(0)
            } else {
                None
            }
        }
        VariableExpr::Var2 => {
            if vars >= 2 {
                Some(0)
            } else {
                None
            }
        }
        VariableExpr::Op(ArithBinaryOp::Add, l, r) => {
            let (a, b) = (variable_depth(l, vars)?, variable_depth(r, vars)?);
            if a == b {
                Some(a + 1)
            } else {
                None
            }
        }
        _ => None,
    }
}

#[test]
fn operation_for_a_draw() {
    assert_eq!(ArithBinaryOp::from_choice(0), ArithBinaryOp::Add);
    assert_eq!(ArithBinaryOp::from_choice(100), ArithBinaryOp::Add);
    assert_eq!(ArithBinaryOp::from_choice(101), ArithBinaryOp::Mul);
    for _ in 0..50 {
        assert_eq!(ArithBinaryOp::gen(), ArithBinaryOp::Add);
    }
}

#[test]
fn operations_apply_with_overflow_check() {
    assert_eq!(ArithBinaryOp::Add.apply(3, 4), Some(7));
    assert_eq!(ArithBinaryOp::Mul.apply(3, 4), Some(12));
    assert_eq!(ArithBinaryOp::Add.apply(u64::MAX, 1), None);
    assert_eq!(ArithBinaryOp::Mul.apply(u64::MAX, 2), None);
    assert_eq!(ArithBinaryOp::Mul.apply(u64::MAX, 1), Some(u64::MAX));
}

#[test]
fn arith_eval_adds_and_multiplies() {
    assert_eq!(num(5).eval(), 5);
    assert_eq!(op(ArithBinaryOp::Add, num(1), num(1)).eval(), 2);
    assert_eq!(op(ArithBinaryOp::Mul, num(2), num(3)).eval(), 6);
    let nested = op(ArithBinaryOp::Mul, op(ArithBinaryOp::Add, num(2), num(3)), num(4));
    assert_eq!(nested.eval(), 20);
    assert_eq!(nested.checked_eval(), Some(20));
}

#[test]
fn arith_checked_eval_reports_overflow() {
    assert_eq!(op(ArithBinaryOp::Add, num(u64::MAX), num(1)).checked_eval(), None);
    let hidden = op(ArithBinaryOp::Mul, op(ArithBinaryOp::Add, num(u64::MAX), num(1)), num(0));
    assert_eq!(hidden.checked_eval(), None);
}

#[test]
fn arith_gen_simple_is_zero() {
    assert_eq!(ArithExpr::gen_simple(), num(0));
}

#[test]
fn arith_leaf_is_the_parity_of_the_draw() {
    assert_eq!(ArithExpr::leaf(0), num(0));
    assert_eq!(ArithExpr::leaf(7), num(1));
    assert_eq!(ArithExpr::leaf(u64::MAX), num(1));
}

#[test]
fn arith_gen_makes_full_trees_of_additions() {
    for depth in 0..5 {
        for _ in 0..10 {
            let e = ArithExpr::gen(depth);
            assert_eq!(arith_depth(&e), Some(depth));
            assert!(e.eval() <= 1 << depth);
        }
    }
}

#[test]
fn arith_elab_of_a_numeral_is_a_church_numeral() {
    let mut id = 10;
    let tree = num(2).elab(&mut id);
    assert_eq!(id, 12);
    assert_eq!(tree, el(11, el(12, ea(ev(11), ea(ev(11), ev(12))))));
    let mut id = 0;
    assert_eq!(num(0).elab(&mut id), el(1, el(2, ev(2))));
}

#[test]
fn arith_elab_of_a_sum() {
    let mut id = 0;
    let tree = op(ArithBinaryOp::Add, num(1), num(0)).elab(&mut id);
    assert_eq!(id, 8);
    let add = el(1, el(2, el(3, el(4, ea(ea(ev(1), ev(3)), ea(ea(ev(2), ev(3)), ev(4)))))));
    let one = el(5, el(6, ea(ev(5), ev(6))));
    let zero = el(7, el(8, ev(8)));
    assert_eq!(tree, ea(ea(add, one), zero));
}

#[test]
fn arith_elab_of_a_product() {
    let mut id = 3;
    let tree = op(ArithBinaryOp::Mul, num(0), num(0)).elab(&mut id);
    assert_eq!(id, 10);
    let mul = el(4, el(5, el(6, ea(ev(4), ea(ev(5), ev(6))))));
    assert_eq!(tree, ea(ea(mul, el(7, el(8, ev(8)))), el(9, el(10, ev(10)))));
}

#[test]
fn arith_count_names_matches_elab() {
    let e = op(ArithBinaryOp::Mul, op(ArithBinaryOp::Add, num(2), num(3)), num(4));
    assert_eq!(e.count_names(), Some(13));
    let mut id = 0;
    e.elab(&mut id);
    assert_eq!(id, 13);
}

#[test]
fn arith_terms_reduce_to_their_values() {
    let cases = vec![
        op(ArithBinaryOp::Add, num(1), num(1)),
        op(ArithBinaryOp::Mul, num(2), num(3)),
        op(ArithBinaryOp::Add, op(ArithBinaryOp::Mul, num(2), num(2)), num(3)),
        op(ArithBinaryOp::Mul, num(0), num(5)),
    ];
    for e in cases {
        let mut id = 0;
        assert_eq!(normal_value(&e.elab(&mut id)), Some(e.eval()));
    }
}

#[test]
fn variable_eval_uses_both_variables() {
    assert_eq!(VariableExpr::Var1.eval(3, 4), 3);
    assert_eq!(VariableExpr::Var2.eval(3, 4), 4);
    assert_eq!(VariableExpr::Numeral(9).eval(3, 4), 9);
    assert_eq!(plus_vars().eval(3, 4), 7);
    assert_eq!(vop(ArithBinaryOp::Mul, plus_vars(), VariableExpr::Var1).eval(3, 4), 21);
    assert_eq!(plus_vars().checked_eval(u64::MAX, 1), None);
}

#[test]
fn variable_leaf_picks_among_what_is_allowed() {
    assert_eq!(VariableExpr::leaf(5, 3, 0), VariableExpr::Numeral(1));
    assert_eq!(VariableExpr::leaf(4, 2, 1), VariableExpr::Numeral(0));
    assert_eq!(VariableExpr::leaf(5, 2, 1), VariableExpr::Var1);
    assert_eq!(VariableExpr::leaf(3, 1, 2), VariableExpr::Numeral(1));
    assert_eq!(VariableExpr::leaf(4, 1, 2), VariableExpr::Var1);
    assert_eq!(VariableExpr::leaf(5, 1, 2), VariableExpr::Var2);
}

#[test]
fn variable_gen_makes_full_trees_on_the_variables_allowed() {
    for vars in 0..3 {
        for depth in 0..4 {
            for _ in 0..10 {
                let e = VariableExpr::gen(depth, vars);
                assert_eq!(variable_depth(&e, vars), Some(depth));
            }
        }
    }
}

#[test]
fn variable_elab_binds_as_many_variables_as_asked() {
    let mut id = 0;
    assert_eq!(plus_vars().count_body_names(), Some(4));
    let two = plus_vars().elab(2, &mut id);
    assert_eq!(id, 6);
    let add = el(3, el(4, el(5, el(6, ea(ea(ev(3), ev(5)), ea(ea(ev(4), ev(5)), ev(6)))))));
    assert_eq!(two, el(1, el(2, ea(ea(add, ev(1)), ev(2)))));
    let mut id = 10;
    let one = VariableExpr::Var1.elab(1, &mut id);
    assert_eq!(id, 11);
    assert_eq!(one, el(11, ev(11)));
    let mut id = 10;
    let none = VariableExpr::Numeral(0).elab(0, &mut id);
    assert_eq!(id, 12);
    assert_eq!(none, el(11, el(12, ev(12))));
}

#[test]
fn variable_elab_helper_uses_the_names_given() {
    let mut id = 20;
    let body = successor().elab_helper(7, 8, &mut id);
    assert_eq!(id, 26);
    let add = el(21, el(22, el(23, el(24, ea(ea(ev(21), ev(23)), ea(ea(ev(22), ev(23)), ev(24)))))));
    assert_eq!(body, ea(ea(add, ev(7)), el(25, el(26, ea(ev(25), ev(26))))));
}

#[test]
fn list_eval_applies_the_maps_in_order() {
    let double = vop(ArithBinaryOp::Add, VariableExpr::Var1, VariableExpr::Var1);
    let list = ListMapSequence::MapSeq(vec![successor(), double], vec![num(0), num(1), num(5)]);
    assert_eq!(list.eval(), vec![2, 4, 12]);
    let plain = ListMapSequence::MapSeq(vec![], vec![num(3), num(4)]);
    assert_eq!(plain.eval(), vec![3, 4]);
    let none = ListMapSequence::MapSeq(vec![successor()], vec![]);
    assert_eq!(none.eval(), Vec::<u64>::new());
}

#[test]
fn list_eval_gives_zero_for_the_second_variable() {
    let list = ListMapSequence::MapSeq(vec![plus_vars()], vec![num(3)]);
    assert_eq!(list.eval(), vec![3]);
}

#[test]
fn list_checked_eval_reports_overflow() {
    let list = ListMapSequence::MapSeq(vec![successor()], vec![num(1), num(u64::MAX)]);
    assert_eq!(list.checked_eval(), None);
    let item = ListMapSequence::MapSeq(vec![], vec![op(ArithBinaryOp::Add, num(u64::MAX), num(1))]);
    assert_eq!(item.checked_eval(), None);
}

#[test]
fn list_gen_has_the_lengths_asked_for() {
    match ListMapSequence::gen(3, 4) {
        ListMapSequence::MapSeq(ops, items) => {
            assert_eq!(ops.len(), 3);
            assert_eq!(items.len(), 4);
            for o in ops.iter() {
                assert_eq!(variable_depth(o, 1), Some(2));
            }
            for i in items.iter() {
                assert_eq!(arith_depth(i), Some(3));
            }
        }
    }
}

#[test]
fn list_elab_map_is_the_map_combinator() {
    let list = ListMapSequence::MapSeq(vec![], vec![]);
    let mut id = 0;
    let tree = list.elab_map(&mut id);
    assert_eq!(id, 5);
    let inner = el(5, ea(ev(3), ea(ev(1), ev(5))));
    assert_eq!(tree, el(1, el(2, el(3, el(4, ea(ea(ev(2), inner), ev(4)))))));
}

#[test]
fn list_elab_list_names_the_items_from_the_last() {
    let list = ListMapSequence::MapSeq(vec![], vec![num(0), num(1)]);
    let mut id = 0;
    let tree = list.elab_list(&mut id);
    assert_eq!(id, 6);
    let first = el(5, el(6, ev(6)));
    let second = el(3, el(4, ea(ev(3), ev(4))));
    let chain = ea(ea(ev(2), first), ea(ea(ev(2), second), ev(1)));
    assert_eq!(tree, el(2, el(1, chain)));
}

#[test]
fn list_elab_applies_each_map() {
    let list = ListMapSequence::MapSeq(vec![VariableExpr::Var1], vec![]);
    let mut id = 0;
    let tree = list.elab(&mut id);
    assert_eq!(id, 8);
    let nil = el(2, el(1, ev(1)));
    let inner = el(7, ea(ev(5), ea(ev(3), ev(7))));
    let map = el(3, el(4, el(5, el(6, ea(ea(ev(4), inner), ev(6))))));
    assert_eq!(tree, ea(ea(map, el(8, ev(8))), nil));
}

#[test]
fn fold_eval_sums_the_mapped_list() {
    let fold = ListFold::Fold(
        plus_vars(),
        num(0),
        ListMapSequence::MapSeq(vec![successor()], vec![num(0), num(0), num(0)]),
    );
    assert_eq!(fold.eval(), 3);
    let longer = ListFold::Fold(
        plus_vars(),
        num(0),
        ListMapSequence::MapSeq(
            vec![successor(), VariableExpr::Var1],
            vec![num(0), num(0), num(0), num(0), num(0)],
        ),
    );
    assert_eq!(longer.eval(), 5);
}

#[test]
fn fold_eval_goes_from_the_left_with_the_item_first() {
    // op(item, gathered) = item * 2 + gathered * gathered ... kept small:
    // gathered' = item + gathered * 2
    let step = vop(
        ArithBinaryOp::Add,
        VariableExpr::Var1,
        vop(ArithBinaryOp::Mul, VariableExpr::Var2, VariableExpr::Numeral(2)),
    );
    let fold = ListFold::Fold(step, num(1), ListMapSequence::MapSeq(vec![], vec![num(3), num(4)]));
    // ((1 * 2 + 3) * 2 + 4) = 14
    assert_eq!(fold.eval(), 14);
    assert_eq!(fold.checked_eval(), Some(14));
}

#[test]
fn fold_checked_eval_reports_overflow() {
    let fold = ListFold::Fold(
        plus_vars(),
        num(u64::MAX),
        ListMapSequence::MapSeq(vec![], vec![num(1)]),
    );
    assert_eq!(fold.checked_eval(), None);
}

#[test]
fn fold_gen_simple_is_the_empty_sum() {
    let fold = ListFold::gen_simple();
    assert_eq!(fold, ListFold::Fold(plus_vars(), num(0), ListMapSequence::MapSeq(vec![], vec![])));
    assert_eq!(fold.eval(), 0);
}

#[test]
fn fold_gen_folds_the_sum() {
    match ListFold::gen(2, 3) {
        ListFold::Fold(o, init, ListMapSequence::MapSeq(ops, items)) => {
            assert_eq!(o, plus_vars());
            assert_eq!(arith_depth(&init), Some(2));
            assert_eq!(ops.len(), 2);
            assert_eq!(items.len(), 3);
        }
    }
}

#[test]
fn fold_elab_fold_is_the_fold_combinator() {
    let fold = ListFold::gen_simple();
    let mut id = 0;
    let tree = fold.elab_fold(&mut id);
    assert_eq!(id, 4);
    let inner = el(4, ea(ev(1), ev(4)));
    assert_eq!(tree, el(1, el(2, el(3, ea(ea(ev(3), inner), ev(2))))));
}

#[test]
fn fold_elab_takes_names_in_order() {
    let fold = ListFold::gen_simple();
    let mut id = 0;
    let tree = fold.elab(&mut id);
    // 4 for the fold, 2 + 4 for the sum, 2 for zero, 2 for the list
    assert_eq!(id, 14);
    assert_eq!(Tree::find_largest_var(&tree), 14);
    assert_eq!(normal_value(&tree), Some(0));
}

#[test]
fn fold_count_names_matches_elab() {
    let fold = ListFold::Fold(
        plus_vars(),
        num(3),
        ListMapSequence::MapSeq(vec![successor(), VariableExpr::Var1], vec![num(0), num(7)]),
    );
    // fold 4; sum 2 + 4; start 2; list 2 + 2 + 2; stages (5 + 1 + 6) + (5 + 1)
    assert_eq!(fold.count_names(), Some(36));
    let mut id = 5;
    fold.elab(&mut id);
    assert_eq!(id, 41);
    match fold {
        ListFold::Fold(_, _, list) => {
            assert_eq!(list.count_names(), Some(24));
            let mut id = 0;
            list.elab(&mut id);
            assert_eq!(id, 24);
        }
    }
}

#[test]
fn generated_folds_reduce_to_their_values() {
    for (depth, len) in [(0, 0), (0, 3), (1, 1), (1, 2), (1, 4), (2, 2)] {
        let fold = ListFold::gen(depth, len);
        let mut id = 0;
        let tree = fold.elab(&mut id);
        assert_eq!(normal_value(&tree), Some(fold.eval()));
    }
}

fn closed_without_shadowing(tree: &Tree, scope: &mut Vec<usize>) -> bool {
    match tree {
        Tree::Var(x) => scope.contains(x),
        Tree::Abs(x, body) => {
            if scope.contains(x) {
                return false;
            }
            scope.push(*x);
            let ok = closed_without_shadowing(body, scope);
            scope.pop();
            ok
        }
        Tree::App(l, r) => closed_without_shadowing(l, scope) && closed_without_shadowing(r, scope),
    }
}

#[test]
fn generated_terms_are_closed_and_name_each_binder_freshly() {
    for (depth, len) in [(0, 0), (0, 2), (1, 3), (2, 2), (3, 1)] {
        let fold = ListFold::gen(depth, len);
        let mut id = 7;
        let tree = fold.elab(&mut id);
        assert!(closed_without_shadowing(&tree, &mut vec![]));
        assert_eq!(Tree::find_largest_var(&tree), id);
    }
    let open = VariableExpr::Var2.elab(1, &mut 0);
    assert!(!closed_without_shadowing(&open, &mut vec![]));
}
