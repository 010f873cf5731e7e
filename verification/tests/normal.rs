use lambda_reducers::normal::UNBOUND;
use lambda_reducers::strategy::Strategy;
use lambda_reducers::tree::Tree;

fn nv(x: usize) -> Tree {
    Tree::Var(x)
}

fn nl(x: usize, body: Tree) -> Tree {
    Tree::Abs(x, Box::new(body))
}

fn na(f: Tree, x: Tree) -> Tree {
    Tree::App(Box::new(f), Box::new(x))
}

fn numeral(n: u64, f: usize, x: usize) -> Tree {
    let mut body = nv(x);
    for _ in 0..n {
        body = na(nv(f), body);
    }
    nl(f, nl(x, body))
}

#[test]
fn fix_indices_counts_the_binders_in_between() {
    let t = nl(1, nl(2, na(nv(1), nv(2))));
    assert_eq!(Tree::fix_indices(t), nl(1, nl(2, na(nv(1), nv(0)))));
    let k = nl(10, nl(20, nl(30, nv(10))));
    assert_eq!(Tree::fix_indices(k), nl(10, nl(20, nl(30, nv(2)))));
}

#[test]
fn fix_indices_takes_the_innermost_binder_of_a_name() {
    let t = nl(1, nl(1, nv(1)));
    assert_eq!(Tree::fix_indices(t), nl(1, nl(1, nv(0))));
    let u = nl(1, na(nl(1, nv(1)), nv(1)));
    assert_eq!(Tree::fix_indices(u), nl(1, na(nl(1, nv(0)), nv(0))));
}

#[test]
fn fix_indices_marks_unbound_variables() {
    assert_eq!(UNBOUND, 100);
    assert_eq!(Tree::fix_indices(nv(7)), nv(100));
    assert_eq!(Tree::fix_indices(nl(1, nv(2))), nl(1, nv(100)));
    let out_of_scope = na(nl(1, nv(1)), nv(1));
    assert_eq!(Tree::fix_indices(out_of_scope), na(nl(1, nv(0)), nv(100)));
}

#[test]
fn fix_indices_twice_is_the_same_where_indices_resolve_to_themselves() {
    let t = nl(5, nl(7, nv(9)));
    let once = Tree::fix_indices(t);
    assert_eq!(Tree::fix_indices(once.clone()), once);
    let u = nl(1, nl(0, na(nv(0), nv(1))));
    let once = Tree::fix_indices(u);
    assert_eq!(once, nl(1, nl(0, na(nv(0), nv(1)))));
    assert_eq!(Tree::fix_indices(once.clone()), once);
}

#[test]
fn fix_indices_twice_differs_where_an_index_is_no_name_in_scope() {
    let zero = nl(1, nl(2, nv(2)));
    let once = Tree::fix_indices(zero);
    assert_eq!(once, nl(1, nl(2, nv(0))));
    assert_eq!(Tree::fix_indices(once), nl(1, nl(2, nv(100))));
}

#[test]
fn is_normal_finds_a_redex_anywhere() {
    assert!(nv(0).is_normal());
    assert!(nl(1, na(nv(0), nv(0))).is_normal());
    assert!(!na(nl(1, nv(0)), nv(3)).is_normal());
    assert!(!nl(1, na(nv(0), na(nl(2, nv(0)), nv(0)))).is_normal());
    assert!(!na(na(nv(1), nl(2, na(nl(3, nv(0)), nv(0)))), nv(0)).is_normal());
}

#[test]
fn reduce_contracts_the_identity_applied_to_zero() {
    let term = Tree::fix_indices(na(nl(3, nv(3)), numeral(0, 1, 2)));
    assert_eq!(Tree::reduce(term), nl(1, nl(2, nv(0))));
}

#[test]
fn reduce_shifts_free_indices_of_the_argument() {
    // (\.\. 1) 5  ->  \. 6
    let term = na(nl(1, nl(2, nv(1))), nv(5));
    assert_eq!(Tree::reduce(term), nl(2, nv(6)));
}

#[test]
fn reduce_lowers_free_indices_of_the_body() {
    // (\. 3) 0  ->  2
    let term = na(nl(1, nv(3)), nv(0));
    assert_eq!(Tree::reduce(term), nv(2));
}

#[test]
fn reduce_leaves_a_normal_form_as_it_is() {
    let two = Tree::fix_indices(numeral(2, 1, 2));
    assert_eq!(Tree::reduce(two.clone()), two);
    assert_eq!(Tree::reduce(Tree::reduce(two.clone())), two);
}

#[test]
fn reduce_within_stops_when_the_passes_are_used_up() {
    // (\x. x x) (\x. x x) steps to itself for ever.
    let omega = Tree::fix_indices(na(nl(1, na(nv(1), nv(1))), nl(2, na(nv(2), nv(2)))));
    let after = Tree::reduce_within(omega.clone(), 50);
    assert!(!after.is_normal());
    assert_eq!(after, na(nl(2, na(nv(0), nv(0))), nl(2, na(nv(0), nv(0)))));
    assert_eq!(Tree::reduce_within(omega.clone(), 0), omega);
}

#[test]
fn reduce_gives_up_where_an_index_leaves_the_range() {
    // The argument holds the largest index there is, and cannot be shifted up.
    let term = na(nl(1, nv(0)), nv(usize::MAX));
    assert_eq!(Tree::reduce(term.clone()), term);
}

#[test]
fn normal_engine_reads_the_identity_applied_to_zero() {
    let mut engine = Tree::Var(0);
    engine.build(&na(nl(3, nv(3)), numeral(0, 1, 2)));
    assert_eq!(engine.reduce(), Some(0));
}

#[test]
fn normal_engine_applies_two_to_the_identity() {
    let term = na(na(numeral(2, 1, 2), nl(3, nv(3))), numeral(0, 4, 5));
    let mut engine = Tree::Var(0);
    engine.build(&term);
    assert_eq!(engine.reduce(), Some(0));
}

#[test]
fn normal_engine_gives_the_same_value_when_run_again() {
    let term = na(na(numeral(2, 1, 2), numeral(3, 3, 4)), nl(5, nv(5)));
    let mut engine = Tree::Var(0);
    engine.build(&term);
    let first = engine.reduce();
    let again = engine.reduce();
    engine.build(&term);
    let rebuilt = engine.reduce();
    assert_eq!(first, again);
    assert_eq!(first, rebuilt);
}

#[test]
fn normal_engine_forgets_the_term_before() {
    let mut used = Tree::Var(0);
    used.build(&numeral(7, 1, 2));
    assert_eq!(used.reduce(), Some(7));
    used.build(&numeral(3, 1, 2));
    let mut fresh = Tree::Var(0);
    fresh.build(&numeral(3, 1, 2));
    assert_eq!(used, fresh);
    assert_eq!(used.reduce(), Some(3));
}

#[test]
fn normal_engine_reports_no_numeral_as_none() {
    let mut engine = Tree::Var(0);
    engine.build(&nl(1, nv(1)));
    assert_eq!(engine.reduce(), None);
    assert_eq!(engine.name(), "de bruijn indices normal order");
}

#[test]
fn normal_engine_reads_every_numeral_as_its_number() {
    for n in [0u64, 1, 2, 3, 10, 57] {
        let mut engine = Tree::Var(0);
        engine.build(&numeral(n, 4, 9));
        assert_eq!(engine.reduce(), Some(n));
        engine.build(&numeral(n, 6, 6));
        assert_eq!(engine.reduce(), Some(n));
    }
}
