use lambda_reducers::cek::Machine;
use lambda_reducers::dag::Dag;
use lambda_reducers::expr::{ArithBinaryOp, ArithExpr, ListFold, ListMapSequence, VariableExpr};
use lambda_reducers::hoas::Hoas;
use lambda_reducers::optimal::Net;
use lambda_reducers::strategy::{Strategy, STEP_LIMIT};
use lambda_reducers::tree::Tree;

fn sv(x: usize) -> Tree {
    Tree::Var(x)
}

fn sl(x: usize, body: Tree) -> Tree {
    Tree::Abs(x, Box::new(body))
}

fn sa(f: Tree, x: Tree) -> Tree {
    Tree::App(Box::new(f), Box::new(x))
}

fn literal(n: u64) -> ArithExpr {
    ArithExpr::Numeral(n)
}

fn fold_of(maps: Vec<VariableExpr>, len: usize) -> ListFold {
    let sum = VariableExpr::Op(
        ArithBinaryOp::Add,
        Box::new(VariableExpr::Var1),
        Box::new(VariableExpr::Var2),
    );
    let mut items = vec![];
    for _ in 0..len {
        items.push(literal(0));
    }
    ListFold::Fold(sum, literal(0), ListMapSequence::MapSeq(maps, items))
}

fn plus_one() -> VariableExpr {
    VariableExpr::Op(
        ArithBinaryOp::Add,
        Box::new(VariableExpr::Var1),
        Box::new(VariableExpr::Numeral(1)),
    )
}

fn identity_on_zero() -> Tree {
    let mut id = 1;
    let zero = literal(0).elab(&mut id);
    sa(sl(1, sv(1)), zero)
}

fn one_plus_one() -> Tree {
    let mut id = 0;
    ArithExpr::Op(ArithBinaryOp::Add, Box::new(literal(1)), Box::new(literal(1))).elab(&mut id)
}

fn fold_of_three() -> Tree {
    let mut id = 0;
    fold_of(vec![plus_one()], 3).elab(&mut id)
}

fn two_times_three() -> Tree {
    let mut id = 0;
    ArithExpr::Op(ArithBinaryOp::Mul, Box::new(literal(2)), Box::new(literal(3))).elab(&mut id)
}

fn two_on_identity_and_zero() -> Tree {
    let mut id = 0;
    let two = literal(2).elab(&mut id);
    let zero = literal(0).elab(&mut id);
    sa(sa(two, sl(9, sv(9))), zero)
}

fn fold_of_five() -> Tree {
    let mut id = 0;
    fold_of(vec![plus_one(), VariableExpr::Var1], 5).elab(&mut id)
}

fn run(engine: &mut dyn Strategy, tree: &Tree) -> Option<u64> {
    engine.build(tree);
    engine.reduce()
}

fn engines() -> Vec<Box<dyn Strategy>> {
    vec![
        Box::new(Tree::Var(0)),
        Box::new(Machine::new()),
        Box::new(Hoas::new()),
        Box::new(Net::new()),
        Box::new(Dag::new()),
    ]
}

#[test]
fn step_limit_is_the_largest_count() {
    assert_eq!(STEP_LIMIT, u64::MAX);
}

#[test]
fn engines_are_named() {
    let names: Vec<String> = engines().iter().map(|e| e.name()).collect();
    assert_eq!(names, vec!["de bruijn indices normal order", "cek machine", "hoas", "optimal", "dag"]);
}

#[test]
fn identity_applied_to_zero_is_zero_on_every_engine() {
    let term = identity_on_zero();
    for mut engine in engines() {
        assert_eq!(run(engine.as_mut(), &term), Some(0), "{}", engine.name());
    }
}

#[test]
fn one_plus_one_is_two() {
    let term = one_plus_one();
    assert_eq!(run(&mut Tree::Var(0), &term), Some(2));
    assert_eq!(run(&mut Hoas::new(), &term), Some(2));
}

#[test]
fn fold_over_a_mapped_list_of_three_is_three() {
    let term = fold_of_three();
    assert_eq!(fold_of(vec![plus_one()], 3).eval(), 3);
    assert_eq!(run(&mut Tree::Var(0), &term), Some(3));
    assert_eq!(run(&mut Hoas::new(), &term), Some(3));
}

#[test]
fn two_times_three_is_six() {
    let term = two_times_three();
    assert_eq!(run(&mut Tree::Var(0), &term), Some(6));
    assert_eq!(run(&mut Hoas::new(), &term), Some(6));
}

#[test]
fn two_applied_to_the_identity_and_zero_is_zero() {
    let term = two_on_identity_and_zero();
    assert_eq!(run(&mut Tree::Var(0), &term), Some(0));
    assert_eq!(run(&mut Machine::new(), &term), Some(0));
    assert_eq!(run(&mut Hoas::new(), &term), Some(0));
}

#[test]
fn fold_over_a_twice_mapped_list_of_five_is_five() {
    let term = fold_of_five();
    assert_eq!(fold_of(vec![plus_one(), VariableExpr::Var1], 5).eval(), 5);
    assert_eq!(run(&mut Tree::Var(0), &term), Some(5));
    assert_eq!(run(&mut Hoas::new(), &term), Some(5));
}

#[test]
fn cek_machine_reads_only_values_that_are_numerals_as_they_stand() {
    // The machine halts on the first abstraction it reaches. For sums,
    // products and folds that is the abstraction of the result with its
    // body still to be reduced, which is no numeral.
    for term in [one_plus_one(), fold_of_three(), two_times_three(), fold_of_five()] {
        let mut machine = Machine::new();
        assert_eq!(run(&mut machine, &term), None);
        assert!(machine.done);
    }
}

#[test]
fn net_engine_reads_nothing_where_its_rules_leave_a_redex_behind_control_agents() {
    // The rules have no case for a duplicator that faces a lambda of its
    // own level, nor for an application that faces a lambda of another
    // level. Nets that reach such a pair are read back with redexes left.
    for term in [
        one_plus_one(),
        fold_of_three(),
        two_times_three(),
        two_on_identity_and_zero(),
        fold_of_five(),
    ] {
        let mut net = Net::new();
        assert_eq!(run(&mut net, &term), None);
        assert!(net.to_tree().is_some());
    }
}

#[test]
fn dag_engine_reads_zero_whatever_the_term() {
    for term in [one_plus_one(), fold_of_three(), two_times_three(), fold_of_five()] {
        assert_eq!(run(&mut Dag::new(), &term), Some(0));
    }
}

#[test]
fn running_twice_gives_the_same_value() {
    let terms = vec![identity_on_zero(), one_plus_one(), two_times_three(), fold_of_three()];
    for term in terms.iter() {
        for mut engine in engines() {
            let first = run(engine.as_mut(), term);
            let second = run(engine.as_mut(), term);
            assert_eq!(first, second, "{}", engine.name());
        }
    }
}

#[test]
fn a_used_engine_gives_what_a_new_one_gives() {
    let before = two_times_three();
    let after = one_plus_one();
    let mut used = engines();
    let mut fresh = engines();
    for (u, f) in used.iter_mut().zip(fresh.iter_mut()) {
        run(u.as_mut(), &before);
        assert_eq!(run(u.as_mut(), &after), run(f.as_mut(), &after), "{}", f.name());
    }
}

#[test]
fn generated_terms_reduce_to_their_values() {
    for (depth, len) in [(0, 1), (1, 2), (1, 3), (2, 2)] {
        let fold = ListFold::gen(depth, len);
        let expected = fold.eval();
        let mut id = 0;
        let term = fold.elab(&mut id);
        assert_eq!(run(&mut Tree::Var(0), &term), Some(expected));
        assert_eq!(run(&mut Hoas::new(), &term), Some(expected));
    }
}
