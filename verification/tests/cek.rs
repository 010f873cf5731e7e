use lambda_reducers::cek::{Environment, Frame, Machine};
use lambda_reducers::strategy::Strategy;
use lambda_reducers::tree::Tree;

fn cv(x: usize) -> Tree {
    Tree::Var(x)
}

fn cl(x: usize, body: Tree) -> Tree {
    Tree::Abs(x, Box::new(body))
}

fn ca(f: Tree, x: Tree) -> Tree {
    Tree::App(Box::new(f), Box::new(x))
}

fn c_numeral(n: u64, f: usize, x: usize) -> Tree {
    let mut body = cv(x);
    for _ in 0..n {
        body = ca(cv(f), body);
    }
    cl(f, cl(x, body))
}

fn loaded(tree: &Tree) -> Machine {
    let mut machine = Machine::new();
    machine.build(tree);
    machine
}

#[test]
fn environment_finds_the_binding_made_last() {
    let env = Environment::new();
    assert_eq!(env, Environment::Empty);
    assert!(!env.contains_key(1));
    assert_eq!(env.get(1), None);
    let env = env.insert(1, cv(10), Environment::Empty);
    let env = env.insert(2, cv(20), Environment::Empty);
    let env = env.insert(1, cv(30), Environment::Empty);
    assert!(env.contains_key(1));
    assert!(env.contains_key(2));
    assert!(!env.contains_key(3));
    assert_eq!(env.get(1), Some((cv(30), Environment::Empty)));
    assert_eq!(env.get(2), Some((cv(20), Environment::Empty)));
    assert_eq!(env.clone(), env);
}

#[test]
fn new_machine_holds_nothing() {
    let machine = Machine::new();
    assert_eq!(machine.fresh, 0);
    assert_eq!(machine.code, (cv(0), None));
    assert_eq!(machine.env, Environment::Empty);
    assert!(machine.cc.is_empty());
    assert!(!machine.done);
}

#[test]
fn build_sets_the_counter_above_every_tag() {
    let machine = loaded(&ca(cl(3, cv(3)), cl(9, cv(9))));
    assert_eq!(machine.fresh, 10);
    assert_eq!(machine.code, (ca(cl(3, cv(3)), cl(9, cv(9))), None));
    let edge = loaded(&cv(usize::MAX));
    assert_eq!(edge.fresh, usize::MAX);
}

#[test]
fn application_pushes_its_argument() {
    let machine = loaded(&ca(cv(1), cv(2)));
    let next = Machine::transition(machine);
    assert_eq!(next.code, (cv(1), None));
    assert_eq!(next.cc, vec![Frame::Argument(cv(2), Environment::Empty)]);
    assert!(!next.done);
}

#[test]
fn abstraction_gets_the_environment_attached() {
    let machine = loaded(&cl(1, cv(1)));
    let next = Machine::transition(machine);
    assert_eq!(next.code, (cl(1, cv(1)), Some(Environment::Empty)));
    assert!(!next.done);
}

#[test]
fn value_halts_on_an_empty_continuation() {
    let machine = loaded(&cl(1, cv(1)));
    let next = Machine::transition(Machine::transition(machine));
    assert!(next.done);
    assert_eq!(next.code, (cl(1, cv(1)), Some(Environment::Empty)));
    let again = Machine::transition(next);
    assert!(again.done);
}

#[test]
fn value_meets_a_waiting_argument() {
    let mut machine = loaded(&ca(cl(1, cv(1)), cv(5)));
    for _ in 0..3 {
        machine = Machine::transition(machine);
    }
    assert_eq!(machine.code, (cv(5), None));
    assert_eq!(machine.cc, vec![Frame::Closure(cl(1, cv(1)), Environment::Empty)]);
}

#[test]
fn value_is_bound_to_the_binder_of_a_waiting_function() {
    let term = ca(cl(1, cv(1)), cl(2, cv(2)));
    let mut machine = loaded(&term);
    for _ in 0..5 {
        machine = Machine::transition(machine);
    }
    assert_eq!(machine.code, (cv(1), None));
    assert!(machine.cc.is_empty());
    assert_eq!(machine.env.get(1), Some((cl(2, cv(2)), Environment::Empty)));
    assert_eq!(machine.fresh, 3);
    machine = Machine::transition(machine);
    assert_eq!(machine.code, (cl(2, cv(2)), Some(Environment::Empty)));
}

#[test]
fn binder_that_is_bound_already_is_renamed() {
    let inner = Environment::Empty.insert(1, cv(8), Environment::Empty);
    let machine = Machine {
        fresh: 20,
        code: (cl(4, ca(cv(4), cv(1))), Some(Environment::Empty)),
        env: Environment::Empty,
        cc: vec![Frame::Closure(cl(1, ca(cv(1), cv(1))), inner.clone())],
        done: false,
    };
    assert!(!machine.is_stuck());
    let next = Machine::transition(machine);
    assert_eq!(next.fresh, 21);
    assert_eq!(next.code, (ca(cv(21), cv(21)), None));
    assert_eq!(next.env.get(21), Some((cl(4, ca(cv(4), cv(21))), Environment::Empty)));
    assert_eq!(next.env.get(1), Some((cv(8), Environment::Empty)));
    assert!(next.cc.is_empty());
}

#[test]
fn unbound_variable_is_stuck() {
    let machine = loaded(&cv(1));
    assert!(machine.is_stuck());
    let after = Machine::reduce(machine);
    assert!(!after.done);
    assert_eq!(after.code, (cv(1), None));
}

#[test]
fn value_for_a_term_that_is_no_abstraction_is_stuck() {
    let machine = Machine {
        fresh: 5,
        code: (cl(1, cv(1)), Some(Environment::Empty)),
        env: Environment::Empty,
        cc: vec![Frame::Closure(cv(3), Environment::Empty)],
        done: false,
    };
    assert!(machine.is_stuck());
}

#[test]
fn rename_without_a_name_left_is_stuck() {
    let inner = Environment::Empty.insert(1, cv(8), Environment::Empty);
    let machine = Machine {
        fresh: usize::MAX,
        code: (cl(4, cv(4)), Some(Environment::Empty)),
        env: Environment::Empty,
        cc: vec![Frame::Closure(cl(1, cv(1)), inner)],
        done: false,
    };
    assert!(machine.is_stuck());
}

#[test]
fn reduce_within_counts_transitions() {
    let term = ca(cl(1, cv(1)), cl(2, cv(2)));
    let after = Machine::reduce_within(loaded(&term), 3);
    assert!(!after.done);
    assert_eq!(after.code, (cl(2, cv(2)), None));
    let after = Machine::reduce_within(loaded(&term), 8);
    assert!(after.done);
    assert_eq!(after.code.0, cl(2, cv(2)));
}

#[test]
fn cek_engine_reads_the_identity_applied_to_zero() {
    let mut engine = loaded(&ca(cl(3, cv(3)), c_numeral(0, 1, 2)));
    assert_eq!(engine.reduce(), Some(0));
    assert!(engine.done);
}

#[test]
fn cek_engine_applies_two_to_the_identity() {
    let term = ca(ca(c_numeral(2, 1, 2), cl(3, cv(3))), c_numeral(0, 4, 5));
    let mut engine = loaded(&term);
    assert_eq!(engine.reduce(), Some(0));
}

#[test]
fn cek_engine_reads_a_numeral_that_is_a_value_already() {
    let mut engine = loaded(&c_numeral(4, 1, 2));
    assert_eq!(engine.reduce(), Some(4));
}

#[test]
fn cek_engine_halts_on_a_value_whose_body_is_not_reduced() {
    // The machine stops at the first abstraction: for the successor of
    // zero that is \f.\x. f ((n f) x) with n bound in the environment,
    // which does not read as a numeral.
    let n = 1;
    let successor = cl(n, cl(2, cl(3, ca(cv(2), ca(ca(cv(n), cv(2)), cv(3))))));
    let mut engine = loaded(&ca(successor, c_numeral(0, 4, 5)));
    assert_eq!(engine.reduce(), None);
    assert!(engine.done);
    assert_eq!(engine.code.0, cl(2, cl(3, ca(cv(2), ca(ca(cv(n), cv(2)), cv(3))))));
}

#[test]
fn cek_engine_gives_nothing_when_stuck() {
    let mut engine = loaded(&ca(cv(1), cv(2)));
    assert_eq!(engine.reduce(), None);
    assert!(!engine.done);
    assert!(engine.is_stuck());
}

#[test]
fn cek_engine_can_be_built_again_after_a_run() {
    let mut engine = loaded(&ca(cl(3, cv(3)), c_numeral(2, 1, 2)));
    assert_eq!(engine.reduce(), Some(2));
    engine.build(&ca(cl(3, cv(3)), c_numeral(5, 1, 2)));
    assert!(!engine.done);
    assert!(engine.cc.is_empty());
    assert_eq!(engine.env, Environment::Empty);
    assert_eq!(engine.reduce(), Some(5));
    engine.build(&ca(cl(3, cv(3)), c_numeral(5, 1, 2)));
    assert_eq!(engine.reduce(), Some(5));
    assert_eq!(engine.name(), "cek machine");
}

#[test]
fn cek_engine_reads_every_numeral_as_its_number() {
    for n in [0u64, 1, 2, 3, 10, 57] {
        let mut engine = loaded(&c_numeral(n, 4, 9));
        assert_eq!(engine.reduce(), Some(n));
        let two_steps = Machine::reduce_within(loaded(&c_numeral(n, 4, 9)), 2);
        assert!(two_steps.done);
        let one_step = Machine::reduce_within(loaded(&c_numeral(n, 4, 9)), 1);
        assert!(!one_step.done);
    }
}
