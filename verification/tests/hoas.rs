use lambda_reducers::hoas::{Bindings, Hoas, HoasFn};
use lambda_reducers::strategy::Strategy;
use lambda_reducers::tree::Tree;

fn hv(x: usize) -> Tree {
    Tree::Var(x)
}

fn hl(x: usize, body: Tree) -> Tree {
    Tree::Abs(x, Box::new(body))
}

fn ha(f: Tree, x: Tree) -> Tree {
    Tree::App(Box::new(f), Box::new(x))
}

fn h_numeral(n: u64, f: usize, x: usize) -> Tree {
    let mut body = hv(x);
    for _ in 0..n {
        body = ha(hv(f), body);
    }
    hl(f, hl(x, body))
}

fn show(term: &Hoas) -> String {
    format!("{:?}", term)
}

#[test]
fn new_engine_holds_the_self_application() {
    let term = Hoas::new();
    assert_eq!(show(&term), "Abs(Double)");
    match term {
        Hoas::Abs(f) => {
            let result = f.apply(Hoas::Var(3), 1).unwrap();
            assert_eq!(show(&result), "App(Var(3), Var(3))");
        }
        _ => panic!("no abstraction"),
    }
}

#[test]
fn convert_keeps_unbound_variables_and_replaces_bound_ones() {
    let free = Hoas::convert(&hv(7), Bindings::Empty);
    assert_eq!(show(&free), "Var(7)");
    let bindings = Bindings::Bound(7, Box::new(Hoas::Var(-5)), Box::new(Bindings::Empty));
    let bound = Hoas::convert(&ha(hv(7), hv(8)), bindings);
    assert_eq!(show(&bound), "App(Var(-5), Var(8))");
}

#[test]
fn applying_an_abstraction_binds_its_name() {
    let term = Hoas::convert(&hl(1, ha(hv(1), hv(2))), Bindings::Empty);
    match term {
        Hoas::Abs(f) => {
            let result = f.apply(Hoas::Var(-9), 1).unwrap();
            assert_eq!(show(&result), "App(Var(-9), Var(2))");
        }
        _ => panic!("no abstraction"),
    }
}

#[test]
fn each_abstraction_keeps_its_own_bindings() {
    // \x. \y. x, applied to two different arguments in turn.
    let term = Hoas::convert(&hl(1, hl(2, hv(1))), Bindings::Empty);
    let outer = match term {
        Hoas::Abs(f) => f,
        _ => panic!("no abstraction"),
    };
    let first = outer.apply(Hoas::Var(-3), 5).unwrap();
    let second = outer.apply(Hoas::Var(-4), 5).unwrap();
    let read = |t: Hoas| match t {
        Hoas::Abs(f) => show(&f.apply(Hoas::Var(0), 5).unwrap()),
        _ => panic!("no abstraction"),
    };
    assert_eq!(read(first), "Var(-3)");
    assert_eq!(read(second), "Var(-4)");
}

#[test]
fn step_needs_fuel() {
    assert!(Hoas::step(Hoas::Var(1), 0).is_none());
    assert_eq!(show(&Hoas::step(Hoas::Var(1), 1).unwrap()), "Var(1)");
    let nested = Hoas::app(Hoas::app(Hoas::Var(1), Hoas::Var(2)), Hoas::Var(3));
    assert!(Hoas::step(nested.duplicate(), 2).is_none());
    assert_eq!(show(&Hoas::step(nested, 3).unwrap()), "App(App(Var(1), Var(2)), Var(3))");
    assert!(HoasFn::Double.apply(Hoas::Var(1), 0).is_none());
}

#[test]
fn step_of_an_abstraction_steps_what_the_function_gives() {
    let term = Hoas::convert(&hl(1, ha(hl(2, hv(2)), hv(1))), Bindings::Empty);
    let stepped = Hoas::step(term, 10).unwrap();
    match stepped {
        Hoas::Abs(f) => {
            assert_eq!(show(&f.apply(Hoas::Var(-7), 10).unwrap()), "Var(-7)");
        }
        _ => panic!("no abstraction"),
    }
}

#[test]
fn step_of_a_redex_steps_what_the_application_gives() {
    // (\x. x) ((\y. y) z): the function, once stepped, steps what it gives.
    let term = Hoas::convert(&ha(hl(1, hv(1)), ha(hl(2, hv(2)), hv(3))), Bindings::Empty);
    assert_eq!(show(&Hoas::step(term, 10).unwrap()), "Var(3)");
}

#[test]
fn step_leaves_the_argument_of_a_variable_stepped_once() {
    // z ((\x. x) ((\y. y) w))
    let inner = ha(hl(1, hv(1)), ha(hl(2, hv(2)), hv(4)));
    let term = Hoas::convert(&ha(hv(3), inner), Bindings::Empty);
    assert_eq!(show(&Hoas::step(term, 10).unwrap()), "App(Var(3), Var(4))");
}

#[test]
fn probe_counts_applications_of_the_function_probe() {
    for n in [0u64, 1, 2, 17] {
        let term = Hoas::convert(&h_numeral(n, 1, 2), Bindings::Empty);
        assert_eq!(term.probe(10), Some(n));
    }
}

#[test]
fn probe_rejects_other_shapes() {
    assert_eq!(Hoas::Var(1).probe(10), None);
    assert_eq!(Hoas::convert(&hl(1, hv(1)), Bindings::Empty).probe(10), None);
    // \f.\x. x x
    assert_eq!(Hoas::convert(&hl(1, hl(2, ha(hv(2), hv(2)))), Bindings::Empty).probe(10), None);
    // \f.\x. f
    assert_eq!(Hoas::convert(&hl(1, hl(2, hv(1))), Bindings::Empty).probe(10), None);
    // \f.\x. f (f y) with y free
    assert_eq!(Hoas::convert(&hl(1, hl(2, ha(hv(1), hv(9)))), Bindings::Empty).probe(10), None);
    assert_eq!(Hoas::convert(&h_numeral(1, 1, 2), Bindings::Empty).probe(0), None);
}

#[test]
fn count_spine_reads_only_the_probes() {
    let spine = Hoas::app(Hoas::Var(-1), Hoas::app(Hoas::Var(-1), Hoas::Var(-2)));
    assert_eq!(spine.count_spine(), Some(2));
    assert_eq!(Hoas::Var(-2).count_spine(), Some(0));
    assert_eq!(Hoas::Var(-1).count_spine(), None);
    assert_eq!(Hoas::app(Hoas::Var(-2), Hoas::Var(-2)).count_spine(), None);
}

#[test]
fn hoas_engine_reads_the_identity_applied_to_zero() {
    let mut engine = Hoas::new();
    engine.build(&ha(hl(3, hv(3)), h_numeral(0, 1, 2)));
    assert_eq!(engine.reduce(), Some(0));
}

#[test]
fn hoas_engine_applies_two_to_the_identity() {
    let term = ha(ha(h_numeral(2, 1, 2), hl(3, hv(3))), h_numeral(0, 4, 5));
    let mut engine = Hoas::new();
    engine.build(&term);
    assert_eq!(engine.reduce(), Some(0));
}

#[test]
fn hoas_engine_can_be_built_again_after_a_run() {
    let mut engine = Hoas::new();
    engine.build(&ha(hl(3, hv(3)), h_numeral(2, 1, 2)));
    assert_eq!(engine.reduce(), Some(2));
    engine.build(&ha(hl(3, hv(3)), h_numeral(6, 1, 2)));
    assert_eq!(engine.reduce(), Some(6));
    engine.build(&ha(hl(3, hv(3)), h_numeral(6, 1, 2)));
    assert_eq!(engine.reduce(), Some(6));
    assert_eq!(engine.name(), "hoas");
}

#[test]
fn hoas_engine_reports_no_numeral_as_none() {
    let mut engine = Hoas::new();
    engine.build(&hv(4));
    assert_eq!(engine.reduce(), None);
    let mut unbuilt = Hoas::new();
    assert_eq!(unbuilt.reduce(), None);
}

#[test]
fn hoas_engine_reads_every_numeral_as_its_number() {
    for n in [0u64, 1, 2, 3, 10, 57] {
        let mut engine = Hoas::new();
        engine.build(&h_numeral(n, 4, 9));
        assert_eq!(engine.reduce(), Some(n));
    }
}

#[test]
fn hoas_engine_needs_two_names_for_the_binders_of_a_numeral() {
    // \x.\x. x (x x): every variable is bound by the inner binder.
    let mut engine = Hoas::new();
    engine.build(&h_numeral(2, 6, 6));
    assert_eq!(engine.reduce(), None);
    engine.build(&h_numeral(0, 6, 6));
    assert_eq!(engine.reduce(), Some(0));
}
