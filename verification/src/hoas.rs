//! The evaluator in the style of higher-order abstract syntax: the body of
//! an abstraction is a function from terms to terms, and substitution is
//! the application of that function.
//!
//! The functions are kept as data: each is one of three forms, and `apply`
//! says what each form does with its argument. Evaluation may not come to
//! an end, so it runs on fuel: every call hands the calls it makes one unit
//! less than it got.

use vstd::prelude::*;
use vstd::string::StringExecFns;
use crate::strategy::{Strategy, STEP_LIMIT};
use crate::tree::Tree;

verus! {

/// The variable that the readout puts in the place of the numeral's function.
pub const FUNCTION_PROBE: isize = -1;

/// The variable that the readout puts in the place of the numeral's argument.
pub const ARGUMENT_PROBE: isize = -2;

/// A term whose abstractions are functions.
#[derive(Debug)]
pub enum Hoas {
    Var(isize),
    Abs(Box<HoasFn>),
    App(Box<Hoas>, Box<Hoas>),
}

/// A function from terms to terms.
#[derive(Debug)]
pub enum HoasFn {
    /// The function that applies its argument to itself.
    Double,
    /// The function of an abstraction: it binds the name to its argument
    /// and gives the body with all the bindings made.
    Bind(usize, Tree, Bindings),
    /// The function that gives one step of what the function inside gives.
    Stepped(Box<HoasFn>),
}

/// The terms bound to names, the binding made last first.
#[derive(Debug)]
pub enum Bindings {
    Empty,
    Bound(usize, Box<Hoas>, Box<Bindings>),
}

impl Bindings {
    /// The term bound to `name`, if there is one.
    pub open spec fn lookup(self, name: usize) -> Option<Hoas>
        decreases self,
    {
        match self {
            Bindings::Empty => None,
            Bindings::Bound(bound, term, rest) => if bound == name {
                Some(*term)
            } else {
                rest.lookup(name)
            },
        }
    }

    /// Copies the bindings.
    pub fn duplicate(&self) -> (copy: Bindings)
        ensures
            copy == *self,
        decreases *self,
    {
        match self {
            Bindings::Empty => Bindings::Empty,
            Bindings::Bound(name, term, rest) => Bindings::Bound(
                *name,
                Box::new(term.duplicate()),
                Box::new(rest.duplicate()),
            ),
        }
    }

    /// Looks up the term bound to `name`.
    pub fn get(&self, name: usize) -> (found: Option<Hoas>)
        ensures
            found == self.lookup(name),
        decreases *self,
    {
        match self {
            Bindings::Empty => None,
            Bindings::Bound(bound, term, rest) => {
                if *bound == name {
                    Some(term.duplicate())
                } else {
                    rest.get(name)
                }
            },
        }
    }
}

impl HoasFn {
    /// Copies the function.
    pub fn duplicate(&self) -> (copy: HoasFn)
        ensures
            copy == *self,
        decreases *self,
    {
        match self {
            HoasFn::Double => HoasFn::Double,
            HoasFn::Bind(name, body, bindings) => HoasFn::Bind(
                *name,
                body.clone(),
                bindings.duplicate(),
            ),
            HoasFn::Stepped(inner) => HoasFn::Stepped(Box::new(inner.duplicate())),
        }
    }

    /// What the function gives for `argument`; `None` where the fuel runs out.
    pub open spec fn applied(self, argument: Hoas, fuel: nat) -> Option<Hoas>
        decreases fuel, 0nat,
    {
        if fuel == 0 {
            None
        } else {
            match self {
                HoasFn::Double => Some(Hoas::App(Box::new(argument), Box::new(argument))),
                HoasFn::Bind(name, body, bindings) => Some(
                    Hoas::converted(
                        body,
                        Bindings::Bound(name, Box::new(argument), Box::new(bindings)),
                    ),
                ),
                HoasFn::Stepped(inner) => match inner.applied(argument, (fuel - 1) as nat) {
                    Some(result) => result.stepped((fuel - 1) as nat),
                    None => None,
                },
            }
        }
    }

    /// Applies the function to `argument`.
    pub fn apply(&self, argument: Hoas, fuel: u64) -> (result: Option<Hoas>)
        ensures
            result == self.applied(argument, fuel as nat),
        decreases fuel, 0nat,
    {
        if fuel == 0 {
            return None;
        }
        match self {
            HoasFn::Double => {
                let copy: Hoas = argument.duplicate();
                Some(Hoas::App(Box::new(copy), Box::new(argument)))
            },
            HoasFn::Bind(name, body, bindings) => Some(
                Hoas::convert(
                    body,
                    Bindings::Bound(*name, Box::new(argument), Box::new(bindings.duplicate())),
                ),
            ),
            HoasFn::Stepped(inner) => match inner.apply(argument, fuel - 1) {
                Some(result) => Hoas::step(result, fuel - 1),
                None => None,
            },
        }
    }
}

impl Hoas {
    /// The term of a tree under the given bindings: a variable is what it is
    /// bound to, or itself where nothing binds it; an abstraction is the
    /// function that binds its name.
    pub open spec fn converted(tree: Tree, bindings: Bindings) -> Hoas
        decreases tree,
    {
        match tree {
            Tree::Var(x) => match bindings.lookup(x) {
                Some(term) => term,
                None => Hoas::Var(x as isize),
            },
            Tree::Abs(name, body) => Hoas::Abs(Box::new(HoasFn::Bind(name, *body, bindings))),
            Tree::App(function, argument) => Hoas::App(
                Box::new(Hoas::converted(*function, bindings)),
                Box::new(Hoas::converted(*argument, bindings)),
            ),
        }
    }

    /// One step of evaluation; `None` where the fuel runs out. A variable
    /// stays. An abstraction takes the step inside: its function becomes the
    /// function that gives one step of what it gave. An application has a
    /// step taken on its function; if that gives an abstraction, it is
    /// applied to the argument as it stands; if not, a step is taken on the
    /// argument too.
    pub open spec fn stepped(self, fuel: nat) -> Option<Hoas>
        decreases fuel, 1nat,
    {
        if fuel == 0 {
            None
        } else {
            match self {
                Hoas::Var(_) => Some(self),
                Hoas::Abs(body) => Some(Hoas::Abs(Box::new(HoasFn::Stepped(body)))),
                Hoas::App(function, argument) => match function.stepped((fuel - 1) as nat) {
                    Some(Hoas::Abs(body)) => body.applied(*argument, (fuel - 1) as nat),
                    Some(other) => match argument.stepped((fuel - 1) as nat) {
                        Some(value) => Some(Hoas::App(Box::new(other), Box::new(value))),
                        None => None,
                    },
                    None => None,
                },
            }
        }
    }

    /// The number of applications of the function probe around the argument
    /// probe; `None` for any other shape.
    pub open spec fn spine_length(self) -> Option<nat>
        decreases self,
    {
        match self {
            Hoas::Var(i) => if i == ARGUMENT_PROBE {
                Some(0nat)
            } else {
                None
            },
            Hoas::Abs(_) => None,
            Hoas::App(left, right) => match (*left, right.spine_length()) {
                (Hoas::Var(i), Some(n)) => if i == FUNCTION_PROBE {
                    Some(n + 1)
                } else {
                    None
                },
                _ => None,
            },
        }
    }

    /// The number that the term stands for: the term must be a function
    /// that, given the function probe, is a function that, given the
    /// argument probe, is the function probe applied some number of times
    /// to the argument probe. `None` for any other term, where the fuel runs
    /// out, and where the number leaves the range of `u64`.
    pub open spec fn readout(self, fuel: nat) -> Option<u64> {
        match self {
            Hoas::Abs(outer) => match outer.applied(Hoas::Var(FUNCTION_PROBE), fuel) {
                Some(Hoas::Abs(inner)) => match inner.applied(Hoas::Var(ARGUMENT_PROBE), fuel) {
                    Some(spine) => match spine.spine_length() {
                        Some(n) => if n <= u64::MAX {
                            Some(n as u64)
                        } else {
                            None
                        },
                        None => None,
                    },
                    None => None,
                },
                _ => None,
            },
            _ => None,
        }
    }

    /// The state that the engine has after `tree` is loaded into it,
    /// whatever state `self` it had before.
    pub open spec fn rebuilt(self, tree: Tree) -> Hoas {
        Hoas::converted(tree, Bindings::Empty)
    }

    /// The state that the engine has after it has reduced.
    pub open spec fn reduced(self, fuel: nat) -> Hoas {
        match self.stepped(fuel) {
            Some(next) => next,
            None => self,
        }
    }

    /// The number that the engine gives for the loaded term.
    pub open spec fn outcome(self, fuel: nat) -> Option<u64> {
        match self.stepped(fuel) {
            Some(next) => next.readout(fuel),
            None => None,
        }
    }

    /// Loading a term leaves nothing of the state that the engine had
    /// before: what it then gives depends on the term alone.
    pub proof fn lemma_build_forgets(self, other: Hoas, tree: Tree, fuel: nat)
        ensures
            self.rebuilt(tree) == other.rebuilt(tree),
            self.rebuilt(tree).outcome(fuel) == other.rebuilt(tree).outcome(fuel),
    {
    }

    /// Loading and reducing the same term a second time, on the engine that
    /// has reduced it before, gives the same number.
    pub proof fn lemma_rerun_repeats(self, tree: Tree, fuel: nat)
        ensures
            self.rebuilt(tree).reduced(fuel).rebuilt(tree).outcome(fuel) == self.rebuilt(
                tree,
            ).outcome(fuel),
    {
    }

    /// The spine that the body of a Church numeral turns into when its two
    /// binders are bound to the two probes.
    pub open spec fn probed_chain(n: nat) -> Hoas
        decreases n,
    {
        if n == 0 {
            Hoas::Var(ARGUMENT_PROBE)
        } else {
            Hoas::App(
                Box::new(Hoas::Var(FUNCTION_PROBE)),
                Box::new(Hoas::probed_chain((n - 1) as nat)),
            )
        }
    }

    /// The body of a Church numeral, its binders bound to the probes, is a
    /// spine of the numeral's length that a step leaves as it is.
    pub proof fn lemma_probed_chain(n: nat, f: usize, x: usize, bindings: Bindings, fuel: nat)
        requires
            f != x,
            bindings.lookup(f) == Some(Hoas::Var(FUNCTION_PROBE)),
            bindings.lookup(x) == Some(Hoas::Var(ARGUMENT_PROBE)),
            fuel > n,
        ensures
            Hoas::converted(Tree::church_chain(n, f, x), bindings) == Hoas::probed_chain(n),
            Hoas::probed_chain(n).stepped(fuel) == Some(Hoas::probed_chain(n)),
            Hoas::probed_chain(n).spine_length() == Some(n),
        decreases n,
    {
        if n > 0 {
            Hoas::lemma_probed_chain((n - 1) as nat, f, x, bindings, (fuel - 1) as nat);
            let rest = Tree::church_chain((n - 1) as nat, f, x);
            assert(Hoas::converted(Tree::Var(f), bindings) == Hoas::Var(FUNCTION_PROBE));
            assert(Tree::church_chain(n, f, x) == Tree::App(
                Box::new(Tree::Var(f)),
                Box::new(rest),
            ));
            assert(Hoas::Var(FUNCTION_PROBE).stepped((fuel - 1) as nat) == Some(
                Hoas::Var(FUNCTION_PROBE),
            ));
        }
    }

    /// The engine reads a Church numeral whose two binders differ as its
    /// number, once the fuel reaches past the length of the numeral.
    pub proof fn lemma_numeral_outcome(self, n: nat, f: usize, x: usize, fuel: nat)
        requires
            n <= u64::MAX,
            f != x,
            fuel >= n + 3,
        ensures
            self.rebuilt(Tree::church_numeral(n, f, x)).outcome(fuel) == Some(n as u64),
    {
        let chain = Tree::church_chain(n, f, x);
        let inner = Tree::Abs(x, Box::new(chain));
        let empty = Bindings::Empty;
        let outer_fn = HoasFn::Bind(f, inner, empty);
        let loaded = self.rebuilt(Tree::church_numeral(n, f, x));
        assert(loaded == Hoas::Abs(Box::new(outer_fn)));
        let stepped = Hoas::Abs(Box::new(HoasFn::Stepped(Box::new(outer_fn))));
        assert(loaded.stepped(fuel) == Some(stepped));
        let first = Bindings::Bound(f, Box::new(Hoas::Var(FUNCTION_PROBE)), Box::new(empty));
        let inner_fn = HoasFn::Bind(x, chain, first);
        assert(outer_fn.applied(Hoas::Var(FUNCTION_PROBE), (fuel - 1) as nat) == Some(
            Hoas::Abs(Box::new(inner_fn)),
        ));
        let inner_stepped = HoasFn::Stepped(Box::new(inner_fn));
        assert(Hoas::Abs(Box::new(inner_fn)).stepped((fuel - 1) as nat) == Some(
            Hoas::Abs(Box::new(inner_stepped)),
        ));
        assert(HoasFn::Stepped(Box::new(outer_fn)).applied(Hoas::Var(FUNCTION_PROBE), fuel)
            == Some(Hoas::Abs(Box::new(inner_stepped))));
        let second = Bindings::Bound(x, Box::new(Hoas::Var(ARGUMENT_PROBE)), Box::new(first));
        assert(first.lookup(f) == Some(Hoas::Var(FUNCTION_PROBE)));
        assert(second.lookup(f) == Some(Hoas::Var(FUNCTION_PROBE)));
        assert(second.lookup(x) == Some(Hoas::Var(ARGUMENT_PROBE)));
        Hoas::lemma_probed_chain(n, f, x, second, (fuel - 1) as nat);
        assert(inner_fn.applied(Hoas::Var(ARGUMENT_PROBE), (fuel - 1) as nat) == Some(
            Hoas::probed_chain(n),
        ));
        assert(inner_stepped.applied(Hoas::Var(ARGUMENT_PROBE), fuel) == Some(
            Hoas::probed_chain(n),
        ));
    }

    /// A step leaves a variable as it is.
    pub proof fn lemma_variable_is_fixed(self, fuel: nat)
        requires
            self is Var,
            fuel > 0,
        ensures
            self.stepped(fuel) == Some(self),
    {
    }

    /// Copies the term.
    pub fn duplicate(&self) -> (copy: Hoas)
        ensures
            copy == *self,
        decreases *self,
    {
        match self {
            Hoas::Var(i) => Hoas::Var(*i),
            Hoas::Abs(body) => Hoas::Abs(Box::new(body.duplicate())),
            Hoas::App(left, right) => Hoas::App(
                Box::new(left.duplicate()),
                Box::new(right.duplicate()),
            ),
        }
    }

    /// An application.
    pub fn app(t1: Hoas, t2: Hoas) -> (term: Hoas)
        ensures
            term == Hoas::App(Box::new(t1), Box::new(t2)),
    {
        Hoas::App(Box::new(t1), Box::new(t2))
    }

    /// An abstraction with the given function.
    pub fn lam(t: HoasFn) -> (term: Hoas)
        ensures
            term == Hoas::Abs(Box::new(t)),
    {
        Hoas::Abs(Box::new(t))
    }

    /// The term that an engine holds before it is loaded: the abstraction
    /// that applies its argument to itself.
    pub fn new() -> (term: Hoas)
        ensures
            term == Hoas::Abs(Box::new(HoasFn::Double)),
    {
        Hoas::lam(HoasFn::Double)
    }

    /// Takes one step of evaluation.
    pub fn step(term: Hoas, fuel: u64) -> (result: Option<Hoas>)
        ensures
            result == term.stepped(fuel as nat),
        decreases fuel, 1nat,
    {
        if fuel == 0 {
            return None;
        }
        match term {
            Hoas::Var(i) => Some(Hoas::Var(i)),
            Hoas::Abs(body) => Some(Hoas::lam(HoasFn::Stepped(body))),
            Hoas::App(function, argument) => match Hoas::step(*function, fuel - 1) {
                Some(Hoas::Abs(body)) => body.apply(*argument, fuel - 1),
                Some(other) => match Hoas::step(*argument, fuel - 1) {
                    Some(value) => Some(Hoas::app(other, value)),
                    None => None,
                },
                None => None,
            },
        }
    }

    /// Turns a tree into a term under the given bindings.
    pub fn convert(tree: &Tree, bindings: Bindings) -> (term: Hoas)
        ensures
            term == Hoas::converted(*tree, bindings),
        decreases *tree,
    {
        match tree {
            Tree::Var(x) => match bindings.get(*x) {
                Some(term) => term,
                None => Hoas::Var(*x as isize),
            },
            Tree::Abs(name, body) => Hoas::lam(HoasFn::Bind(*name, (**body).clone(), bindings)),
            Tree::App(function, argument) => {
                let copy: Bindings = bindings.duplicate();
                Hoas::app(Hoas::convert(function, copy), Hoas::convert(argument, bindings))
            },
        }
    }

    /// Counts the applications of the function probe around the argument probe.
    pub fn count_spine(&self) -> (count: Option<u64>)
        ensures
            count == (match self.spine_length() {
                Some(n) if n <= u64::MAX => Some(n as u64),
                _ => None,
            }),
    {
        let mut rest: &Hoas = self;
        let mut count: u64 = 0;
        loop
            invariant
                self.spine_length() == (match rest.spine_length() {
                    Some(n) => Some((n + count) as nat),
                    None => None,
                }),
            decreases *rest,
        {
            match rest {
                Hoas::Var(i) => {
                    if *i == ARGUMENT_PROBE {
                        return Some(count);
                    }
                    return None;
                },
                Hoas::Abs(_) => {
                    return None;
                },
                Hoas::App(left, right) => match &**left {
                    Hoas::Var(i) => {
                        if *i != FUNCTION_PROBE || count == u64::MAX {
                            return None;
                        }
                        count = count + 1;
                        rest = &**right;
                    },
                    _ => {
                        return None;
                    },
                },
            }
        }
    }

    /// Reads the term as a Church numeral by probing it.
    pub fn probe(&self, fuel: u64) -> (value: Option<u64>)
        ensures
            value == self.readout(fuel as nat),
    {
        match self {
            Hoas::Abs(outer) => match outer.apply(Hoas::Var(FUNCTION_PROBE), fuel) {
                Some(Hoas::Abs(inner)) => match inner.apply(Hoas::Var(ARGUMENT_PROBE), fuel) {
                    Some(spine) => spine.count_spine(),
                    None => None,
                },
                _ => None,
            },
            _ => None,
        }
    }
}

impl Strategy for Hoas {
    open spec fn loaded_with(&self, tree: Tree) -> bool {
        *self == Hoas::converted(tree, Bindings::Empty)
    }

    open spec fn result(&self) -> Option<u64> {
        self.outcome(STEP_LIMIT as nat)
    }

    /// Loads the term of the tree, with nothing bound.
    fn build(&mut self, tree: &Tree)
        ensures
            *final(self) == old(self).rebuilt(*tree),
    {
        *self = Hoas::convert(tree, Bindings::Empty);
    }

    /// Takes one step of evaluation and reads the result by probing it.
    /// Where the fuel runs out during the step, the term stays as it was
    /// and there is no value.
    fn reduce(&mut self) -> (value: Option<u64>)
        ensures
            *final(self) == old(self).reduced(STEP_LIMIT as nat),
            value == old(self).outcome(STEP_LIMIT as nat),
    {
        let kept: Hoas = self.duplicate();
        let mut term: Hoas = Hoas::Var(0);
        core::mem::swap(self, &mut term);
        match Hoas::step(term, STEP_LIMIT) {
            Some(next) => {
                *self = next;
                self.probe(STEP_LIMIT)
            },
            None => {
                *self = kept;
                None
            },
        }
    }

    fn name(&self) -> (name: String)
        ensures
            name@ == "hoas"@,
    {
        String::from_str("hoas")
    }
}

} // verus!
