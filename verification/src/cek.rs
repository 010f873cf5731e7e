//! The CEK machine: call-by-name reduction by a machine of three registers,
//! the code under evaluation, the environment that binds its variables, and
//! the continuation that says what to do with its value.

use vstd::prelude::*;
use vstd::string::StringExecFns;
use crate::strategy::{Strategy, STEP_LIMIT};
use crate::tree::Tree;

verus! {

/// A mapping from binder ids to closures, each a term with the environment
/// it was met in. The binding made last is found first.
#[derive(Debug, PartialEq, Eq)]
pub enum Environment {
    /// The environment that binds nothing.
    Empty,
    /// An environment with one more binding: the id, the term bound to it,
    /// the environment of that term, and the environment that is extended.
    Bind(usize, Tree, Box<Environment>, Box<Environment>),
}

impl Clone for Environment {
    fn clone(&self) -> (copy: Self)
        ensures
            copy == *self,
        decreases *self,
    {
        match self {
            Environment::Empty => Environment::Empty,
            Environment::Bind(key, term, env, rest) => Environment::Bind(
                *key,
                term.clone(),
                Box::new((**env).clone()),
                Box::new((**rest).clone()),
            ),
        }
    }
}

impl Environment {
    /// The closure bound to `key`, if there is one.
    pub open spec fn lookup(self, key: usize) -> Option<(Tree, Environment)>
        decreases self,
    {
        match self {
            Environment::Empty => None,
            Environment::Bind(bound, term, env, rest) => if bound == key {
                Some((term, *env))
            } else {
                rest.lookup(key)
            },
        }
    }

    /// Whether the environment binds `key`.
    pub open spec fn binds(self, key: usize) -> bool {
        self.lookup(key) is Some
    }

    /// The environment with `key` bound to the closure of `term` and `env`.
    pub open spec fn bound(self, key: usize, term: Tree, env: Environment) -> Environment {
        Environment::Bind(key, term, Box::new(env), Box::new(self))
    }

    /// An environment that binds nothing.
    pub fn new() -> (env: Environment)
        ensures
            env == Environment::Empty,
    {
        Environment::Empty
    }

    /// Tells whether the environment binds `key`.
    pub fn contains_key(&self, key: usize) -> (found: bool)
        ensures
            found == self.binds(key),
    {
        let mut rest: &Environment = self;
        loop
            invariant
                rest.lookup(key) == self.lookup(key),
            decreases *rest,
        {
            match rest {
                Environment::Empty => {
                    return false;
                },
                Environment::Bind(bound, _, _, next) => {
                    if *bound == key {
                        return true;
                    }
                    rest = &**next;
                },
            }
        }
    }

    /// Looks up the closure bound to `key`.
    pub fn get(&self, key: usize) -> (found: Option<(Tree, Environment)>)
        ensures
            found == self.lookup(key),
    {
        let mut rest: &Environment = self;
        loop
            invariant
                rest.lookup(key) == self.lookup(key),
            decreases *rest,
        {
            match rest {
                Environment::Empty => {
                    return None;
                },
                Environment::Bind(bound, term, env, next) => {
                    if *bound == key {
                        return Some((term.clone(), (**env).clone()));
                    }
                    rest = &**next;
                },
            }
        }
    }

    /// Binds `key` to the closure of `term` and `env`.
    pub fn insert(self, key: usize, term: Tree, env: Environment) -> (extended: Environment)
        ensures
            extended == self.bound(key, term, env),
    {
        Environment::Bind(key, term, Box::new(env), Box::new(self))
    }
}

/// What the machine is to do with a value.
#[derive(Debug, PartialEq, Eq)]
pub enum Frame {
    /// The value is an argument for this abstraction, which was met in this
    /// environment.
    Closure(Tree, Environment),
    /// The value is a function; this term, met in this environment, is its
    /// argument.
    Argument(Tree, Environment),
}

/// The state of the machine.
#[derive(Debug)]
pub struct Machine {
    /// The last name that was made up.
    pub fresh: usize,
    /// The term under evaluation and, once it is known to be a value, the
    /// environment it is closed in.
    pub code: (Tree, Option<Environment>),
    /// The environment of the term under evaluation.
    pub env: Environment,
    /// The continuation, its top last.
    pub cc: Vec<Frame>,
    /// Whether the machine has halted on a final value.
    pub done: bool,
}

/// The state of the machine, with the continuation as a sequence.
pub struct MachineView {
    pub fresh: usize,
    pub code: Tree,
    pub closure: Option<Environment>,
    pub env: Environment,
    pub cc: Seq<Frame>,
    pub done: bool,
}

impl View for Machine {
    type V = MachineView;

    open spec fn view(&self) -> MachineView {
        MachineView {
            fresh: self.fresh,
            code: self.code.0,
            closure: self.code.1,
            env: self.env,
            cc: self.cc@,
            done: self.done,
        }
    }
}

impl MachineView {
    /// The state of a machine before any term is loaded.
    pub open spec fn initial() -> MachineView {
        MachineView {
            fresh: 0,
            code: Tree::Var(0),
            closure: None,
            env: Environment::Empty,
            cc: Seq::empty(),
            done: false,
        }
    }

    /// The state of a machine loaded with `tree`: nothing is bound, nothing
    /// is pending, and every name above `fresh` is unused.
    pub open spec fn loaded(tree: Tree) -> MachineView {
        MachineView {
            fresh: if tree.largest_tag() < usize::MAX {
                (tree.largest_tag() + 1) as usize
            } else {
                usize::MAX
            },
            code: tree,
            closure: None,
            env: Environment::Empty,
            cc: Seq::empty(),
            done: false,
        }
    }

    /// Whether an abstraction with its environment attached is about to be
    /// passed to an abstraction whose binder the target environment binds
    /// already, so that the binder has to be renamed.
    pub open spec fn renames(self) -> bool {
        &&& self.code is Abs
        &&& self.closure is Some
        &&& self.cc.len() > 0
        &&& self.cc.last() matches Frame::Closure(Tree::Abs(x, _), e2)
        &&& e2.binds(x)
    }

    /// Whether the machine cannot move: its code is a variable that the
    /// environment does not bind, the value it holds is to be passed to a
    /// term that is no abstraction, or a new name is needed and none is left.
    pub open spec fn stuck(self) -> bool {
        match self.code {
            Tree::Var(v) => !self.env.binds(v),
            Tree::Abs(_, _) => self.closure is Some && self.cc.len() > 0 && (match self.cc.last() {
                Frame::Closure(Tree::Abs(_, _), _) => self.renames() && self.fresh
                    == usize::MAX,
                Frame::Closure(_, _) => true,
                Frame::Argument(_, _) => false,
            }),
            Tree::App(_, _) => false,
        }
    }

    /// The state after one transition of a machine that is not stuck.
    ///
    /// An application puts its argument, with the environment, on the
    /// continuation and goes on with its function. A variable is replaced by
    /// the closure that the environment binds it to. An abstraction first
    /// has the environment attached. An abstraction with its environment is
    /// a value: where the continuation is empty the machine halts on it;
    /// where an argument waits, the value goes on the continuation as a
    /// function and the argument becomes the code; where a function waits,
    /// the value is bound to its binder and its body becomes the code. If
    /// the function's environment binds that binder already, the binder is
    /// renamed to a new name in the body and in the value's body first.
    pub open spec fn stepped(self) -> MachineView {
        match self.code {
            Tree::App(left, right) => MachineView {
                code: *left,
                closure: None,
                cc: self.cc.push(Frame::Argument(*right, self.env)),
                done: false,
                ..self
            },
            Tree::Var(v) => match self.env.lookup(v) {
                Some((term, env)) => MachineView {
                    code: term,
                    closure: Some(env),
                    done: false,
                    ..self
                },
                None => self,
            },
            Tree::Abs(id, body) => match self.closure {
                None => MachineView { closure: Some(self.env), done: false, ..self },
                Some(e1) => if self.cc.len() == 0 {
                    MachineView { env: e1, done: true, ..self }
                } else {
                    match self.cc.last() {
                        Frame::Argument(m, e2) => MachineView {
                            code: m,
                            closure: None,
                            env: e2,
                            cc: self.cc.drop_last().push(Frame::Closure(self.code, e1)),
                            done: false,
                            ..self
                        },
                        Frame::Closure(Tree::Abs(x, b), e2) => if e2.binds(x) {
                            let fresh = (self.fresh + 1) as usize;
                            MachineView {
                                fresh,
                                code: b.renamed(x, fresh),
                                closure: None,
                                env: e2.bound(
                                    fresh,
                                    Tree::Abs(id, Box::new(body.renamed(x, fresh))),
                                    e1,
                                ),
                                cc: self.cc.drop_last(),
                                done: false,
                            }
                        } else {
                            MachineView {
                                code: *b,
                                closure: None,
                                env: e2.bound(x, self.code, e1),
                                cc: self.cc.drop_last(),
                                done: false,
                                ..self
                            }
                        },
                        Frame::Closure(_, _) => self,
                    }
                },
            },
        }
    }

    /// The state after the machine has run until it halts, gets stuck, or
    /// has made `fuel` transitions.
    pub open spec fn ran(self, fuel: nat) -> MachineView
        decreases fuel,
    {
        if self.done || self.stuck() || fuel == 0 {
            self
        } else {
            self.stepped().ran((fuel - 1) as nat)
        }
    }

    /// The number that the machine gives: the readout of its code once it
    /// has halted, nothing while it has not.
    pub open spec fn outcome(self) -> Option<u64> {
        if !self.done {
            None
        } else {
            match self.code.church_value() {
                Some(n) if n <= u64::MAX => Some(n as u64),
                _ => None,
            }
        }
    }

    /// The state that the machine has after `tree` is loaded into it,
    /// whatever state `self` it had before.
    pub open spec fn rebuilt(self, tree: Tree) -> MachineView {
        MachineView::loaded(tree)
    }

    /// Loading a term leaves nothing of the state that the machine had
    /// before: what it then gives depends on the term alone.
    pub proof fn lemma_build_forgets(self, other: MachineView, tree: Tree, fuel: nat)
        ensures
            self.rebuilt(tree) == other.rebuilt(tree),
            self.rebuilt(tree).ran(fuel).outcome() == other.rebuilt(tree).ran(fuel).outcome(),
    {
    }

    /// Loading and running the same term a second time, on the machine that
    /// has run it before, gives the same number.
    pub proof fn lemma_rerun_repeats(self, tree: Tree, fuel: nat)
        ensures
            self.rebuilt(tree).ran(fuel).rebuilt(tree).ran(fuel).outcome() == self.rebuilt(
                tree,
            ).ran(fuel).outcome(),
    {
    }

    /// The machine reads a Church numeral as its number, once it is
    /// allowed the two transitions that take it to a halt.
    pub proof fn lemma_numeral_outcome(self, n: nat, f: usize, x: usize, fuel: nat)
        requires
            n <= u64::MAX,
            fuel >= 2,
        ensures
            self.rebuilt(Tree::church_numeral(n, f, x)).ran(fuel).outcome() == Some(n as u64),
    {
        let numeral = Tree::church_numeral(n, f, x);
        let loaded = self.rebuilt(numeral);
        let closed = loaded.stepped();
        let halted = closed.stepped();
        Tree::lemma_church_numeral_value(n, f, x);
        assert(!loaded.stuck() && !loaded.done);
        assert(!closed.stuck() && !closed.done);
        assert(halted.done && halted.code == numeral);
        assert(loaded.ran(fuel) == closed.ran((fuel - 1) as nat));
        assert(closed.ran((fuel - 1) as nat) == halted.ran((fuel - 2) as nat));
    }

    /// A machine that has halted stays as it is.
    pub proof fn lemma_halted_stays(self, fuel: nat)
        requires
            self.done,
        ensures
            self.ran(fuel) == self,
    {
    }
}

impl Machine {
    /// A machine with no term loaded.
    pub fn new() -> (machine: Machine)
        ensures
            machine@ == MachineView::initial(),
    {
        Machine {
            fresh: 0,
            code: (Tree::Var(0), None),
            env: Environment::new(),
            cc: Vec::new(),
            done: false,
        }
    }

    /// Tells whether the machine cannot move.
    pub fn is_stuck(&self) -> (stuck: bool)
        ensures
            stuck == self@.stuck(),
    {
        match &self.code.0 {
            Tree::Var(v) => !self.env.contains_key(*v),
            Tree::App(_, _) => false,
            Tree::Abs(_, _) => {
                if self.code.1.is_none() || self.cc.len() == 0 {
                    return false;
                }
                match &self.cc[self.cc.len() - 1] {
                    Frame::Argument(_, _) => false,
                    Frame::Closure(term, e2) => match term {
                        Tree::Abs(x, _) => e2.contains_key(*x) && self.fresh == usize::MAX,
                        _ => true,
                    },
                }
            },
        }
    }

    /// Makes one transition.
    pub fn transition(machine: Machine) -> (next: Machine)
        requires
            !machine@.stuck(),
        ensures
            next@ == machine@.stepped(),
    {
        let mut fresh: usize = machine.fresh;
        let code: (Tree, Option<Environment>) = machine.code;
        let env: Environment = machine.env;
        let mut cc: Vec<Frame> = machine.cc;
        let ghost before = cc@;
        match code {
            (Tree::App(left, right), _) => {
                cc.push(Frame::Argument(*right, env.clone()));
                Machine { fresh, code: (*left, None), env, cc, done: false }
            },
            (Tree::Abs(id, body), None) => {
                Machine {
                    fresh,
                    code: (Tree::Abs(id, body), Some(env.clone())),
                    env,
                    cc,
                    done: false,
                }
            },
            (Tree::Abs(id, body), Some(e1)) => {
                match cc.pop() {
                    Some(Frame::Closure(t, e2)) => {
                        assert(cc@ == before.drop_last());
                        match t {
                            Tree::Abs(x, b) => {
                                if e2.contains_key(x) {
                                    fresh = fresh + 1;
                                    let mut b: Tree = *b;
                                    let mut body: Tree = *body;
                                    b.rename(x, fresh);
                                    body.rename(x, fresh);
                                    Machine {
                                        fresh,
                                        code: (b, None),
                                        env: e2.insert(fresh, Tree::Abs(id, Box::new(body)), e1),
                                        cc,
                                        done: false,
                                    }
                                } else {
                                    Machine {
                                        fresh,
                                        code: (*b, None),
                                        env: e2.insert(x, Tree::Abs(id, body), e1),
                                        cc,
                                        done: false,
                                    }
                                }
                            },
                            other => {
                                proof {
                                    assert(false);
                                }
                                Machine { fresh, code: (other, None), env: e2, cc, done: false }
                            },
                        }
                    },
                    Some(Frame::Argument(m, e2)) => {
                        assert(cc@ == before.drop_last());
                        cc.push(Frame::Closure(Tree::Abs(id, body), e1));
                        Machine { fresh, code: (m, None), env: e2, cc, done: false }
                    },
                    None => {
                        Machine {
                            fresh,
                            code: (Tree::Abs(id, body), Some(e1.clone())),
                            env: e1,
                            cc,
                            done: true,
                        }
                    },
                }
            },
            (Tree::Var(v), closure) => {
                match env.get(v) {
                    Some((term, found)) => Machine {
                        fresh,
                        code: (term, Some(found)),
                        env,
                        cc,
                        done: false,
                    },
                    None => {
                        proof {
                            assert(false);
                        }
                        Machine { fresh, code: (Tree::Var(v), closure), env, cc, done: false }
                    },
                }
            },
        }
    }

    /// Runs the machine until it halts, gets stuck, or has made `limit`
    /// transitions.
    pub fn reduce_within(machine: Machine, limit: u64) -> (result: Machine)
        ensures
            result@ == machine@.ran(limit as nat),
    {
        let mut result: Machine = machine;
        let mut left: u64 = limit;
        while !result.done && left > 0
            invariant
                result@.ran(left as nat) == machine@.ran(limit as nat),
            decreases left,
        {
            if result.is_stuck() {
                return result;
            }
            result = Machine::transition(result);
            left = left - 1;
        }
        result
    }

    /// Runs the machine until it halts or gets stuck.
    pub fn reduce(machine: Machine) -> (result: Machine)
        ensures
            result@ == machine@.ran(STEP_LIMIT as nat),
    {
        Machine::reduce_within(machine, STEP_LIMIT)
    }
}

impl Strategy for Machine {
    open spec fn loaded_with(&self, tree: Tree) -> bool {
        self@ == MachineView::loaded(tree)
    }

    open spec fn result(&self) -> Option<u64> {
        self@.ran(STEP_LIMIT as nat).outcome()
    }

    /// Loads the term into a machine with nothing bound and nothing pending.
    fn build(&mut self, tree: &Tree)
        ensures
            final(self)@ == old(self)@.rebuilt(*tree),
    {
        let largest: usize = Tree::find_largest_var(tree);
        self.fresh = if largest < usize::MAX {
            largest + 1
        } else {
            usize::MAX
        };
        self.code = (tree.clone(), None);
        self.env = Environment::new();
        self.cc = Vec::new();
        self.done = false;
    }

    /// Runs the machine and reads the value it halts on.
    fn reduce(&mut self) -> (value: Option<u64>)
        ensures
            final(self)@ == old(self)@.ran(STEP_LIMIT as nat),
            value == final(self)@.outcome(),
    {
        let mut machine: Machine = Machine::new();
        core::mem::swap(self, &mut machine);
        *self = Machine::reduce_within(machine, STEP_LIMIT);
        if self.done {
            self.code.0.convert()
        } else {
            None
        }
    }

    fn name(&self) -> (name: String)
        ensures
            name@ == "cek machine"@,
    {
        String::from_str("cek machine")
    }
}

} // verus!
