//! The normal-order reducer: leftmost-outermost beta reduction on terms
//! whose variables are lexical indices.

use vstd::prelude::*;
use crate::strategy::{Strategy, STEP_LIMIT};
use crate::tree::Tree;
use vstd::string::StringExecFns;

verus! {

/// The tag given to a variable that no enclosing binder binds.
pub const UNBOUND: usize = 100;

impl Tree {
    /// The number of binders between a variable named `name` and the
    /// innermost binder of that name, in a scope that lists the enclosing
    /// binders from the outermost to the innermost.
    pub open spec fn innermost(scope: Seq<usize>, name: usize) -> Option<nat>
        decreases scope.len(),
    {
        if scope.len() == 0 {
            None
        } else if scope.last() == name {
            Some(0nat)
        } else {
            match Tree::innermost(scope.drop_last(), name) {
                Some(distance) => Some(distance + 1),
                None => None,
            }
        }
    }

    /// The tag that a variable named `name` gets in the given scope: its
    /// lexical index, or `UNBOUND` where nothing binds it.
    pub open spec fn resolved(scope: Seq<usize>, name: usize) -> usize {
        match Tree::innermost(scope, name) {
            Some(distance) => distance as usize,
            None => UNBOUND,
        }
    }

    /// The term with every variable's name replaced by its lexical index in
    /// the given scope. Binders keep their tags.
    pub open spec fn indexed(self, scope: Seq<usize>) -> Tree
        decreases self,
    {
        match self {
            Tree::Var(name) => Tree::Var(Tree::resolved(scope, name)),
            Tree::Abs(id, body) => Tree::Abs(id, Box::new(body.indexed(scope.push(id)))),
            Tree::App(left, right) => Tree::App(
                Box::new(left.indexed(scope)),
                Box::new(right.indexed(scope)),
            ),
        }
    }

    /// Whether resolving the variables a second time changes nothing: the
    /// index of each variable, read as a name, resolves to itself.
    pub open spec fn settled(self, scope: Seq<usize>) -> bool
        decreases self,
    {
        match self {
            Tree::Var(name) => Tree::resolved(scope, Tree::resolved(scope, name))
                == Tree::resolved(scope, name),
            Tree::Abs(id, body) => body.settled(scope.push(id)),
            Tree::App(left, right) => left.settled(scope) && right.settled(scope),
        }
    }

    /// The term with `place` added to every variable at or above `cutoff`,
    /// the cutoff rising by one under each binder. `None` where an index
    /// would leave the range of the machine's integers.
    pub open spec fn shifted(self, place: int, cutoff: int) -> Option<Tree>
        decreases self,
    {
        match self {
            Tree::Var(index) => if index < cutoff {
                Some(self)
            } else if 0 <= index + place <= usize::MAX {
                Some(Tree::Var((index + place) as usize))
            } else {
                None
            },
            Tree::Abs(id, body) => if cutoff >= usize::MAX {
                None
            } else {
                match body.shifted(place, cutoff + 1) {
                    Some(inner) => Some(Tree::Abs(id, Box::new(inner))),
                    None => None,
                }
            },
            Tree::App(left, right) => match (
                left.shifted(place, cutoff),
                right.shifted(place, cutoff),
            ) {
                (Some(l), Some(r)) => Some(Tree::App(Box::new(l), Box::new(r))),
                _ => None,
            },
        }
    }

    /// The term with `argument` in place of every variable whose index is
    /// `depth`; under each binder the depth rises by one and the argument is
    /// shifted up by one. `None` where a shift has no result.
    pub open spec fn substituted(self, argument: Tree, depth: int) -> Option<Tree>
        decreases self,
    {
        match self {
            Tree::Var(index) => if index == depth {
                Some(argument)
            } else {
                Some(self)
            },
            Tree::Abs(id, body) => if depth >= usize::MAX {
                None
            } else {
                match argument.shifted(1, 0) {
                    Some(lifted) => match body.substituted(lifted, depth + 1) {
                        Some(inner) => Some(Tree::Abs(id, Box::new(inner))),
                        None => None,
                    },
                    None => None,
                }
            },
            Tree::App(left, right) => match (
                left.substituted(argument, depth),
                right.substituted(argument, depth),
            ) {
                (Some(l), Some(r)) => Some(Tree::App(Box::new(l), Box::new(r))),
                _ => None,
            },
        }
    }

    /// Whether the term holds no redex: no application whose function
    /// position is an abstraction.
    pub open spec fn normal(self) -> bool
        decreases self,
    {
        match self {
            Tree::Var(_) => true,
            Tree::Abs(_, body) => body.normal(),
            Tree::App(left, right) => !(*left is Abs) && left.normal() && right.normal(),
        }
    }

    /// The result of contracting a redex: the body with the argument in
    /// place of the bound variable.
    pub open spec fn contracted(body: Tree, argument: Tree) -> Option<Tree> {
        match argument.shifted(1, 0) {
            Some(lifted) => match body.substituted(lifted, 0) {
                Some(replaced) => replaced.shifted(-1, 0),
                None => None,
            },
            None => None,
        }
    }

    /// One pass of reduction: the outermost redex on every path from the
    /// root is contracted, and the parts of the term above those redexes are
    /// kept. `None` where an index would leave the range of the machine's
    /// integers.
    pub open spec fn stepped(self) -> Option<Tree>
        decreases self,
    {
        match self {
            Tree::Var(_) => Some(self),
            Tree::Abs(id, body) => match body.stepped() {
                Some(inner) => Some(Tree::Abs(id, Box::new(inner))),
                None => None,
            },
            Tree::App(left, right) => match *left {
                Tree::Abs(_, body) => Tree::contracted(*body, *right),
                _ => match (left.stepped(), right.stepped()) {
                    (Some(l), Some(r)) => Some(Tree::App(Box::new(l), Box::new(r))),
                    _ => None,
                },
            },
        }
    }

    /// The term after passes of reduction, at least one and at most `fuel`,
    /// up to the first pass that leaves a normal form. The passes stop early
    /// at a term on which a pass has no result.
    pub open spec fn reduced(self, fuel: nat) -> Tree
        decreases fuel,
    {
        if fuel == 0 {
            self
        } else {
            match self.stepped() {
                Some(next) => if next.normal() {
                    next
                } else {
                    next.reduced((fuel - 1) as nat)
                },
                None => self,
            }
        }
    }

    fn find_innermost(scope: &Vec<usize>, name: usize) -> (found: Option<usize>)
        ensures
            match found {
                Some(distance) => Tree::innermost(scope@, name) == Some(distance as nat),
                None => Tree::innermost(scope@, name) is None,
            },
    {
        let mut i: usize = scope.len();
        assert(scope@.take(i as int) == scope@);
        while i > 0
            invariant
                i <= scope.len(),
                match Tree::innermost(scope@.take(i as int), name) {
                    Some(distance) => Tree::innermost(scope@, name) == Some(
                        (distance + scope.len() - i) as nat,
                    ),
                    None => Tree::innermost(scope@, name) is None,
                },
            decreases i,
        {
            proof {
                let prefix = scope@.take(i as int);
                assert(prefix.drop_last() == scope@.take(i - 1));
                assert(prefix.last() == scope@[i - 1]);
            }
            if scope[i - 1] == name {
                return Some(scope.len() - i);
            }
            i = i - 1;
        }
        None
    }

    fn fix_indices_helper(tree: &mut Tree, scope: &mut Vec<usize>)
        ensures
            *final(tree) == old(tree).indexed(old(scope)@),
            final(scope)@ == old(scope)@,
        decreases *old(tree),
    {
        match tree {
            Tree::Var(index) => {
                let name: usize = *index;
                *index = UNBOUND;
                if let Some(distance) = Tree::find_innermost(scope, name) {
                    *index = distance;
                }
            },
            Tree::Abs(id, body) => {
                scope.push(*id);
                Tree::fix_indices_helper(body, scope);
                scope.pop();
                assert(scope@ == old(scope)@);
            },
            Tree::App(left, right) => {
                Tree::fix_indices_helper(left, scope);
                Tree::fix_indices_helper(right, scope);
            },
        }
    }

    /// Replaces the name at every variable by its lexical index: the number
    /// of binders between the variable and the binder of that name. A
    /// variable that nothing binds gets `UNBOUND`.
    pub fn fix_indices(tree: Tree) -> (fixed: Tree)
        ensures
            fixed == tree.indexed(Seq::empty()),
    {
        let mut tree = tree;
        let mut scope: Vec<usize> = Vec::new();
        Tree::fix_indices_helper(&mut tree, &mut scope);
        tree
    }

    fn shift(tree: Tree, place: isize, cutoff: usize) -> (moved: Option<Tree>)
        ensures
            moved == tree.shifted(place as int, cutoff as int),
        decreases tree,
    {
        match tree {
            Tree::Var(index) => {
                if index < cutoff {
                    Some(Tree::Var(index))
                } else if place >= 0 {
                    let up: usize = place as usize;
                    if index > usize::MAX - up {
                        None
                    } else {
                        Some(Tree::Var(index + up))
                    }
                } else {
                    let down: usize = (-(place + 1)) as usize + 1;
                    if index < down {
                        None
                    } else {
                        Some(Tree::Var(index - down))
                    }
                }
            },
            Tree::Abs(id, body) => {
                if cutoff == usize::MAX {
                    return None;
                }
                match Tree::shift(*body, place, cutoff + 1) {
                    Some(inner) => Some(Tree::Abs(id, Box::new(inner))),
                    None => None,
                }
            },
            Tree::App(left, right) => {
                let l: Option<Tree> = Tree::shift(*left, place, cutoff);
                let r: Option<Tree> = Tree::shift(*right, place, cutoff);
                match (l, r) {
                    (Some(l), Some(r)) => Some(Tree::App(Box::new(l), Box::new(r))),
                    _ => None,
                }
            },
        }
    }

    /// Tells whether the term holds no redex.
    pub fn is_normal(&self) -> (normal: bool)
        ensures
            normal == self.normal(),
        decreases *self,
    {
        match self {
            Tree::App(left, right) => match &**left {
                Tree::Abs(_, _) => false,
                _ => left.is_normal() && right.is_normal(),
            },
            Tree::Abs(_, body) => body.is_normal(),
            Tree::Var(_) => true,
        }
    }

    fn substitute(tree: Tree, argument: Tree, depth: usize) -> (replaced: Option<Tree>)
        ensures
            replaced == tree.substituted(argument, depth as int),
        decreases tree,
    {
        match tree {
            Tree::Var(index) => {
                if index == depth {
                    Some(argument)
                } else {
                    Some(Tree::Var(index))
                }
            },
            Tree::Abs(id, body) => {
                if depth == usize::MAX {
                    return None;
                }
                match Tree::shift(argument, 1, 0) {
                    Some(lifted) => match Tree::substitute(*body, lifted, depth + 1) {
                        Some(inner) => Some(Tree::Abs(id, Box::new(inner))),
                        None => None,
                    },
                    None => None,
                }
            },
            Tree::App(left, right) => {
                let l: Option<Tree> = Tree::substitute(*left, argument.clone(), depth);
                let r: Option<Tree> = Tree::substitute(*right, argument, depth);
                match (l, r) {
                    (Some(l), Some(r)) => Some(Tree::App(Box::new(l), Box::new(r))),
                    _ => None,
                }
            },
        }
    }

    fn reduction_step(tree: Tree) -> (next: Option<Tree>)
        ensures
            next == tree.stepped(),
        decreases tree,
    {
        match tree {
            Tree::Var(index) => Some(Tree::Var(index)),
            Tree::Abs(id, body) => match Tree::reduction_step(*body) {
                Some(inner) => Some(Tree::Abs(id, Box::new(inner))),
                None => None,
            },
            Tree::App(left, right) => match *left {
                Tree::Abs(_, body) => match Tree::shift(*right, 1, 0) {
                    Some(lifted) => match Tree::substitute(*body, lifted, 0) {
                        Some(replaced) => Tree::shift(replaced, -1, 0),
                        None => None,
                    },
                    None => None,
                },
                other => {
                    let l: Option<Tree> = Tree::reduction_step(other);
                    let r: Option<Tree> = Tree::reduction_step(*right);
                    match (l, r) {
                        (Some(l), Some(r)) => Some(Tree::App(Box::new(l), Box::new(r))),
                        _ => None,
                    }
                },
            },
        }
    }

    /// Runs passes of reduction, at most `limit` of them, up to the first
    /// that leaves a normal form.
    pub fn reduce_within(tree: Tree, limit: u64) -> (result: Tree)
        ensures
            result == tree.reduced(limit as nat),
    {
        let mut result: Tree = tree;
        let mut left: u64 = limit;
        while left > 0
            invariant
                tree.reduced(limit as nat) == result.reduced(left as nat),
            decreases left,
        {
            let kept: Tree = result.clone();
            match Tree::reduction_step(result) {
                Some(next) => {
                    result = next;
                    if result.is_normal() {
                        return result;
                    }
                },
                None => {
                    return kept;
                },
            }
            left = left - 1;
        }
        result
    }

    /// Reduces the term to its normal form, by passes of reduction that
    /// stop at the first normal form they reach.
    pub fn reduce(tree: Tree) -> (result: Tree)
        ensures
            result == tree.reduced(STEP_LIMIT as nat),
    {
        Tree::reduce_within(tree, STEP_LIMIT)
    }

    /// Resolving the variables of a term twice gives what resolving them
    /// once gives, if and only if each index, read as a name, resolves to itself.
    pub proof fn lemma_fix_indices_idempotent(self, scope: Seq<usize>)
        ensures
            self.settled(scope) <==> self.indexed(scope).indexed(scope) == self.indexed(scope),
        decreases self,
    {
        match self {
            Tree::Var(_) => {},
            Tree::Abs(id, body) => {
                body.lemma_fix_indices_idempotent(scope.push(id));
            },
            Tree::App(left, right) => {
                left.lemma_fix_indices_idempotent(scope);
                right.lemma_fix_indices_idempotent(scope);
            },
        }
    }

    /// A pass of reduction leaves a normal form as it is.
    pub proof fn lemma_normal_form_is_fixed(self)
        requires
            self.normal(),
        ensures
            self.stepped() == Some(self),
        decreases self,
    {
        match self {
            Tree::Var(_) => {},
            Tree::Abs(_, body) => {
                body.lemma_normal_form_is_fixed();
            },
            Tree::App(left, right) => {
                left.lemma_normal_form_is_fixed();
                right.lemma_normal_form_is_fixed();
            },
        }
    }

    /// Reducing a normal form gives the same normal form, whatever the
    /// number of passes allowed.
    pub proof fn lemma_reduce_keeps_normal_form(self, fuel: nat)
        requires
            self.normal(),
        ensures
            self.reduced(fuel) == self,
            self.reduced(fuel).normal(),
    {
        self.lemma_normal_form_is_fixed();
    }

    /// The state that the engine has after `tree` is loaded into it,
    /// whatever state `self` it had before.
    pub open spec fn rebuilt(self, tree: Tree) -> Tree {
        tree.indexed(Seq::empty())
    }

    /// The number that the engine gives for the loaded term.
    pub open spec fn outcome(self, fuel: nat) -> Option<u64> {
        match self.reduced(fuel).church_value() {
            Some(n) if n <= u64::MAX => Some(n as u64),
            _ => None,
        }
    }

    /// Loading a term leaves nothing of the state that the engine had
    /// before: what it then gives depends on the term alone.
    pub proof fn lemma_build_forgets(self, other: Tree, tree: Tree, fuel: nat)
        ensures
            self.rebuilt(tree) == other.rebuilt(tree),
            self.rebuilt(tree).outcome(fuel) == other.rebuilt(tree).outcome(fuel),
    {
    }

    /// Loading and reducing the same term a second time, on the engine that
    /// has reduced it before, gives the same number.
    pub proof fn lemma_rerun_repeats(self, tree: Tree, fuel: nat)
        ensures
            self.rebuilt(tree).reduced(fuel).rebuilt(tree).outcome(fuel) == self.rebuilt(
                tree,
            ).outcome(fuel),
    {
    }

    /// Resolving the variables of a chain leaves its length as it is.
    pub proof fn lemma_indexed_chain(self, scope: Seq<usize>)
        ensures
            self.indexed(scope).chain_length() == self.chain_length(),
        decreases self,
    {
        match self {
            Tree::App(left, right) => {
                right.lemma_indexed_chain(scope);
                assert(left.indexed(scope) is Var <==> *left is Var);
            },
            _ => {},
        }
    }

    /// The engine reads a Church numeral as its number, whatever the
    /// number of passes allowed.
    pub proof fn lemma_numeral_outcome(self, n: nat, f: usize, x: usize, fuel: nat)
        requires
            n <= u64::MAX,
        ensures
            self.rebuilt(Tree::church_numeral(n, f, x)).outcome(fuel) == Some(n as u64),
    {
        let numeral = Tree::church_numeral(n, f, x);
        let chain = Tree::church_chain(n, f, x);
        let scope = Seq::<usize>::empty().push(f).push(x);
        let loaded = self.rebuilt(numeral);
        Tree::lemma_church_chain_length(n, f, x);
        chain.lemma_indexed_chain(scope);
        let inner = Tree::Abs(x, Box::new(chain));
        let outer = Seq::<usize>::empty().push(f);
        assert(inner.indexed(outer) == Tree::Abs(x, Box::new(chain.indexed(scope))));
        assert(numeral.indexed(Seq::empty()) == Tree::Abs(f, Box::new(inner.indexed(outer))));
        assert(loaded.church_value() == Some(n));
        loaded.lemma_numeral_is_normal();
        loaded.lemma_reduce_keeps_normal_form(fuel);
    }

    /// A chain of applications headed by variables holds no redex.
    pub proof fn lemma_chain_is_normal(self)
        requires
            self.chain_length() is Some,
        ensures
            self.normal(),
        decreases self,
    {
        match self {
            Tree::App(left, right) => {
                assert(*left is Var);
                assert(left.normal());
                assert(right.chain_length() is Some);
                right.lemma_chain_is_normal();
            },
            _ => {},
        }
    }

    /// A term that reads as a Church numeral is a normal form.
    pub proof fn lemma_numeral_is_normal(self)
        requires
            self.church_value() is Some,
        ensures
            self.normal(),
    {
        match self {
            Tree::Abs(_, outer) => match *outer {
                Tree::Abs(_, inner) => {
                    inner.lemma_chain_is_normal();
                    assert(outer.normal());
                },
                _ => {},
            },
            _ => {},
        }
    }
}

impl Strategy for Tree {
    open spec fn loaded_with(&self, tree: Tree) -> bool {
        *self == tree.indexed(Seq::empty())
    }

    open spec fn result(&self) -> Option<u64> {
        self.outcome(STEP_LIMIT as nat)
    }

    /// Loads the term with its variables resolved to lexical indices.
    fn build(&mut self, tree: &Tree)
        ensures
            *final(self) == old(self).rebuilt(*tree),
    {
        *self = Tree::fix_indices(tree.clone());
    }

    /// Reduces the loaded term and reads the result.
    fn reduce(&mut self) -> (value: Option<u64>)
        ensures
            *final(self) == old(self).reduced(STEP_LIMIT as nat),
            value == old(self).outcome(STEP_LIMIT as nat),
    {
        *self = Tree::reduce(self.clone());
        self.convert()
    }

    fn name(&self) -> (name: String)
        ensures
            name@ == "de bruijn indices normal order"@,
    {
        String::from_str("de bruijn indices normal order")
    }
}

} // verus!
