//! The expressions from which benchmark terms are made: arithmetic on
//! Church numerals, and a fold over a list that a chain of maps has worked
//! on. Each kind of expression has a value and a term that reduces to the
//! Church numeral of that value.

use vstd::prelude::*;
use crate::tree::Tree;

verus! {

/// A variable, as a term.
pub open spec fn var_term(x: int) -> Tree {
    Tree::Var(x as usize)
}

/// An abstraction, as a term.
pub open spec fn abs_term(x: int, body: Tree) -> Tree {
    Tree::Abs(x as usize, Box::new(body))
}

/// An application, as a term.
pub open spec fn app_term(left: Tree, right: Tree) -> Tree {
    Tree::App(Box::new(left), Box::new(right))
}

/// Addition of Church numerals, with the four binders that follow `id`:
/// `\m.\n.\f.\x. (m f) ((n f) x)`.
pub open spec fn plus_term(id: int) -> Tree {
    let (m, n, f, x) = (id + 1, id + 2, id + 3, id + 4);
    abs_term(
        m,
        abs_term(
            n,
            abs_term(
                f,
                abs_term(
                    x,
                    app_term(
                        app_term(var_term(m), var_term(f)),
                        app_term(app_term(var_term(n), var_term(f)), var_term(x)),
                    ),
                ),
            ),
        ),
    )
}

/// Multiplication of Church numerals, with the three binders that follow
/// `id`: `\m.\n.\f. m (n f)`.
pub open spec fn times_term(id: int) -> Tree {
    let (m, n, f) = (id + 1, id + 2, id + 3);
    abs_term(
        m,
        abs_term(n, abs_term(f, app_term(var_term(m), app_term(var_term(n), var_term(f))))),
    )
}

/// The map over a Church-encoded list, with the five binders that follow
/// `id`: `\f.\arg.\cons.\nil. (arg (\x. cons (f x))) nil`.
pub open spec fn map_term(id: int) -> Tree {
    let (f, arg, cons, nil, x) = (id + 1, id + 2, id + 3, id + 4, id + 5);
    abs_term(
        f,
        abs_term(
            arg,
            abs_term(
                cons,
                abs_term(
                    nil,
                    app_term(
                        app_term(
                            var_term(arg),
                            abs_term(
                                x,
                                app_term(var_term(cons), app_term(var_term(f), var_term(x))),
                            ),
                        ),
                        var_term(nil),
                    ),
                ),
            ),
        ),
    )
}

/// The fold over a Church-encoded list, with the four binders that follow
/// `id`: `\f.\init.\arg. (arg (\x. f x)) init`.
pub open spec fn fold_term(id: int) -> Tree {
    let (f, init, arg, x) = (id + 1, id + 2, id + 3, id + 4);
    abs_term(
        f,
        abs_term(
            init,
            abs_term(
                arg,
                app_term(
                    app_term(var_term(arg), abs_term(x, app_term(var_term(f), var_term(x)))),
                    var_term(init),
                ),
            ),
        ),
    )
}

fn var(x: usize) -> (tree: Tree)
    ensures
        tree == var_term(x as int),
{
    Tree::Var(x)
}

fn lam(x: usize, body: Tree) -> (tree: Tree)
    ensures
        tree == abs_term(x as int, body),
{
    Tree::Abs(x, Box::new(body))
}

fn app(left: Tree, right: Tree) -> (tree: Tree)
    ensures
        tree == app_term(left, right),
{
    Tree::App(Box::new(left), Box::new(right))
}

fn plus(id: usize) -> (tree: Tree)
    requires
        id + 4 <= usize::MAX,
    ensures
        tree == plus_term(id as int),
{
    let (m, n, f, x) = (id + 1, id + 2, id + 3, id + 4);
    lam(m, lam(n, lam(f, lam(x, app(app(var(m), var(f)), app(app(var(n), var(f)), var(x)))))))
}

fn times(id: usize) -> (tree: Tree)
    requires
        id + 3 <= usize::MAX,
    ensures
        tree == times_term(id as int),
{
    let (m, n, f) = (id + 1, id + 2, id + 3);
    lam(m, lam(n, lam(f, app(var(m), app(var(n), var(f))))))
}

fn numeral(n: u64, f: usize, x: usize) -> (tree: Tree)
    ensures
        tree == Tree::church_numeral(n as nat, f, x),
{
    let mut tree: Tree = Tree::Var(x);
    let mut i: u64 = 0;
    while i < n
        invariant
            i <= n,
            tree == Tree::church_chain(i as nat, f, x),
        decreases n - i,
    {
        tree = Tree::App(Box::new(Tree::Var(f)), Box::new(tree));
        i = i + 1;
    }
    Tree::Abs(f, Box::new(Tree::Abs(x, Box::new(tree))))
}

/// rand::random draws a value from the generator of the running thread;
/// nothing is known of the value.
#[verifier::external_body]
fn random_u64() -> u64 {
    rand::random::<u64>()
}

/// The two operations of the arithmetic.
#[derive(Debug, Clone, Copy, PartialEq, Eq, Structural)]
pub enum ArithBinaryOp {
    Add,
    Mul,
}

impl ArithBinaryOp {
    /// The operation for a draw: every draw up to 100 gives addition.
    pub fn from_choice(choice: u64) -> (op: ArithBinaryOp)
        ensures
            op == (if choice <= 100 {
                ArithBinaryOp::Add
            } else {
                ArithBinaryOp::Mul
            }),
    {
        if choice <= 100 {
            ArithBinaryOp::Add
        } else {
            ArithBinaryOp::Mul
        }
    }

    /// Draws an operation. The draw is taken below 100, so the operation
    /// is always addition.
    pub fn gen() -> (op: ArithBinaryOp)
        ensures
            op == ArithBinaryOp::Add,
    {
        ArithBinaryOp::from_choice(random_u64() % 100)
    }

    /// The result of the operation, unless it leaves the range of `u64`.
    pub open spec fn applied(self, a: u64, b: u64) -> Option<u64> {
        match self {
            ArithBinaryOp::Add => a.checked_add(b),
            ArithBinaryOp::Mul => a.checked_mul(b),
        }
    }

    /// The number of binders in the term of the operation.
    pub open spec fn names_needed(self) -> nat {
        match self {
            ArithBinaryOp::Add => 4,
            ArithBinaryOp::Mul => 3,
        }
    }

    /// The term of the operation, with the binders that follow `id`.
    pub open spec fn term(self, id: int) -> Tree {
        match self {
            ArithBinaryOp::Add => plus_term(id),
            ArithBinaryOp::Mul => times_term(id),
        }
    }

    /// Applies the operation, unless the result leaves the range of `u64`.
    pub fn apply(self, a: u64, b: u64) -> (result: Option<u64>)
        ensures
            result == self.applied(a, b),
    {
        match self {
            ArithBinaryOp::Add => a.checked_add(b),
            ArithBinaryOp::Mul => a.checked_mul(b),
        }
    }

    fn elab(self, id: &mut usize) -> (tree: Tree)
        requires
            *old(id) + self.names_needed() <= usize::MAX,
        ensures
            tree == self.term(*old(id) as int),
            *final(id) == *old(id) + self.names_needed(),
    {
        match self {
            ArithBinaryOp::Add => {
                let tree = plus(*id);
                *id = *id + 4;
                tree
            },
            ArithBinaryOp::Mul => {
                let tree = times(*id);
                *id = *id + 3;
                tree
            },
        }
    }
}

/// An arithmetic expression on numerals.
#[derive(Debug, PartialEq, Eq)]
pub enum ArithExpr {
    Numeral(u64),
    Op(ArithBinaryOp, Box<ArithExpr>, Box<ArithExpr>),
}

impl ArithExpr {
    /// The value of the expression; `None` where a part of it has a value
    /// outside the range of `u64`.
    pub open spec fn value(self) -> Option<u64>
        decreases self,
    {
        match self {
            ArithExpr::Numeral(x) => Some(x),
            ArithExpr::Op(op, left, right) => match (left.value(), right.value()) {
                (Some(a), Some(b)) => op.applied(a, b),
                _ => None,
            },
        }
    }

    /// Whether the expression is one that `gen` makes for the given depth:
    /// a full tree of additions over numerals below 2.
    pub open spec fn generated(self, depth: nat) -> bool
        decreases depth,
    {
        if depth == 0 {
            self matches ArithExpr::Numeral(n) && n < 2
        } else {
            self matches ArithExpr::Op(op, left, right) && op == ArithBinaryOp::Add
                && left.generated((depth - 1) as nat) && right.generated((depth - 1) as nat)
        }
    }

    /// The number of fresh names that the term of the expression takes.
    pub open spec fn names_needed(self) -> nat
        decreases self,
    {
        match self {
            ArithExpr::Numeral(_) => 2,
            ArithExpr::Op(op, left, right) => op.names_needed() + left.names_needed()
                + right.names_needed(),
        }
    }

    /// The term of the expression, its binders named by the numbers that
    /// follow `id`. A numeral is a Church numeral; an operation is the term
    /// of the operation applied to the terms of its two sides, which take
    /// their names in that order.
    pub open spec fn elaborated(self, id: int) -> Tree
        decreases self,
    {
        match self {
            ArithExpr::Numeral(n) => Tree::church_numeral(
                n as nat,
                (id + 1) as usize,
                (id + 2) as usize,
            ),
            ArithExpr::Op(op, left, right) => app_term(
                app_term(op.term(id), left.elaborated(id + op.names_needed())),
                right.elaborated(id + op.names_needed() + left.names_needed()),
            ),
        }
    }

    /// Evaluates the expression, unless a value leaves the range of `u64`.
    pub fn checked_eval(&self) -> (value: Option<u64>)
        ensures
            value == self.value(),
        decreases *self,
    {
        match self {
            ArithExpr::Numeral(x) => Some(*x),
            ArithExpr::Op(op, left, right) => {
                let a: Option<u64> = left.checked_eval();
                let b: Option<u64> = right.checked_eval();
                match (a, b) {
                    (Some(a), Some(b)) => op.apply(a, b),
                    _ => None,
                }
            },
        }
    }

    /// Evaluates an expression whose values stay in the range of `u64`.
    pub fn eval(&self) -> (value: u64)
        requires
            self.value() is Some,
        ensures
            self.value() == Some(value),
    {
        self.checked_eval().unwrap()
    }

    /// The numeral for a draw: 0 or 1.
    pub fn leaf(draw: u64) -> (expr: ArithExpr)
        ensures
            expr == ArithExpr::Numeral(draw % 2),
    {
        ArithExpr::Numeral(draw % 2)
    }

    /// Draws an expression of the given depth.
    pub fn gen(depth: usize) -> (expr: ArithExpr)
        ensures
            expr.generated(depth as nat),
        decreases depth,
    {
        if depth == 0 {
            ArithExpr::leaf(random_u64())
        } else {
            let left: ArithExpr = ArithExpr::gen(depth - 1);
            let right: ArithExpr = ArithExpr::gen(depth - 1);
            let op: ArithBinaryOp = ArithBinaryOp::gen();
            ArithExpr::Op(op, Box::new(left), Box::new(right))
        }
    }

    /// The simplest expression: the numeral 0.
    pub fn gen_simple() -> (expr: ArithExpr)
        ensures
            expr == ArithExpr::Numeral(0),
    {
        ArithExpr::Numeral(0)
    }

    /// Counts the fresh names that the term of the expression takes, unless
    /// the count leaves the range of `usize`.
    pub fn count_names(&self) -> (count: Option<usize>)
        ensures
            count == (if self.names_needed() <= usize::MAX {
                Some(self.names_needed() as usize)
            } else {
                None
            }),
        decreases *self,
    {
        match self {
            ArithExpr::Numeral(_) => Some(2),
            ArithExpr::Op(op, left, right) => {
                let base: usize = match op {
                    ArithBinaryOp::Add => 4,
                    ArithBinaryOp::Mul => 3,
                };
                match (left.count_names(), right.count_names()) {
                    (Some(a), Some(b)) => match a.checked_add(b) {
                        Some(sum) => sum.checked_add(base),
                        None => None,
                    },
                    _ => None,
                }
            },
        }
    }

    /// Builds the term of the expression and moves `id` past the names taken.
    pub fn elab(&self, id: &mut usize) -> (tree: Tree)
        requires
            *old(id) + self.names_needed() <= usize::MAX,
        ensures
            tree == self.elaborated(*old(id) as int),
            *final(id) == *old(id) + self.names_needed(),
        decreases *self,
    {
        match self {
            ArithExpr::Numeral(n) => {
                let f: usize = *id + 1;
                let x: usize = *id + 2;
                *id = *id + 2;
                numeral(*n, f, x)
            },
            ArithExpr::Op(op, left, right) => {
                let head: Tree = op.elab(id);
                let first: Tree = left.elab(id);
                let second: Tree = right.elab(id);
                app(app(head, first), second)
            },
        }
    }
}

/// An arithmetic expression on numerals and up to two variables.
#[derive(Debug, PartialEq, Eq)]
pub enum VariableExpr {
    Numeral(u64),
    Var1,
    Var2,
    Op(ArithBinaryOp, Box<VariableExpr>, Box<VariableExpr>),
}

impl VariableExpr {
    /// The value of the expression where the variables stand for `v1` and
    /// `v2`; `None` where a part of it has a value outside the range of `u64`.
    pub open spec fn value(self, v1: u64, v2: u64) -> Option<u64>
        decreases self,
    {
        match self {
            VariableExpr::Numeral(x) => Some(x),
            VariableExpr::Var1 => Some(v1),
            VariableExpr::Var2 => Some(v2),
            VariableExpr::Op(op, left, right) => match (left.value(v1, v2), right.value(v1, v2)) {
                (Some(a), Some(b)) => op.applied(a, b),
                _ => None,
            },
        }
    }

    /// Whether the expression is one that `gen` makes for the given depth
    /// and number of variables: a full tree of additions over numerals
    /// below 2 and the variables allowed.
    pub open spec fn generated(self, depth: nat, var_count: nat) -> bool
        decreases depth,
    {
        if depth == 0 {
            match self {
                VariableExpr::Numeral(n) => n < 2,
                VariableExpr::Var1 => var_count >= 1,
                VariableExpr::Var2 => var_count >= 2,
                VariableExpr::Op(_, _, _) => false,
            }
        } else {
            self matches VariableExpr::Op(op, left, right) && op == ArithBinaryOp::Add
                && left.generated((depth - 1) as nat, var_count) && right.generated(
                (depth - 1) as nat,
                var_count,
            )
        }
    }

    /// The number of fresh names that the body of the expression takes.
    pub open spec fn body_names(self) -> nat
        decreases self,
    {
        match self {
            VariableExpr::Numeral(_) => 2,
            VariableExpr::Var1 | VariableExpr::Var2 => 0,
            VariableExpr::Op(op, left, right) => op.names_needed() + left.body_names()
                + right.body_names(),
        }
    }

    /// The term of the body of the expression, with `u` and `v` for the two
    /// variables and its binders named by the numbers that follow `id`.
    pub open spec fn body(self, u: usize, v: usize, id: int) -> Tree
        decreases self,
    {
        match self {
            VariableExpr::Numeral(n) => Tree::church_numeral(
                n as nat,
                (id + 1) as usize,
                (id + 2) as usize,
            ),
            VariableExpr::Var1 => Tree::Var(u),
            VariableExpr::Var2 => Tree::Var(v),
            VariableExpr::Op(op, left, right) => app_term(
                app_term(op.term(id), left.body(u, v, id + op.names_needed())),
                right.body(u, v, id + op.names_needed() + left.body_names()),
            ),
        }
    }

    /// The number of fresh names that the term of the expression takes as a
    /// function of `var_count` variables.
    pub open spec fn names_needed(self, var_count: nat) -> nat {
        var_count + self.body_names()
    }

    /// The term of the expression as a function of its variables: the body
    /// under one binder where `var_count` is 1, under two where it is 2,
    /// and bare otherwise. The variables take the first two names after
    /// `id`, the body those after the first `var_count`.
    pub open spec fn elaborated(self, var_count: nat, id: int) -> Tree {
        let body = self.body((id + 1) as usize, (id + 2) as usize, id + var_count);
        if var_count == 1 {
            abs_term(id + 1, body)
        } else if var_count == 2 {
            abs_term(id + 1, abs_term(id + 2, body))
        } else {
            body
        }
    }

    /// Evaluates the expression, unless a value leaves the range of `u64`.
    pub fn checked_eval(&self, v1: u64, v2: u64) -> (value: Option<u64>)
        ensures
            value == self.value(v1, v2),
        decreases *self,
    {
        match self {
            VariableExpr::Numeral(x) => Some(*x),
            VariableExpr::Var1 => Some(v1),
            VariableExpr::Var2 => Some(v2),
            VariableExpr::Op(op, left, right) => {
                let a: Option<u64> = left.checked_eval(v1, v2);
                let b: Option<u64> = right.checked_eval(v1, v2);
                match (a, b) {
                    (Some(a), Some(b)) => op.apply(a, b),
                    _ => None,
                }
            },
        }
    }

    /// Evaluates an expression whose values stay in the range of `u64`.
    pub fn eval(&self, v1: u64, v2: u64) -> (value: u64)
        requires
            self.value(v1, v2) is Some,
        ensures
            self.value(v1, v2) == Some(value),
    {
        self.checked_eval(v1, v2).unwrap()
    }

    /// The leaf for two draws and a number of variables. The first draw
    /// picks among a numeral and the variables allowed; the second gives
    /// the numeral, 0 or 1.
    pub fn leaf(choice: u64, draw: u64, var_count: usize) -> (expr: VariableExpr)
        ensures
            expr == (if var_count == 0 || choice % (if var_count > 1 {
                3u64
            } else {
                2u64
            }) == 0 {
                VariableExpr::Numeral(draw % 2)
            } else if choice % (if var_count > 1 {
                3u64
            } else {
                2u64
            }) == 1 {
                VariableExpr::Var1
            } else {
                VariableExpr::Var2
            }),
            expr.generated(0, var_count as nat),
    {
        let pick: u64 = if var_count > 1 {
            choice % 3
        } else if var_count == 1 {
            choice % 2
        } else {
            0
        };
        if pick == 0 {
            VariableExpr::Numeral(draw % 2)
        } else if pick == 1 {
            VariableExpr::Var1
        } else {
            VariableExpr::Var2
        }
    }

    /// Draws an expression of the given depth on `var_count` variables.
    pub fn gen(depth: usize, var_count: usize) -> (expr: VariableExpr)
        ensures
            expr.generated(depth as nat, var_count as nat),
        decreases depth,
    {
        if depth == 0 {
            VariableExpr::leaf(random_u64(), random_u64(), var_count)
        } else {
            let left: VariableExpr = VariableExpr::gen(depth - 1, var_count);
            let right: VariableExpr = VariableExpr::gen(depth - 1, var_count);
            let op: ArithBinaryOp = ArithBinaryOp::gen();
            VariableExpr::Op(op, Box::new(left), Box::new(right))
        }
    }

    /// Counts the fresh names that the body of the expression takes, unless
    /// the count leaves the range of `usize`.
    pub fn count_body_names(&self) -> (count: Option<usize>)
        ensures
            count == (if self.body_names() <= usize::MAX {
                Some(self.body_names() as usize)
            } else {
                None
            }),
        decreases *self,
    {
        match self {
            VariableExpr::Numeral(_) => Some(2),
            VariableExpr::Var1 => Some(0),
            VariableExpr::Var2 => Some(0),
            VariableExpr::Op(op, left, right) => {
                let base: usize = match op {
                    ArithBinaryOp::Add => 4,
                    ArithBinaryOp::Mul => 3,
                };
                match (left.count_body_names(), right.count_body_names()) {
                    (Some(a), Some(b)) => match a.checked_add(b) {
                        Some(sum) => sum.checked_add(base),
                        None => None,
                    },
                    _ => None,
                }
            },
        }
    }

    /// Builds the term of the body and moves `id` past the names taken.
    pub fn elab_helper(&self, u: usize, v: usize, id: &mut usize) -> (tree: Tree)
        requires
            *old(id) + self.body_names() <= usize::MAX,
        ensures
            tree == self.body(u, v, *old(id) as int),
            *final(id) == *old(id) + self.body_names(),
        decreases *self,
    {
        match self {
            VariableExpr::Numeral(n) => {
                let f: usize = *id + 1;
                let x: usize = *id + 2;
                *id = *id + 2;
                numeral(*n, f, x)
            },
            VariableExpr::Var1 => Tree::Var(u),
            VariableExpr::Var2 => Tree::Var(v),
            VariableExpr::Op(op, left, right) => {
                let head: Tree = op.elab(id);
                let first: Tree = left.elab_helper(u, v, id);
                let second: Tree = right.elab_helper(u, v, id);
                app(app(head, first), second)
            },
        }
    }

    /// Builds the term of the expression as a function of `var_count`
    /// variables and moves `id` past the names taken.
    pub fn elab(&self, var_count: usize, id: &mut usize) -> (tree: Tree)
        requires
            *old(id) + 2 <= usize::MAX,
            *old(id) + self.names_needed(var_count as nat) <= usize::MAX,
        ensures
            tree == self.elaborated(var_count as nat, *old(id) as int),
            *final(id) == *old(id) + self.names_needed(var_count as nat),
    {
        let u: usize = *id + 1;
        let v: usize = *id + 2;
        *id = *id + var_count;
        let mut tree: Tree = self.elab_helper(u, v, id);
        if var_count == 1 {
            tree = lam(u, tree);
        } else if var_count == 2 {
            tree = lam(u, lam(v, tree));
        }
        tree
    }
}

/// The values of the expressions in `items`; `None` where one has none.
pub open spec fn values_of(items: Seq<ArithExpr>) -> Option<Seq<u64>>
    decreases items.len(),
{
    if items.len() == 0 {
        Some(Seq::empty())
    } else {
        match (items[0].value(), values_of(items.drop_first())) {
            (Some(first), Some(rest)) => Some(seq![first] + rest),
            _ => None,
        }
    }
}

/// The values that `op` gives for each of `values` as its first variable,
/// with 0 as its second; `None` where one has none.
pub open spec fn mapped_by(op: VariableExpr, values: Seq<u64>) -> Option<Seq<u64>>
    decreases values.len(),
{
    if values.len() == 0 {
        Some(Seq::empty())
    } else {
        match (op.value(values[0], 0), mapped_by(op, values.drop_first())) {
            (Some(first), Some(rest)) => Some(seq![first] + rest),
            _ => None,
        }
    }
}

/// The values that the maps in `ops` make of `values`, the first map
/// applied first.
pub open spec fn mapped_through(ops: Seq<VariableExpr>, values: Seq<u64>) -> Option<Seq<u64>>
    decreases ops.len(),
{
    if ops.len() == 0 {
        Some(values)
    } else {
        match mapped_by(ops[0], values) {
            Some(next) => mapped_through(ops.drop_first(), next),
            None => None,
        }
    }
}

/// The result of folding `op` over `values` from the left, starting with
/// `start`: at each step `op` gets the value as its first variable and what
/// has been gathered as its second.
pub open spec fn folded_by(op: VariableExpr, values: Seq<u64>, start: u64) -> Option<u64>
    decreases values.len(),
{
    if values.len() == 0 {
        Some(start)
    } else {
        match op.value(values[0], start) {
            Some(next) => folded_by(op, values.drop_first(), next),
            None => None,
        }
    }
}

/// The number of fresh names that the terms of `items` take together.
pub open spec fn names_of(items: Seq<ArithExpr>) -> nat
    decreases items.len(),
{
    if items.len() == 0 {
        0
    } else {
        items[0].names_needed() + names_of(items.drop_first())
    }
}

/// The number of fresh names that the map stages of `ops` take together:
/// five for each map and what its function takes.
pub open spec fn stage_names(ops: Seq<VariableExpr>) -> nat
    decreases ops.len(),
{
    if ops.len() == 0 {
        0
    } else {
        5 + ops[0].names_needed(1) + stage_names(ops.drop_first())
    }
}

/// The body of a Church-encoded list: `cons x1 (cons x2 (.. nil))`. The
/// items take their names after `id` from the last item to the first.
pub open spec fn list_chain(items: Seq<ArithExpr>, nil: int, cons: int, id: int) -> Tree
    decreases items.len(),
{
    if items.len() == 0 {
        var_term(nil)
    } else {
        app_term(
            app_term(var_term(cons), items[0].elaborated(id + names_of(items.drop_first()))),
            list_chain(items.drop_first(), nil, cons, id),
        )
    }
}

/// The term of the Church-encoded list of `items`: `\cons.\nil. ..`, with
/// `nil` and `cons` named by the two numbers that follow `id`.
pub open spec fn list_term(items: Seq<ArithExpr>, id: int) -> Tree {
    abs_term(id + 2, abs_term(id + 1, list_chain(items, id + 1, id + 2, id + 2)))
}

/// The term `tree` with the maps of `ops` applied to it one after another,
/// each as `map f tree`; the stages take their names after `id` in turn.
pub open spec fn staged(ops: Seq<VariableExpr>, tree: Tree, id: int) -> Tree
    decreases ops.len(),
{
    if ops.len() == 0 {
        tree
    } else {
        staged(
            ops.drop_first(),
            app_term(app_term(map_term(id), ops[0].elaborated(1, id + 5)), tree),
            id + 5 + ops[0].names_needed(1),
        )
    }
}

/// A suffix of a list of expressions takes no more names than the list.
pub proof fn lemma_names_of_suffix(items: Seq<ArithExpr>, from: int)
    requires
        0 <= from <= items.len(),
    ensures
        names_of(items.subrange(from, items.len() as int)) <= names_of(items),
    decreases from,
{
    if from == 0 {
        assert(items.subrange(0, items.len() as int) == items);
    } else {
        lemma_names_of_suffix(items, from - 1);
        let longer = items.subrange(from - 1, items.len() as int);
        assert(longer.drop_first() == items.subrange(from, items.len() as int));
    }
}

/// A list of numerals with the maps that work on it.
#[derive(Debug, PartialEq, Eq)]
pub enum ListMapSequence {
    /// The maps, the first to be applied first, and the items of the list.
    MapSeq(Vec<VariableExpr>, Vec<ArithExpr>),
}

impl ListMapSequence {
    /// The maps, the first to be applied first.
    pub open spec fn ops(self) -> Seq<VariableExpr> {
        self->0@
    }

    /// The items of the list.
    pub open spec fn items(self) -> Seq<ArithExpr> {
        self->1@
    }

    /// The values of the list after all maps; `None` where a value leaves
    /// the range of `u64`.
    pub open spec fn values(self) -> Option<Seq<u64>> {
        match values_of(self.items()) {
            Some(start) => mapped_through(self.ops(), start),
            None => None,
        }
    }

    /// Whether the sequence is one that `gen` makes: `depth` maps, each a
    /// generated expression of depth `1 + depth / 2` on one variable, and
    /// `len` items, each a generated expression of depth `depth`.
    pub open spec fn generated(self, depth: nat, len: nat) -> bool {
        &&& self.ops().len() == depth
        &&& forall|i: int|
            0 <= i < self.ops().len() ==> (#[trigger] self.ops()[i]).generated(1 + depth / 2, 1)
        &&& self.items().len() == len
        &&& forall|i: int|
            0 <= i < self.items().len() ==> (#[trigger] self.items()[i]).generated(depth)
    }

    /// The number of fresh names that the term of the sequence takes.
    pub open spec fn names_needed(self) -> nat {
        2 + names_of(self.items()) + stage_names(self.ops())
    }

    /// The term of the sequence: the list, with each map applied to it.
    pub open spec fn elaborated(self, id: int) -> Tree {
        staged(self.ops(), list_term(self.items(), id), id + 2 + names_of(self.items()))
    }

    /// Evaluates the list and the maps on it, unless a value leaves the
    /// range of `u64`.
    pub fn checked_eval(&self) -> (values: Option<Vec<u64>>)
        ensures
            match self.values() {
                Some(expected) => values is Some && values->0@ == expected,
                None => values is None,
            },
    {
        match self {
            ListMapSequence::MapSeq(ops, list) => {
                let mut result: Vec<u64> = Vec::new();
                let mut i: usize = 0;
                proof {
                    assert(list@.subrange(0, list.len() as int) == list@);
                    let all = values_of(list@);
                    if all is Some {
                        assert(result@ + all->0 == all->0);
                    }
                }
                while i < list.len()
                    invariant
                        i <= list.len(),
                        list@ == self.items(),
                        match values_of(list@.subrange(i as int, list.len() as int)) {
                            Some(rest) => values_of(list@) == Some(result@ + rest),
                            None => values_of(list@) is None,
                        },
                    decreases list.len() - i,
                {
                    proof {
                        let rest = list@.subrange(i as int, list.len() as int);
                        assert(rest.drop_first() == list@.subrange(i + 1, list.len() as int));
                        assert(rest[0] == list@[i as int]);
                    }
                    match list[i].checked_eval() {
                        Some(value) => {
                            proof {
                                let rest = values_of(list@.subrange(i + 1, list.len() as int));
                                if rest is Some {
                                    assert(result@.push(value) + rest->0 == result@ + (seq![value]
                                        + rest->0));
                                }
                            }
                            result.push(value);
                        },
                        None => {
                            return None;
                        },
                    }
                    i = i + 1;
                }
                assert(values_of(list@) == Some(result@)) by {
                    assert(result@ + Seq::<u64>::empty() == result@);
                }
                let mut k: usize = 0;
                assert(ops@.subrange(0, ops.len() as int) == ops@);
                while k < ops.len()
                    invariant
                        k <= ops.len(),
                        list@ == self.items(),
                        ops@ == self.ops(),
                        values_of(list@) is Some,
                        mapped_through(ops@.subrange(k as int, ops.len() as int), result@)
                            == mapped_through(ops@, values_of(list@)->0),
                    decreases ops.len() - k,
                {
                    proof {
                        let rest = ops@.subrange(k as int, ops.len() as int);
                        assert(rest.drop_first() == ops@.subrange(k + 1, ops.len() as int));
                        assert(rest[0] == ops@[k as int]);
                    }
                    let mut next: Vec<u64> = Vec::new();
                    let mut j: usize = 0;
                    proof {
                        assert(result@.subrange(0, result.len() as int) == result@);
                        let all = mapped_by(ops@[k as int], result@);
                        if all is Some {
                            assert(next@ + all->0 == all->0);
                        }
                    }
                    while j < result.len()
                        invariant
                            j <= result.len(),
                            k < ops.len(),
                            list@ == self.items(),
                            ops@ == self.ops(),
                            values_of(list@) is Some,
                            mapped_through(ops@.subrange(k as int, ops.len() as int), result@)
                                == mapped_through(ops@, values_of(list@)->0),
                            ops@.subrange(k as int, ops.len() as int).len() > 0,
                            ops@.subrange(k as int, ops.len() as int)[0] == ops@[k as int],
                            match mapped_by(
                                ops@[k as int],
                                result@.subrange(j as int, result.len() as int),
                            ) {
                                Some(rest) => mapped_by(ops@[k as int], result@) == Some(
                                    next@ + rest,
                                ),
                                None => mapped_by(ops@[k as int], result@) is None,
                            },
                        decreases result.len() - j,
                    {
                        proof {
                            let rest = result@.subrange(j as int, result.len() as int);
                            assert(rest.drop_first() == result@.subrange(
                                j + 1,
                                result.len() as int,
                            ));
                            assert(rest[0] == result@[j as int]);
                        }
                        match ops[k].checked_eval(result[j], 0) {
                            Some(value) => {
                                proof {
                                    let rest = mapped_by(
                                        ops@[k as int],
                                        result@.subrange(j + 1, result.len() as int),
                                    );
                                    if rest is Some {
                                        assert(next@.push(value) + rest->0 == next@ + (seq![value]
                                            + rest->0));
                                    }
                                }
                                next.push(value);
                            },
                            None => {
                                return None;
                            },
                        }
                        j = j + 1;
                    }
                    assert(mapped_by(ops@[k as int], result@) == Some(next@)) by {
                        assert(next@ + Seq::<u64>::empty() == next@);
                    }
                    result = next;
                    k = k + 1;
                }
                Some(result)
            },
        }
    }

    /// Evaluates a sequence whose values stay in the range of `u64`.
    pub fn eval(&self) -> (values: Vec<u64>)
        requires
            self.values() is Some,
        ensures
            self.values() == Some(values@),
    {
        self.checked_eval().unwrap()
    }

    /// Draws a sequence of `depth` maps over a list of `len` items.
    pub fn gen(depth: usize, len: usize) -> (sequence: ListMapSequence)
        ensures
            sequence.generated(depth as nat, len as nat),
    {
        let mut ops: Vec<VariableExpr> = Vec::new();
        let mut exprs: Vec<ArithExpr> = Vec::new();
        let mut i: usize = 0;
        while i < depth
            invariant
                i <= depth,
                ops.len() == i,
                forall|k: int|
                    0 <= k < ops.len() ==> (#[trigger] ops@[k]).generated(
                        1 + (depth as nat) / 2,
                        1,
                    ),
            decreases depth - i,
        {
            ops.push(VariableExpr::gen(1 + depth / 2, 1));
            i = i + 1;
        }
        let mut j: usize = 0;
        while j < len
            invariant
                j <= len,
                exprs.len() == j,
                forall|k: int| 0 <= k < exprs.len() ==> (#[trigger] exprs@[k]).generated(depth as nat),
            decreases len - j,
        {
            exprs.push(ArithExpr::gen(depth));
            j = j + 1;
        }
        ListMapSequence::MapSeq(ops, exprs)
    }

    /// Counts the fresh names that the term of the sequence takes, unless
    /// the count leaves the range of `usize`.
    pub fn count_names(&self) -> (count: Option<usize>)
        ensures
            count == (if self.names_needed() <= usize::MAX {
                Some(self.names_needed() as usize)
            } else {
                None
            }),
    {
        match self {
            ListMapSequence::MapSeq(ops, list) => {
                let mut total: usize = 2;
                let mut i: usize = 0;
                assert(list@.subrange(0, list.len() as int) == list@);
                while i < list.len()
                    invariant
                        i <= list.len(),
                        list@ == self.items(),
                        total + names_of(list@.subrange(i as int, list.len() as int)) == 2
                            + names_of(list@),
                    decreases list.len() - i,
                {
                    proof {
                        let rest = list@.subrange(i as int, list.len() as int);
                        assert(rest.drop_first() == list@.subrange(i + 1, list.len() as int));
                        assert(rest[0] == list@[i as int]);
                    }
                    let more: Option<usize> = match list[i].count_names() {
                        Some(names) => total.checked_add(names),
                        None => None,
                    };
                    match more {
                        Some(sum) => {
                            total = sum;
                        },
                        None => {
                            return None;
                        },
                    }
                    i = i + 1;
                }
                let mut k: usize = 0;
                assert(ops@.subrange(0, ops.len() as int) == ops@);
                while k < ops.len()
                    invariant
                        k <= ops.len(),
                        ops@ == self.ops(),
                        list@ == self.items(),
                        total + stage_names(ops@.subrange(k as int, ops.len() as int))
                            == self.names_needed(),
                    decreases ops.len() - k,
                {
                    proof {
                        let rest = ops@.subrange(k as int, ops.len() as int);
                        assert(rest.drop_first() == ops@.subrange(k + 1, ops.len() as int));
                        assert(rest[0] == ops@[k as int]);
                    }
                    let more: Option<usize> = match ops[k].count_body_names() {
                        Some(names) => match names.checked_add(6) {
                            Some(stage) => total.checked_add(stage),
                            None => None,
                        },
                        None => None,
                    };
                    match more {
                        Some(sum) => {
                            total = sum;
                        },
                        None => {
                            return None;
                        },
                    }
                    k = k + 1;
                }
                Some(total)
            },
        }
    }

    /// Builds the term of the map over a list and moves `id` past its five names.
    pub fn elab_map(&self, id: &mut usize) -> (tree: Tree)
        requires
            *old(id) + 5 <= usize::MAX,
        ensures
            tree == map_term(*old(id) as int),
            *final(id) == *old(id) + 5,
    {
        let f: usize = *id + 1;
        let arg: usize = *id + 2;
        let cons: usize = *id + 3;
        let nil: usize = *id + 4;
        let x: usize = *id + 5;
        *id = *id + 5;
        lam(
            f,
            lam(
                arg,
                lam(
                    cons,
                    lam(
                        nil,
                        app(app(var(arg), lam(x, app(var(cons), app(var(f), var(x))))), var(nil)),
                    ),
                ),
            ),
        )
    }

    /// Builds the term of the list and moves `id` past the names taken.
    pub fn elab_list(&self, id: &mut usize) -> (tree: Tree)
        requires
            *old(id) + 2 + names_of(self.items()) <= usize::MAX,
        ensures
            tree == list_term(self.items(), *old(id) as int),
            *final(id) == *old(id) + 2 + names_of(self.items()),
    {
        let nil: usize = *id + 1;
        let cons: usize = *id + 2;
        *id = *id + 2;
        let mut tree: Tree = var(nil);
        match self {
            ListMapSequence::MapSeq(_, list) => {
                let mut i: usize = list.len();
                assert(list@.subrange(i as int, list.len() as int) == Seq::<ArithExpr>::empty());
                while i > 0
                    invariant
                        i <= list.len(),
                        *old(id) + 2 + names_of(list@) <= usize::MAX,
                        nil == *old(id) + 1,
                        cons == *old(id) + 2,
                        *id == *old(id) + 2 + names_of(
                            list@.subrange(i as int, list.len() as int),
                        ),
                        tree == list_chain(
                            list@.subrange(i as int, list.len() as int),
                            nil as int,
                            cons as int,
                            *old(id) + 2,
                        ),
                    decreases i,
                {
                    proof {
                        lemma_names_of_suffix(list@, i - 1);
                        let longer = list@.subrange(i - 1, list.len() as int);
                        assert(longer.drop_first() == list@.subrange(
                            i as int,
                            list.len() as int,
                        ));
                        assert(longer[0] == list@[i - 1]);
                    }
                    let item: Tree = list[i - 1].elab(id);
                    tree = app(app(var(cons), item), tree);
                    i = i - 1;
                }
                assert(list@.subrange(0, list.len() as int) == list@);
            },
        }
        lam(cons, lam(nil, tree))
    }

    /// Builds the term of the sequence and moves `id` past the names taken.
    pub fn elab(&self, id: &mut usize) -> (tree: Tree)
        requires
            *old(id) + self.names_needed() < usize::MAX,
        ensures
            tree == self.elaborated(*old(id) as int),
            *final(id) == *old(id) + self.names_needed(),
    {
        let mut tree: Tree = self.elab_list(id);
        match self {
            ListMapSequence::MapSeq(maps, _) => {
                let mut k: usize = 0;
                assert(maps@.subrange(0, maps.len() as int) == maps@);
                while k < maps.len()
                    invariant
                        k <= maps.len(),
                        maps@ == self.ops(),
                        *id + stage_names(maps@.subrange(k as int, maps.len() as int)) == *old(
                            id,
                        ) + self.names_needed(),
                        *old(id) + self.names_needed() < usize::MAX,
                        staged(maps@.subrange(k as int, maps.len() as int), tree, *id as int)
                            == self.elaborated(*old(id) as int),
                    decreases maps.len() - k,
                {
                    proof {
                        let rest = maps@.subrange(k as int, maps.len() as int);
                        assert(rest.drop_first() == maps@.subrange(k + 1, maps.len() as int));
                        assert(rest[0] == maps@[k as int]);
                    }
                    let head: Tree = self.elab_map(id);
                    let function: Tree = maps[k].elab(1, id);
                    tree = app(app(head, function), tree);
                    k = k + 1;
                }
            },
        }
        tree
    }
}

/// A fold over a list that maps have worked on.
#[derive(Debug, PartialEq, Eq)]
pub enum ListFold {
    /// The operation that folds, the value to start with, and the list.
    Fold(VariableExpr, ArithExpr, ListMapSequence),
}

impl ListFold {
    /// The operation that `gen` folds with: the sum of the two variables.
    pub open spec fn sum() -> VariableExpr {
        VariableExpr::Op(
            ArithBinaryOp::Add,
            Box::new(VariableExpr::Var1),
            Box::new(VariableExpr::Var2),
        )
    }

    /// The value of the fold; `None` where a value leaves the range of `u64`.
    pub open spec fn value(self) -> Option<u64> {
        match (self->2.values(), self->1.value()) {
            (Some(values), Some(start)) => folded_by(self->0, values, start),
            _ => None,
        }
    }

    /// Whether the fold is one that `gen` makes: the sum, folded from a
    /// generated start over a generated sequence.
    pub open spec fn generated(self, depth: nat, len: nat) -> bool {
        &&& self->0 == ListFold::sum()
        &&& self->1.generated(depth)
        &&& self->2.generated(depth, len)
    }

    /// The number of fresh names that the term of the fold takes.
    pub open spec fn names_needed(self) -> nat {
        4 + self->0.names_needed(2) + self->1.names_needed() + self->2.names_needed()
    }

    /// The term of the fold: `fold op init list`, the four parts taking
    /// their names after `id` in that order.
    pub open spec fn elaborated(self, id: int) -> Tree {
        let after_fold = id + 4;
        let after_op = after_fold + self->0.names_needed(2);
        let after_init = after_op + self->1.names_needed();
        app_term(
            app_term(
                app_term(fold_term(id), self->0.elaborated(2, after_fold)),
                self->1.elaborated(after_op),
            ),
            self->2.elaborated(after_init),
        )
    }

    /// Evaluates the fold, unless a value leaves the range of `u64`.
    pub fn checked_eval(&self) -> (value: Option<u64>)
        ensures
            value == self.value(),
    {
        match self {
            ListFold::Fold(op, init, list) => {
                let values: Vec<u64> = match list.checked_eval() {
                    Some(values) => values,
                    None => {
                        return None;
                    },
                };
                let mut gathered: u64 = match init.checked_eval() {
                    Some(start) => start,
                    None => {
                        return None;
                    },
                };
                let mut i: usize = 0;
                assert(values@.subrange(0, values.len() as int) == values@);
                while i < values.len()
                    invariant
                        i <= values.len(),
                        folded_by(
                            *op,
                            values@.subrange(i as int, values.len() as int),
                            gathered,
                        ) == self.value(),
                    decreases values.len() - i,
                {
                    proof {
                        let rest = values@.subrange(i as int, values.len() as int);
                        assert(rest.drop_first() == values@.subrange(
                            i + 1,
                            values.len() as int,
                        ));
                        assert(rest[0] == values@[i as int]);
                    }
                    match op.checked_eval(values[i], gathered) {
                        Some(next) => {
                            gathered = next;
                        },
                        None => {
                            return None;
                        },
                    }
                    i = i + 1;
                }
                Some(gathered)
            },
        }
    }

    /// Evaluates a fold whose values stay in the range of `u64`.
    pub fn eval(&self) -> (value: u64)
        requires
            self.value() is Some,
        ensures
            self.value() == Some(value),
    {
        self.checked_eval().unwrap()
    }

    fn sum_op() -> (op: VariableExpr)
        ensures
            op == ListFold::sum(),
    {
        VariableExpr::Op(
            ArithBinaryOp::Add,
            Box::new(VariableExpr::Var1),
            Box::new(VariableExpr::Var2),
        )
    }

    /// Draws a fold of the sum over a list of `len` items under `depth` maps.
    pub fn gen(depth: usize, len: usize) -> (fold: ListFold)
        ensures
            fold.generated(depth as nat, len as nat),
            fold.proper(),
    {
        let op: VariableExpr = ListFold::sum_op();
        let init: ArithExpr = ArithExpr::gen(depth);
        let seq: ListMapSequence = ListMapSequence::gen(depth, len);
        let fold = ListFold::Fold(op, init, seq);
        proof {
            fold.lemma_generated_proper(depth as nat, len as nat);
        }
        fold
    }

    /// The simplest fold: the sum, folded from 0 over the empty list.
    pub fn gen_simple() -> (fold: ListFold)
        ensures
            fold->0 == ListFold::sum(),
            fold->1 == ArithExpr::Numeral(0),
            fold->2.ops().len() == 0,
            fold->2.items().len() == 0,
    {
        let op: VariableExpr = ListFold::sum_op();
        let init: ArithExpr = ArithExpr::gen_simple();
        let seq: ListMapSequence = ListMapSequence::gen(0, 0);
        ListFold::Fold(op, init, seq)
    }

    /// Counts the fresh names that the term of the fold takes, unless the
    /// count leaves the range of `usize`.
    pub fn count_names(&self) -> (count: Option<usize>)
        ensures
            count == (if self.names_needed() <= usize::MAX {
                Some(self.names_needed() as usize)
            } else {
                None
            }),
    {
        match self {
            ListFold::Fold(op, init, list) => {
                let function: usize = match op.count_body_names() {
                    Some(names) => names,
                    None => {
                        return None;
                    },
                };
                let start: usize = match init.count_names() {
                    Some(names) => names,
                    None => {
                        return None;
                    },
                };
                let items: usize = match list.count_names() {
                    Some(names) => names,
                    None => {
                        return None;
                    },
                };
                match function.checked_add(start) {
                    Some(sum) => match sum.checked_add(items) {
                        Some(sum) => sum.checked_add(6),
                        None => None,
                    },
                    None => None,
                }
            },
        }
    }

    /// Builds the term of the fold over a list and moves `id` past its four names.
    pub fn elab_fold(&self, id: &mut usize) -> (tree: Tree)
        requires
            *old(id) + 4 <= usize::MAX,
        ensures
            tree == fold_term(*old(id) as int),
            *final(id) == *old(id) + 4,
    {
        let f: usize = *id + 1;
        let init: usize = *id + 2;
        let arg: usize = *id + 3;
        let x: usize = *id + 4;
        *id = *id + 4;
        lam(f, lam(init, lam(arg, app(app(var(arg), lam(x, app(var(f), var(x)))), var(init)))))
    }

    /// Builds the term of the fold and moves `id` past the names taken.
    /// The term of a proper fold is closed, and each of its binders takes a
    /// name that no binder around it has.
    pub fn elab(&self, id: &mut usize) -> (tree: Tree)
        requires
            *old(id) + self.names_needed() < usize::MAX,
        ensures
            tree == self.elaborated(*old(id) as int),
            *final(id) == *old(id) + self.names_needed(),
            self.proper() ==> tree.tidy(Seq::empty()),
    {
        proof {
            if self.proper() {
                self.lemma_elaborated_tidy(*old(id) as int);
            }
        }
        match self {
            ListFold::Fold(op, init, list) => {
                let head: Tree = self.elab_fold(id);
                let function: Tree = op.elab(2, id);
                let start: Tree = init.elab(id);
                let items: Tree = list.elab(id);
                app(app(app(head, function), start), items)
            },
        }
    }
}

} // verus!
