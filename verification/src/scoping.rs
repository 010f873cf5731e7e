//! The terms that the expressions elaborate to are closed, and each of
//! their binders takes a name that no binder around it has.

use vstd::prelude::*;
use crate::expr::{
    abs_term, app_term, fold_term, list_chain, list_term, map_term, names_of, plus_term, stage_names,
    staged, times_term, var_term, ArithBinaryOp, ArithExpr, ListFold, ListMapSequence,
    VariableExpr,
};
use crate::optimal::net::NetView;
use crate::optimal::readback::GAS;
use crate::tree::Tree;

verus! {

/// Whether every name of the scope is at most `id`.
pub open spec fn below(scope: Seq<usize>, id: int) -> bool {
    forall|i: int| 0 <= i < scope.len() ==> #[trigger] scope[i] <= id
}

/// A scope with one more name holds the names it held and the new one.
pub proof fn lemma_push_contains(scope: Seq<usize>, name: usize, other: usize)
    ensures
        scope.push(name).contains(other) <==> (name == other || scope.contains(other)),
{
    if scope.push(name).contains(other) {
        let i = choose|i: int| 0 <= i < scope.push(name).len() && scope.push(name)[i] == other;
        if i < scope.len() {
            assert(scope[i] == other);
        }
    }
    if scope.contains(other) {
        let i = choose|i: int| 0 <= i < scope.len() && scope[i] == other;
        assert(scope.push(name)[i] == other);
    }
    if name == other {
        assert(scope.push(name)[scope.len() as int] == other);
    }
}

/// A scope below `id` holds no name above `id`, and stays below any larger
/// number when a name at most that large joins it.
pub proof fn lemma_below(scope: Seq<usize>, id: int, name: usize, more: int)
    requires
        below(scope, id),
        id <= more,
    ensures
        name > id ==> !scope.contains(name),
        name <= more ==> below(scope.push(name), more),
{
    if scope.contains(name) {
        let i = choose|i: int| 0 <= i < scope.len() && scope[i] == name;
        assert(scope[i] <= id);
    }
    if name <= more {
        assert forall|i: int| 0 <= i < scope.push(name).len() implies #[trigger] scope.push(
            name,
        )[i] <= more by {
            if i < scope.len() {
                assert(scope[i] <= id);
            }
        }
    }
}

impl Tree {
    /// The body of a Church numeral is closed where its two names are in scope.
    pub proof fn lemma_chain_tidy(n: nat, f: usize, x: usize, scope: Seq<usize>)
        requires
            scope.contains(f),
            scope.contains(x),
        ensures
            Tree::church_chain(n, f, x).tidy(scope),
        decreases n,
    {
        assert(Tree::Var(f).tidy(scope));
        assert(Tree::Var(x).tidy(scope));
        if n > 0 {
            Tree::lemma_chain_tidy((n - 1) as nat, f, x, scope);
        }
    }

    /// A Church numeral with two names from above the scope is tidy.
    pub proof fn lemma_numeral_tidy(n: nat, id: int, scope: Seq<usize>)
        requires
            below(scope, id),
            0 <= id,
            id + 2 <= usize::MAX,
        ensures
            Tree::church_numeral(n, (id + 1) as usize, (id + 2) as usize).tidy(scope),
    {
        let f = (id + 1) as usize;
        let x = (id + 2) as usize;
        lemma_below(scope, id, f, id + 1);
        lemma_below(scope.push(f), id + 1, x, id + 2);
        lemma_push_contains(scope, f, f);
        lemma_push_contains(scope.push(f), x, f);
        lemma_push_contains(scope.push(f), x, x);
        Tree::lemma_chain_tidy(n, f, x, scope.push(f).push(x));
        let inner = Tree::Abs(x, Box::new(Tree::church_chain(n, f, x)));
        assert(inner.tidy(scope.push(f)));
    }
}

/// The term of addition, with names from above the scope, is tidy.
pub proof fn lemma_plus_tidy(id: int, scope: Seq<usize>)
    requires
        below(scope, id),
        0 <= id,
        id + 4 <= usize::MAX,
    ensures
        plus_term(id).tidy(scope),
{
    let (m, n, f, x) = ((id + 1) as usize, (id + 2) as usize, (id + 3) as usize, (id + 4) as usize);
    let s1 = scope.push(m);
    let s2 = s1.push(n);
    let s3 = s2.push(f);
    let s4 = s3.push(x);
    lemma_below(scope, id, m, id + 1);
    lemma_below(s1, id + 1, n, id + 2);
    lemma_below(s2, id + 2, f, id + 3);
    lemma_below(s3, id + 3, x, id + 4);
    lemma_push_contains(scope, m, m);
    lemma_push_contains(s1, n, m);
    lemma_push_contains(s1, n, n);
    lemma_push_contains(s2, f, m);
    lemma_push_contains(s2, f, n);
    lemma_push_contains(s2, f, f);
    lemma_push_contains(s3, x, m);
    lemma_push_contains(s3, x, n);
    lemma_push_contains(s3, x, f);
    lemma_push_contains(s3, x, x);
    let left = app_term(var_term(id + 1), var_term(id + 3));
    let right = app_term(app_term(var_term(id + 2), var_term(id + 3)), var_term(id + 4));
    assert(var_term(id + 1).tidy(s4));
    assert(var_term(id + 2).tidy(s4));
    assert(var_term(id + 3).tidy(s4));
    assert(var_term(id + 4).tidy(s4));
    assert(left.tidy(s4));
    assert(app_term(var_term(id + 2), var_term(id + 3)).tidy(s4));
    assert(right.tidy(s4));
    let body = app_term(left, right);
    assert(body.tidy(s4));
    assert(abs_term(id + 4, body).tidy(s3));
    assert(abs_term(id + 3, abs_term(id + 4, body)).tidy(s2));
    assert(abs_term(id + 2, abs_term(id + 3, abs_term(id + 4, body))).tidy(s1));
}

/// The term of multiplication, with names from above the scope, is tidy.
pub proof fn lemma_times_tidy(id: int, scope: Seq<usize>)
    requires
        below(scope, id),
        0 <= id,
        id + 3 <= usize::MAX,
    ensures
        times_term(id).tidy(scope),
{
    let (m, n, f) = ((id + 1) as usize, (id + 2) as usize, (id + 3) as usize);
    let s1 = scope.push(m);
    let s2 = s1.push(n);
    let s3 = s2.push(f);
    lemma_below(scope, id, m, id + 1);
    lemma_below(s1, id + 1, n, id + 2);
    lemma_below(s2, id + 2, f, id + 3);
    lemma_push_contains(scope, m, m);
    lemma_push_contains(s1, n, m);
    lemma_push_contains(s1, n, n);
    lemma_push_contains(s2, f, m);
    lemma_push_contains(s2, f, n);
    lemma_push_contains(s2, f, f);
    let inner = app_term(var_term(id + 2), var_term(id + 3));
    assert(var_term(id + 1).tidy(s3));
    assert(var_term(id + 2).tidy(s3));
    assert(var_term(id + 3).tidy(s3));
    assert(inner.tidy(s3));
    let body = app_term(var_term(id + 1), inner);
    assert(body.tidy(s3));
    assert(abs_term(id + 3, body).tidy(s2));
    assert(abs_term(id + 2, abs_term(id + 3, body)).tidy(s1));
}

impl ArithBinaryOp {
    /// The term of the operation, with names from above the scope, is tidy.
    pub proof fn lemma_term_tidy(self, id: int, scope: Seq<usize>)
        requires
            below(scope, id),
            0 <= id,
            id + self.names_needed() <= usize::MAX,
        ensures
            self.term(id).tidy(scope),
    {
        match self {
            ArithBinaryOp::Add => lemma_plus_tidy(id, scope),
            ArithBinaryOp::Mul => lemma_times_tidy(id, scope),
        }
    }
}

impl ArithExpr {
    /// The term of an arithmetic expression, with names from above the
    /// scope, is tidy: it is closed, and no binder takes a name in scope.
    pub proof fn lemma_elaborated_tidy(self, id: int, scope: Seq<usize>)
        requires
            below(scope, id),
            0 <= id,
            id + self.names_needed() <= usize::MAX,
        ensures
            self.elaborated(id).tidy(scope),
        decreases self,
    {
        match self {
            ArithExpr::Numeral(n) => {
                Tree::lemma_numeral_tidy(n as nat, id, scope);
            },
            ArithExpr::Op(op, left, right) => {
                op.lemma_term_tidy(id, scope);
                assert(below(scope, id + op.names_needed()));
                left.lemma_elaborated_tidy(id + op.names_needed(), scope);
                assert(below(scope, id + op.names_needed() + left.names_needed()));
                right.lemma_elaborated_tidy(
                    id + op.names_needed() + left.names_needed(),
                    scope,
                );
                assert(app_term(op.term(id), left.elaborated(id + op.names_needed())).tidy(scope));
            },
        }
    }
}

impl VariableExpr {
    /// Whether the expression uses no variable beyond the first `var_count`.
    pub open spec fn within(self, var_count: nat) -> bool
        decreases self,
    {
        match self {
            VariableExpr::Numeral(_) => true,
            VariableExpr::Var1 => var_count >= 1,
            VariableExpr::Var2 => var_count >= 2,
            VariableExpr::Op(_, left, right) => left.within(var_count) && right.within(var_count),
        }
    }

    /// A generated expression uses only the variables it was given.
    pub proof fn lemma_generated_within(self, depth: nat, var_count: nat)
        requires
            self.generated(depth, var_count),
        ensures
            self.within(var_count),
        decreases depth,
    {
        if depth > 0 {
            match self {
                VariableExpr::Op(_, left, right) => {
                    left.lemma_generated_within((depth - 1) as nat, var_count);
                    right.lemma_generated_within((depth - 1) as nat, var_count);
                },
                _ => {},
            }
        }
    }

    /// The body of an expression, with names from above the scope, is tidy
    /// where the variables it uses are in scope.
    pub proof fn lemma_body_tidy(self, u: usize, v: usize, id: int, scope: Seq<usize>)
        requires
            below(scope, id),
            0 <= id,
            id + self.body_names() <= usize::MAX,
            self.within(0) || scope.contains(u),
            self.within(1) || scope.contains(v),
        ensures
            self.body(u, v, id).tidy(scope),
        decreases self,
    {
        match self {
            VariableExpr::Numeral(n) => {
                Tree::lemma_numeral_tidy(n as nat, id, scope);
            },
            VariableExpr::Var1 => {},
            VariableExpr::Var2 => {},
            VariableExpr::Op(op, left, right) => {
                op.lemma_term_tidy(id, scope);
                assert(below(scope, id + op.names_needed()));
                left.lemma_body_tidy(u, v, id + op.names_needed(), scope);
                assert(below(scope, id + op.names_needed() + left.body_names()));
                right.lemma_body_tidy(u, v, id + op.names_needed() + left.body_names(), scope);
                assert(app_term(op.term(id), left.body(u, v, id + op.names_needed())).tidy(scope));
            },
        }
    }

    /// The term of an expression on at most two variables, with names from
    /// above the scope, is tidy where the expression uses no variable
    /// beyond those it binds.
    pub proof fn lemma_elaborated_tidy(self, var_count: nat, id: int, scope: Seq<usize>)
        requires
            below(scope, id),
            0 <= id,
            id + 2 <= usize::MAX,
            id + self.names_needed(var_count) <= usize::MAX,
            var_count <= 2,
            self.within(var_count),
        ensures
            self.elaborated(var_count, id).tidy(scope),
    {
        let u = (id + 1) as usize;
        let v = (id + 2) as usize;
        if var_count == 0 {
            self.lemma_within_more(0, 1);
            self.lemma_body_tidy(u, v, id, scope);
        } else if var_count == 1 {
            lemma_below(scope, id, u, id + 1);
            lemma_push_contains(scope, u, u);
            self.lemma_body_tidy(u, v, id + 1, scope.push(u));
        } else {
            lemma_below(scope, id, u, id + 1);
            lemma_below(scope.push(u), id + 1, v, id + 2);
            lemma_push_contains(scope, u, u);
            lemma_push_contains(scope.push(u), v, u);
            lemma_push_contains(scope.push(u), v, v);
            self.lemma_body_tidy(u, v, id + 2, scope.push(u).push(v));
            assert(abs_term(id + 2, self.body(u, v, id + 2)).tidy(scope.push(u)));
        }
    }

    /// An expression that uses few variables uses no more than any larger
    /// number of them.
    pub proof fn lemma_within_more(self, few: nat, many: nat)
        requires
            self.within(few),
            few <= many,
        ensures
            self.within(many),
        decreases self,
    {
        match self {
            VariableExpr::Op(_, left, right) => {
                left.lemma_within_more(few, many);
                right.lemma_within_more(few, many);
            },
            _ => {},
        }
    }
}

/// The body of a list, with names from above the scope, is tidy where the
/// names of its two constructors are in scope.
pub proof fn lemma_list_chain_tidy(
    items: Seq<ArithExpr>,
    nil: int,
    cons: int,
    id: int,
    scope: Seq<usize>,
)
    requires
        below(scope, id),
        0 <= id,
        id + names_of(items) <= usize::MAX,
        scope.contains(nil as usize),
        scope.contains(cons as usize),
    ensures
        list_chain(items, nil, cons, id).tidy(scope),
    decreases items.len(),
{
    assert(var_term(nil).tidy(scope));
    assert(var_term(cons).tidy(scope));
    if items.len() > 0 {
        let rest = items.drop_first();
        lemma_list_chain_tidy(rest, nil, cons, id, scope);
        assert(below(scope, id + names_of(rest)));
        items[0].lemma_elaborated_tidy(id + names_of(rest), scope);
        assert(app_term(var_term(cons), items[0].elaborated(id + names_of(rest))).tidy(scope));
    }
}

/// The term of a list, with names from above the scope, is tidy.
pub proof fn lemma_list_term_tidy(items: Seq<ArithExpr>, id: int, scope: Seq<usize>)
    requires
        below(scope, id),
        0 <= id,
        id + 2 + names_of(items) <= usize::MAX,
    ensures
        list_term(items, id).tidy(scope),
{
    let nil = (id + 1) as usize;
    let cons = (id + 2) as usize;
    lemma_below(scope, id, cons, id + 2);
    lemma_below(scope.push(cons), id + 2, nil, id + 2);
    lemma_push_contains(scope, cons, cons);
    lemma_push_contains(scope, cons, nil);
    lemma_push_contains(scope.push(cons), nil, nil);
    lemma_push_contains(scope.push(cons), nil, cons);
    lemma_list_chain_tidy(items, id + 1, id + 2, id + 2, scope.push(cons).push(nil));
    assert(abs_term(id + 1, list_chain(items, id + 1, id + 2, id + 2)).tidy(scope.push(cons)));
}

/// The term of the map over a list, with names from above the scope, is tidy.
pub proof fn lemma_map_tidy(id: int, scope: Seq<usize>)
    requires
        below(scope, id),
        0 <= id,
        id + 5 <= usize::MAX,
    ensures
        map_term(id).tidy(scope),
{
    let (f, arg, cons, nil, x) = (
        (id + 1) as usize,
        (id + 2) as usize,
        (id + 3) as usize,
        (id + 4) as usize,
        (id + 5) as usize,
    );
    let s1 = scope.push(f);
    let s2 = s1.push(arg);
    let s3 = s2.push(cons);
    let s4 = s3.push(nil);
    let s5 = s4.push(x);
    lemma_below(scope, id, f, id + 1);
    lemma_below(s1, id + 1, arg, id + 2);
    lemma_below(s2, id + 2, cons, id + 3);
    lemma_below(s3, id + 3, nil, id + 4);
    lemma_below(s4, id + 4, x, id + 5);
    lemma_push_contains(scope, f, f);
    lemma_push_contains(s1, arg, f);
    lemma_push_contains(s1, arg, arg);
    lemma_push_contains(s2, cons, f);
    lemma_push_contains(s2, cons, arg);
    lemma_push_contains(s2, cons, cons);
    lemma_push_contains(s3, nil, f);
    lemma_push_contains(s3, nil, arg);
    lemma_push_contains(s3, nil, cons);
    lemma_push_contains(s3, nil, nil);
    lemma_push_contains(s4, x, f);
    lemma_push_contains(s4, x, cons);
    lemma_push_contains(s4, x, x);
    assert(var_term(id + 1).tidy(s5));
    assert(var_term(id + 3).tidy(s5));
    assert(var_term(id + 5).tidy(s5));
    let call = app_term(var_term(id + 1), var_term(id + 5));
    assert(call.tidy(s5));
    let step = app_term(var_term(id + 3), call);
    assert(step.tidy(s5));
    let inner = abs_term(id + 5, step);
    assert(inner.tidy(s4));
    assert(var_term(id + 2).tidy(s4));
    assert(var_term(id + 4).tidy(s4));
    assert(app_term(var_term(id + 2), inner).tidy(s4));
    let body = app_term(app_term(var_term(id + 2), inner), var_term(id + 4));
    assert(body.tidy(s4));
    assert(abs_term(id + 4, body).tidy(s3));
    assert(abs_term(id + 3, abs_term(id + 4, body)).tidy(s2));
    assert(abs_term(id + 2, abs_term(id + 3, abs_term(id + 4, body))).tidy(s1));
}

/// The term of the fold over a list, with names from above the scope, is tidy.
pub proof fn lemma_fold_tidy(id: int, scope: Seq<usize>)
    requires
        below(scope, id),
        0 <= id,
        id + 4 <= usize::MAX,
    ensures
        fold_term(id).tidy(scope),
{
    let (f, init, arg, x) = (
        (id + 1) as usize,
        (id + 2) as usize,
        (id + 3) as usize,
        (id + 4) as usize,
    );
    let s1 = scope.push(f);
    let s2 = s1.push(init);
    let s3 = s2.push(arg);
    let s4 = s3.push(x);
    lemma_below(scope, id, f, id + 1);
    lemma_below(s1, id + 1, init, id + 2);
    lemma_below(s2, id + 2, arg, id + 3);
    lemma_below(s3, id + 3, x, id + 4);
    lemma_push_contains(scope, f, f);
    lemma_push_contains(s1, init, f);
    lemma_push_contains(s1, init, init);
    lemma_push_contains(s2, arg, f);
    lemma_push_contains(s2, arg, init);
    lemma_push_contains(s2, arg, arg);
    lemma_push_contains(s3, x, f);
    lemma_push_contains(s3, x, x);
    assert(var_term(id + 1).tidy(s4));
    assert(var_term(id + 4).tidy(s4));
    let call = app_term(var_term(id + 1), var_term(id + 4));
    assert(call.tidy(s4));
    let inner = abs_term(id + 4, call);
    assert(inner.tidy(s3));
    assert(var_term(id + 3).tidy(s3));
    assert(var_term(id + 2).tidy(s3));
    assert(app_term(var_term(id + 3), inner).tidy(s3));
    let body = app_term(app_term(var_term(id + 3), inner), var_term(id + 2));
    assert(body.tidy(s3));
    assert(abs_term(id + 3, body).tidy(s2));
    assert(abs_term(id + 2, abs_term(id + 3, body)).tidy(s1));
}

/// A tidy term with maps applied to it, their names from above the scope,
/// is tidy where each map is a function of one variable.
pub proof fn lemma_staged_tidy(ops: Seq<VariableExpr>, tree: Tree, id: int, scope: Seq<usize>)
    requires
        below(scope, id),
        0 <= id,
        id + stage_names(ops) < usize::MAX,
        tree.tidy(scope),
        forall|i: int| 0 <= i < ops.len() ==> (#[trigger] ops[i]).within(1),
    ensures
        staged(ops, tree, id).tidy(scope),
    decreases ops.len(),
{
    if ops.len() > 0 {
        lemma_map_tidy(id, scope);
        assert(below(scope, id + 5));
        ops[0].lemma_elaborated_tidy(1, id + 5, scope);
        let next = app_term(app_term(map_term(id), ops[0].elaborated(1, id + 5)), tree);
        assert(app_term(map_term(id), ops[0].elaborated(1, id + 5)).tidy(scope));
        assert(next.tidy(scope));
        let rest = ops.drop_first();
        assert forall|i: int| 0 <= i < rest.len() implies (#[trigger] rest[i]).within(1) by {
            assert(rest[i] == ops[i + 1]);
        }
        assert(below(scope, id + 5 + ops[0].names_needed(1)));
        lemma_staged_tidy(rest, next, id + 5 + ops[0].names_needed(1), scope);
    }
}

impl ListMapSequence {
    /// Whether each map of the sequence is a function of one variable.
    pub open spec fn proper(self) -> bool {
        forall|i: int| 0 <= i < self.ops().len() ==> (#[trigger] self.ops()[i]).within(1)
    }

    /// The term of a sequence, with names from above the scope, is tidy.
    pub proof fn lemma_elaborated_tidy(self, id: int, scope: Seq<usize>)
        requires
            below(scope, id),
            0 <= id,
            id + self.names_needed() < usize::MAX,
            self.proper(),
        ensures
            self.elaborated(id).tidy(scope),
    {
        lemma_list_term_tidy(self.items(), id, scope);
        assert(below(scope, id + 2 + names_of(self.items())));
        lemma_staged_tidy(
            self.ops(),
            list_term(self.items(), id),
            id + 2 + names_of(self.items()),
            scope,
        );
    }

    /// A generated sequence has maps of one variable each.
    pub proof fn lemma_generated_proper(self, depth: nat, len: nat)
        requires
            self.generated(depth, len),
        ensures
            self.proper(),
    {
        assert forall|i: int| 0 <= i < self.ops().len() implies (#[trigger] self.ops()[i]).within(
            1,
        ) by {
            self.ops()[i].lemma_generated_within(1 + depth / 2, 1);
        }
    }
}

impl ListFold {
    /// Whether the operation of the fold is a function of two variables
    /// and each map of its list a function of one.
    pub open spec fn proper(self) -> bool {
        self->0.within(2) && self->2.proper()
    }

    /// The term of a fold is tidy: it is closed, and each of its binders
    /// takes a name that no binder around it has.
    pub proof fn lemma_elaborated_tidy(self, id: int)
        requires
            0 <= id,
            id + self.names_needed() < usize::MAX,
            self.proper(),
        ensures
            self.elaborated(id).tidy(Seq::empty()),
    {
        let scope = Seq::<usize>::empty();
        let after_fold = id + 4;
        let after_op = after_fold + self->0.names_needed(2);
        let after_init = after_op + self->1.names_needed();
        assert(below(scope, id));
        lemma_fold_tidy(id, scope);
        assert(below(scope, after_fold));
        self->0.lemma_elaborated_tidy(2, after_fold, scope);
        assert(below(scope, after_op));
        self->1.lemma_elaborated_tidy(after_op, scope);
        assert(below(scope, after_init));
        self->2.lemma_elaborated_tidy(after_init, scope);
        let one = app_term(fold_term(id), self->0.elaborated(2, after_fold));
        assert(one.tidy(scope));
        let two = app_term(one, self->1.elaborated(after_op));
        assert(two.tidy(scope));
    }

    /// A generated fold is proper, so that its term is tidy.
    pub proof fn lemma_generated_proper(self, depth: nat, len: nat)
        requires
            self.generated(depth, len),
        ensures
            self.proper(),
    {
        self->2.lemma_generated_proper(depth, len);
        assert(VariableExpr::Var1.within(2));
        assert(VariableExpr::Var2.within(2));
    }
}

/// The net of the term of a generated fold reads back as the term, with
/// its variables resolved to lexical indices, up to the names of the
/// binders: where the term has a net and the gas suffices.
pub proof fn lemma_generated_round_trip(fold: ListFold, depth: nat, len: nat, id: int)
    requires
        fold.generated(depth, len),
        0 <= id,
        id + fold.names_needed() < usize::MAX,
        NetView::built(fold.elaborated(id)) is Some,
        fold.elaborated(id).need() <= GAS,
    ensures
        NetView::built(fold.elaborated(id))->0.wf(),
        NetView::built(fold.elaborated(id))->0.read_back() is Some,
        NetView::built(fold.elaborated(id))->0.read_back()->0.skeleton() == fold.elaborated(
            id,
        ).indexed(Seq::empty()).skeleton(),
{
    fold.lemma_generated_proper(depth, len);
    fold.lemma_elaborated_tidy(id);
    NetView::lemma_built_wf(fold.elaborated(id));
    NetView::lemma_read_back_of_built(fold.elaborated(id));
}

} // verus!
