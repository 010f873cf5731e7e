//! What a walk reads in the net of a term: the term, with each binder and
//! each variable named by the lambda that the binder has become.

use vstd::prelude::*;
use crate::optimal::agent::{Agent, AgentKind, Wire};
use crate::optimal::construct::bracket_count;
use crate::optimal::course::kept;
use crate::optimal::net::NetView;
use crate::optimal::readback::GAS;
use crate::tree::Tree;

verus! {

/// The larger of two numbers.
pub open spec fn greater(a: int, b: int) -> int {
    if a >= b {
        a
    } else {
        b
    }
}

impl Tree {
    /// The gas that a walk needs to read the term in its net: one unit for
    /// each application and abstraction on the way down to an occurrence,
    /// one for the lambda it ends at, and one for each duplicator that may
    /// stand before that lambda.
    pub open spec fn need(self) -> int
        decreases self,
    {
        match self {
            Tree::Var(_) => 2,
            Tree::Abs(_, body) => body.need() + 1,
            Tree::App(left, right) => greater(left.need() + right.occurrences(), right.need())
                + 1,
        }
    }

    /// The control agents that a walk passes at the top of the term's net:
    /// the croissant and the brackets of a variable, none for any other term.
    pub open spec fn reach(self, level: isize) -> nat {
        match self {
            Tree::Var(_) => bracket_count(level) + 1,
            _ => 0,
        }
    }
}

impl Tree {
    /// The term with the tags of its binders blotted out. Two terms whose
    /// variables are lexical indices are the same up to the names of their
    /// binders if and only if they have the same skeleton.
    pub open spec fn skeleton(self) -> Tree
        decreases self,
    {
        match self {
            Tree::Var(index) => Tree::Var(index),
            Tree::Abs(_, body) => Tree::Abs(0, Box::new(body.skeleton())),
            Tree::App(left, right) => Tree::App(
                Box::new(left.skeleton()),
                Box::new(right.skeleton()),
            ),
        }
    }

    /// Whether `name` is the name of a binder in the term.
    pub open spec fn binds(self, name: usize) -> bool
        decreases self,
    {
        match self {
            Tree::Var(_) => false,
            Tree::Abs(binder, body) => binder == name || body.binds(name),
            Tree::App(left, right) => left.binds(name) || right.binds(name),
        }
    }

    /// Whether the term is closed in the given scope and none of its
    /// binders takes a name that is in scope where the binder stands.
    pub open spec fn tidy(self, scope: Seq<usize>) -> bool
        decreases self,
    {
        match self {
            Tree::Var(name) => scope.contains(name),
            Tree::Abs(name, body) => !scope.contains(name) && body.tidy(scope.push(name)),
            Tree::App(left, right) => left.tidy(scope) && right.tidy(scope),
        }
    }

    /// A tidy term binds no name of its scope.
    pub proof fn lemma_tidy_binds(self, scope: Seq<usize>, name: usize)
        requires
            self.tidy(scope),
            scope.contains(name),
        ensures
            !self.binds(name),
        decreases self,
    {
        match self {
            Tree::Var(_) => {},
            Tree::Abs(binder, body) => {
                let i = choose|i: int| 0 <= i < scope.len() && scope[i] == name;
                assert(scope.push(binder)[i] == name);
                body.lemma_tidy_binds(scope.push(binder), name);
            },
            Tree::App(left, right) => {
                left.lemma_tidy_binds(scope, name);
                right.lemma_tidy_binds(scope, name);
            },
        }
    }

    /// In a scope without repetition, the entry at place `i` is found at
    /// that place.
    pub proof fn lemma_innermost_at(scope: Seq<usize>, i: int)
        requires
            0 <= i < scope.len(),
            forall|a: int, b: int| 0 <= a < b < scope.len() ==> scope[a] != scope[b],
        ensures
            Tree::innermost(scope, scope[i]) == Some((scope.len() - 1 - i) as nat),
        decreases scope.len(),
    {
        if i < scope.len() - 1 {
            Tree::lemma_innermost_at(scope.drop_last(), i);
        }
    }

    /// Reading a term takes at least two units of gas.
    pub proof fn lemma_need_positive(self)
        ensures
            self.need() >= 2,
        decreases self,
    {
        match self {
            Tree::Var(_) => {},
            Tree::Abs(_, body) => {
                body.lemma_need_positive();
            },
            Tree::App(left, right) => {
                right.lemma_need_positive();
            },
        }
    }
}

impl NetView {
    /// Whether the agent `id` is `record`, but perhaps for the port of a
    /// lambda's variable.
    pub open spec fn held(self, id: usize, record: Agent) -> bool {
        &&& self.agents.contains_key(id)
        &&& self.agents[id].kind == record.kind
        &&& self.agents[id].level == record.level
        &&& self.agents[id].principal == record.principal
        &&& self.agents[id].first == record.first
        &&& record.kind != AgentKind::Lambda ==> self.agents[id].second == record.second
    }

    /// Whether the wire `id` is `wire`, closed, and at the port of no
    /// lambda's variable.
    pub open spec fn tied(self, id: usize, wire: Wire) -> bool {
        &&& self.wires.contains_key(id)
        &&& self.wires[id] == wire
        &&& wire.target != 0
        &&& self.agents.contains_key(wire.source)
        &&& self.agents.contains_key(wire.target)
        &&& !(self.agents[wire.source].kind == AgentKind::Lambda && self.agents[wire.source].second
            == id)
        &&& !(self.agents[wire.target].kind == AgentKind::Lambda && self.agents[wire.target].second
            == id)
    }

    /// The term that a walk reads in the net of `tree`, built from this
    /// net on: each abstraction is named by the id of its lambda, and each
    /// variable by the lambda that its name stands for.
    pub open spec fn image(
        self,
        names: Map<usize, usize>,
        tree: Tree,
        dangling: usize,
        level: isize,
    ) -> Tree
        decreases tree,
    {
        match tree {
            Tree::Var(name) => Tree::Var(names[name]),
            Tree::Abs(name, body) => {
                let lambda = Agent {
                    kind: AgentKind::Lambda,
                    level,
                    principal: dangling,
                    first: self.wire_id,
                    second: 0,
                };
                Tree::Abs(
                    self.agent_id,
                    Box::new(
                        self.with_agent(lambda).with_wire(
                            Wire { source: self.agent_id, target: 0 },
                        ).filled(dangling, self.agent_id).image(
                            names.insert(name, self.agent_id),
                            *body,
                            self.wire_id,
                            level,
                        ),
                    ),
                )
            },
            Tree::App(left, right) => {
                let application = Agent {
                    kind: AgentKind::Application,
                    level,
                    principal: self.wire_id,
                    first: dangling,
                    second: (self.wire_id + 1) as usize,
                };
                let wire = Wire { source: self.agent_id, target: 0 };
                let start = self.with_agent(application).with_wire(wire).with_wire(wire).filled(
                    dangling,
                    self.agent_id,
                );
                let function = start.grown(names, *left, self.wire_id, level);
                Tree::App(
                    Box::new(start.image(names, *left, self.wire_id, level)),
                    Box::new(
                        match function {
                            Some(grown) => grown.net.image(
                                grown.names,
                                *right,
                                (self.wire_id + 1) as usize,
                                (level + 1) as isize,
                            ),
                            None => *right,
                        },
                    ),
                )
            },
        }
    }

    /// Every step keeps an agent and a wire that no step changes.
    pub proof fn lemma_kept_pinned(id: usize, record: Agent, wid: usize, wire: Wire)
        ensures
            kept(|net: NetView, cost: int| net.held(id, record) && net.tied(wid, wire)),
    {
        let holds = |net: NetView, cost: int| net.held(id, record) && net.tied(wid, wire);
        assert forall|
            before: NetView,
            after: NetView,
            open: Set<usize>,
            lift: Option<(usize, usize)>,
            cost: int,
        |
            #[trigger] before.step_to(after, lift) && #[trigger] before.budding(open)
                && #[trigger] holds(before, cost) implies holds(
            after,
            cost + crate::optimal::faithful::toll(lift),
        ) by {
            assert(before.agents.contains_key(id));
            assert(before.wires.contains_key(wid));
            assert(before.agents.contains_key(wire.source));
            assert(before.agents.contains_key(wire.target));
            if lift is Some {
                let (lambda, duplicator) = lift->0;
                assert(before.agents.contains_key(lambda));
                assert(before.agent_budding(lambda));
            }
        }
    }

    /// Every step keeps the agent that an open wire starts at.
    pub proof fn lemma_kept_source(wid: usize, source: usize)
        ensures
            kept(
                |net: NetView, cost: int|
                    net.wires.contains_key(wid) && (net.wires[wid].target == 0
                        ==> net.wires[wid].source == source),
            ),
    {
        let holds = |net: NetView, cost: int|
            net.wires.contains_key(wid) && (net.wires[wid].target == 0 ==> net.wires[wid].source
                == source);
        assert forall|
            before: NetView,
            after: NetView,
            open: Set<usize>,
            lift: Option<(usize, usize)>,
            cost: int,
        |
            #[trigger] before.step_to(after, lift) && #[trigger] before.budding(open)
                && #[trigger] holds(before, cost) implies holds(
            after,
            cost + crate::optimal::faithful::toll(lift),
        ) by {
            assert(before.wires.contains_key(wid));
        }
    }

    /// Every step keeps what a walk from an anchored wire reads, at the
    /// cost of one unit of gas where the step puts a duplicator in.
    pub proof fn lemma_kept_reads(from: usize, wid: usize, tree: Tree, gas: int, hops: nat)
        ensures
            kept(
                |net: NetView, cost: int|
                    net.anchored(from, wid) && net.reads(from, wid, tree, gas + cost, hops),
            ),
    {
        let holds = |net: NetView, cost: int|
            net.anchored(from, wid) && net.reads(from, wid, tree, gas + cost, hops);
        assert forall|
            before: NetView,
            after: NetView,
            open: Set<usize>,
            lift: Option<(usize, usize)>,
            cost: int,
        |
            #[trigger] before.step_to(after, lift) && #[trigger] before.budding(open)
                && #[trigger] holds(before, cost) implies holds(
            after,
            cost + crate::optimal::faithful::toll(lift),
        ) by {
            before.lemma_reads_step(after, open, lift, from, wid, tree, gas + cost, hops);
        }
        assert forall|net: NetView, cost: int, more: int|
            cost <= more && #[trigger] holds(net, cost) implies #[trigger] holds(net, more) by {
            assert forall|oracle: Map<usize, usize>, g: int, h: nat|
                g >= gas + more && h >= hops implies (#[trigger] net.read_along(
                from,
                wid,
                oracle,
                g,
                h,
            )).tree == Some(tree) by {}
        }
    }

    /// A walk that reaches a control agent at its first port reads what a
    /// walk from its principal port reads.
    pub proof fn lemma_hop_reads(
        self,
        from: usize,
        wid: usize,
        id: usize,
        record: Agent,
        tree: Tree,
        gas: int,
        hops: nat,
    )
        requires
            self.held(id, record),
            record.kind.arity() == 2,
            record.first == wid,
            record.principal != wid,
            self.tied(wid, Wire { source: from, target: id }),
            self.reads(id, record.principal, tree, gas, hops),
            gas >= 1,
        ensures
            self.reads(from, wid, tree, gas, hops + 1),
    {
        assert forall|oracle: Map<usize, usize>, g: int, h: nat|
            g >= gas && h >= hops + 1 implies (#[trigger] self.read_along(
            from,
            wid,
            oracle,
            g,
            h,
        )).tree == Some(tree) by {
            assert(self.partner(from, wid) == id);
            assert(self.agents[id].port_holding(wid) == 1);
            assert(self.read_along(id, record.principal, oracle, g, (h - 1) as nat).tree == Some(
                tree,
            ));
            assert(self.read(id, wid, oracle, g, h) == self.read_along(
                id,
                record.principal,
                oracle,
                g,
                (h - 1) as nat,
            ));
        }
    }

    /// A walk that reaches a lambda at its principal port reads an
    /// abstraction over what a walk from its first port reads.
    pub proof fn lemma_lambda_reads(
        self,
        from: usize,
        wid: usize,
        id: usize,
        record: Agent,
        body: Tree,
        gas: int,
        hops: nat,
    )
        requires
            self.held(id, record),
            record.kind == AgentKind::Lambda,
            record.principal == wid,
            record.first != wid,
            self.tied(wid, Wire { source: from, target: id }),
            self.reads(id, record.first, body, gas, hops),
            self.patience() >= hops,
            gas >= 0,
        ensures
            self.reads(from, wid, Tree::Abs(id, Box::new(body)), gas + 1, 0),
    {
        assert forall|oracle: Map<usize, usize>, g: int, h: nat|
            g >= gas + 1 && h >= 0 implies (#[trigger] self.read_along(
            from,
            wid,
            oracle,
            g,
            h,
        )).tree == Some(Tree::Abs(id, Box::new(body))) by {
            assert(self.partner(from, wid) == id);
            assert(self.agents[id].port_holding(wid) == 0);
            assert(self.read_along(id, record.first, oracle, g - 1, self.patience()).tree == Some(
                body,
            ));
        }
    }

    /// A walk that reaches an application at its first port reads the
    /// application of what walks from its other two ports read.
    pub proof fn lemma_application_reads(
        self,
        from: usize,
        wid: usize,
        id: usize,
        record: Agent,
        left: Tree,
        right: Tree,
        gas: int,
        hops: nat,
    )
        requires
            self.held(id, record),
            record.kind == AgentKind::Application,
            self.tied(wid, Wire { source: from, target: id }),
            self.reads(id, record.principal, left, gas, hops),
            self.reads(id, record.second, right, gas, hops),
            self.patience() >= hops,
            gas >= 0,
        ensures
            self.reads(from, wid, Tree::App(Box::new(left), Box::new(right)), gas + 1, 0),
    {
        assert forall|oracle: Map<usize, usize>, g: int, h: nat|
            g >= gas + 1 && h >= 0 implies (#[trigger] self.read_along(
            from,
            wid,
            oracle,
            g,
            h,
        )).tree == Some(Tree::App(Box::new(left), Box::new(right))) by {
            assert(self.partner(from, wid) == id);
            let first = self.read_along(id, record.principal, oracle, g - 1, self.patience());
            assert(first.tree == Some(left));
            assert(self.read_along(id, record.second, first.oracle, g - 1, self.patience()).tree
                == Some(right));
        }
    }

    /// A walk from the end of an occurrence reads the variable of its lambda.
    pub proof fn lemma_bound_reads(
        self,
        open: Set<usize>,
        lambda_id: usize,
        last: usize,
        level: isize,
    )
        requires
            self.budding(open),
            open.contains(last),
            self.agents.contains_key(lambda_id),
            self.agents[lambda_id].kind == AgentKind::Lambda,
            self.agents[self.wires[last].source].kind.arity() == 2,
            self.agent_id < usize::MAX,
            self.wire_id < usize::MAX,
            self.bound(lambda_id, last, level) is Some,
        ensures
            self.bound(lambda_id, last, level)->0.anchored(self.wires[last].source, last),
            self.bound(lambda_id, last, level)->0.reads(
                self.wires[last].source,
                last,
                Tree::Var(lambda_id),
                2,
                0,
            ),
    {
        let after = self.bound(lambda_id, last, level)->0;
        let from = self.wires[last].source;
        let lambda = self.agents[lambda_id];
        assert(self.wire_budding(open, last));
        assert(self.agent_budding(lambda_id));
        assert(self.agent_budding(from));
        if lambda.second == 0 {
            assert(after.wires[last] == (Wire { source: from, target: lambda_id }));
            assert(after.agents[lambda_id] == lambda.with_port(2, last));
            assert forall|oracle: Map<usize, usize>, g: int, h: nat|
                g >= 2 && h >= 0 implies (#[trigger] after.read_along(
                from,
                last,
                oracle,
                g,
                h,
            )).tree == Some(Tree::Var(lambda_id)) by {
                assert(after.partner(from, last) == lambda_id);
                assert(after.agents[lambda_id].port_holding(last) == 2);
            }
        } else {
            let previous = lambda.second;
            assert(self.wire_budding(open, previous));
            let d = self.agent_id;
            let m = self.wire_id;
            let duplicator = Agent {
                kind: AgentKind::Duplicator,
                level,
                principal: m,
                first: previous,
                second: last,
            };
            assert(after.agents == self.agents.insert(d, duplicator).insert(
                lambda_id,
                lambda.with_port(2, m),
            ));
            assert(after.wires[last] == (Wire { source: from, target: d }));
            assert(after.wires[m] == (Wire { source: lambda_id, target: d }));
            assert forall|oracle: Map<usize, usize>, g: int, h: nat|
                g >= 2 && h >= 0 implies (#[trigger] after.read_along(
                from,
                last,
                oracle,
                g,
                h,
            )).tree == Some(Tree::Var(lambda_id)) by {
                assert(after.partner(from, last) == d);
                assert(after.agents[d].port_holding(last) == 2);
                assert(after.partner(d, m) == lambda_id);
                assert(after.agents[lambda_id].port_holding(m) == 2);
                let marked = oracle.insert(d, 2);
                assert(after.read(lambda_id, m, marked, g - 1, after.patience()).tree == Some(
                    Tree::Var(lambda_id),
                ));
                assert(after.read_along(d, m, marked, g - 1, after.patience()).tree == Some(
                    Tree::Var(lambda_id),
                ));
            }
        }
    }

    /// What every step keeps, a chain of brackets with the occurrence
    /// attached to its lambda keeps, at a cost of one.
    pub proof fn lemma_occurrence_course(
        self,
        open: Set<usize>,
        names: Map<usize, usize>,
        previous: usize,
        count: nat,
        name: usize,
        level: isize,
        holds: spec_fn(NetView, int) -> bool,
        cost: int,
    )
        requires
            self.budding(open),
            self.named(names),
            names.contains_key(name),
            open.contains(previous),
            self.wires.contains_key(previous),
            self.agents.contains_key(self.wires[previous].source),
            self.agents[self.wires[previous].source].kind.arity() == 2,
            self.agent_id + count < usize::MAX,
            self.wire_id + count < usize::MAX,
            count <= isize::MAX,
            self.bracketed(previous, count).0.bound(
                names[name],
                self.bracketed(previous, count).1,
                level,
            ) is Some,
            kept(holds),
            holds(self, cost),
        ensures
            holds(
                self.bracketed(previous, count).0.bound(
                    names[name],
                    self.bracketed(previous, count).1,
                    level,
                )->0,
                cost + 1,
            ),
            self.bracketed(previous, count).0.bound(
                names[name],
                self.bracketed(previous, count).1,
                level,
            )->0.agent_id >= self.agent_id + count,
    {
        self.lemma_bracketed_budding(open, names, previous, count);
        self.lemma_bracketed_course(open, names, previous, count, holds, cost);
        let (chained, last) = self.bracketed(previous, count);
        let open2 = open.remove(previous).insert(last);
        chained.lemma_bound_step(open2, names[name], last, level);
        let lift = chained.lift_of(names[name]);
        let after = chained.bound(names[name], last, level)->0;
        assert(chained.step_to(after, lift));
        assert(holds(after, cost + crate::optimal::faithful::toll(lift)));
        assert(holds(after, cost + 1));
    }

    /// A walk that enters the chain of an occurrence reads the variable of
    /// its lambda, once it has hops for every bracket of the chain.
    pub proof fn lemma_occurrence_reads(
        self,
        open: Set<usize>,
        names: Map<usize, usize>,
        previous: usize,
        count: nat,
        name: usize,
        level: isize,
    )
        requires
            self.budding(open),
            self.named(names),
            names.contains_key(name),
            open.contains(previous),
            self.wires.contains_key(previous),
            self.agents.contains_key(self.wires[previous].source),
            self.agents[self.wires[previous].source].kind.arity() == 2,
            self.agent_id + count < usize::MAX,
            self.wire_id + count < usize::MAX,
            count <= isize::MAX,
            self.bracketed(previous, count).0.bound(
                names[name],
                self.bracketed(previous, count).1,
                level,
            ) is Some,
        ensures
            ({
                let (chained, last) = self.bracketed(previous, count);
                let after = chained.bound(names[name], last, level)->0;
                &&& after.anchored(self.wires[previous].source, previous)
                &&& after.reads(
                    self.wires[previous].source,
                    previous,
                    Tree::Var(names[name]),
                    2,
                    count,
                )
            }),
        decreases count,
    {
        let from = self.wires[previous].source;
        assert(self.wire_budding(open, previous));
        if count == 0 {
            self.lemma_bound_reads(open, names[name], previous, level);
        } else {
            let b = self.agent_id;
            let wb = self.wire_id;
            self.lemma_sprout(open, names, AgentKind::Bracket, (count - 1) as isize, previous);
            let bracket = Agent {
                kind: AgentKind::Bracket,
                level: (count - 1) as isize,
                principal: wb,
                first: previous,
                second: 0,
            };
            let next = self.with_wire(Wire { source: b, target: 0 }).with_agent(
                bracket,
            ).with_target(previous, b);
            let open2 = open.remove(previous).insert(wb);
            next.lemma_occurrence_reads(open2, names, wb, (count - 1) as nat, name, level);
            let (chained, last) = next.bracketed(wb, (count - 1) as nat);
            let after = chained.bound(names[name], last, level)->0;
            let wire = Wire { source: from, target: b };
            let holds = |net: NetView, cost: int| net.held(b, bracket) && net.tied(previous, wire);
            NetView::lemma_kept_pinned(b, bracket, previous, wire);
            assert(next.held(b, bracket));
            assert(next.tied(previous, wire));
            assert(holds(next, 0));
            next.lemma_occurrence_course(
                open2,
                names,
                wb,
                (count - 1) as nat,
                name,
                level,
                holds,
                0,
            );
            assert(holds(after, 1));
            after.lemma_hop_reads(
                from,
                previous,
                b,
                bracket,
                Tree::Var(names[name]),
                2,
                (count - 1) as nat,
            );
        }
    }

    /// A walk reads, in the net of a subterm, the image of the subterm.
    pub proof fn lemma_grown_reads(
        self,
        open: Set<usize>,
        names: Map<usize, usize>,
        tree: Tree,
        dangling: usize,
        level: isize,
    )
        requires
            self.budding(open),
            self.named(names),
            open.contains(dangling),
            self.grown(names, tree, dangling, level) is Some,
        ensures
            ({
                let after = self.grown(names, tree, dangling, level)->0.net;
                let from = self.wires[dangling].source;
                &&& after.anchored(from, dangling)
                &&& after.reads(
                    from,
                    dangling,
                    self.image(names, tree, dangling, level),
                    tree.need(),
                    tree.reach(level),
                )
                &&& after.agent_id >= tree.reach(level)
                &&& after.agent_id >= self.agent_id
            }),
        decreases tree,
    {
        let n = self.agent_id;
        let m = self.wire_id;
        let from = self.wires[dangling].source;
        let after = self.grown(names, tree, dangling, level)->0.net;
        let wire = Wire { source: from, target: n };
        assert(self.wire_budding(open, dangling));
        match tree {
            Tree::Var(name) => {
                let count = bracket_count(level);
                self.lemma_sprout(open, names, AgentKind::Croissant, level, dangling);
                let croissant = Agent {
                    kind: AgentKind::Croissant,
                    level,
                    principal: m,
                    first: dangling,
                    second: 0,
                };
                let start = self.with_wire(Wire { source: n, target: 0 }).with_agent(
                    croissant,
                ).filled(dangling, n);
                let open1 = open.remove(dangling).insert(m);
                start.lemma_occurrence_reads(open1, names, m, count, name, level);
                let holds = |net: NetView, cost: int|
                    net.held(n, croissant) && net.tied(dangling, wire);
                NetView::lemma_kept_pinned(n, croissant, dangling, wire);
                assert(start.held(n, croissant));
                assert(start.tied(dangling, wire));
                assert(holds(start, 0));
                start.lemma_occurrence_course(open1, names, m, count, name, level, holds, 0);
                assert(holds(after, 1));
                after.lemma_hop_reads(
                    from,
                    dangling,
                    n,
                    croissant,
                    Tree::Var(names[name]),
                    2,
                    count,
                );
            },
            Tree::Abs(name, body) => {
                self.lemma_lambda_budding(open, names, name, level, dangling);
                let lambda = Agent {
                    kind: AgentKind::Lambda,
                    level,
                    principal: dangling,
                    first: m,
                    second: 0,
                };
                let start = self.with_agent(lambda).with_wire(
                    Wire { source: n, target: 0 },
                ).filled(dangling, n);
                let open1 = open.remove(dangling).insert(m);
                let names1 = names.insert(name, n);
                start.lemma_grown_reads(open1, names1, *body, m, level);
                let inner = start.image(names1, *body, m, level);
                let holds = |net: NetView, cost: int|
                    net.held(n, lambda) && net.tied(dangling, wire);
                NetView::lemma_kept_pinned(n, lambda, dangling, wire);
                assert(start.held(n, lambda));
                assert(start.tied(dangling, wire));
                assert(holds(start, 0));
                start.lemma_grown_course(open1, names1, *body, m, level, holds, 0);
                assert(holds(after, 0int + body.occurrences()));
                body.lemma_need_positive();
                after.lemma_lambda_reads(
                    from,
                    dangling,
                    n,
                    lambda,
                    inner,
                    body.need(),
                    body.reach(level),
                );
            },
            Tree::App(left, right) => {
                self.lemma_application_budding(open, names, level, dangling);
                let application = Agent {
                    kind: AgentKind::Application,
                    level,
                    principal: m,
                    first: dangling,
                    second: (m + 1) as usize,
                };
                let blank = Wire { source: n, target: 0 };
                let start = self.with_agent(application).with_wire(blank).with_wire(blank).filled(
                    dangling,
                    n,
                );
                let open1 = open.remove(dangling).insert(m).insert((m + 1) as usize);
                start.lemma_grown_budding(open1, names, *left, m, level);
                start.lemma_grown_reads(open1, names, *left, m, level);
                let function = start.grown(names, *left, m, level)->0;
                let open2 = open1.remove(m);
                let source = |net: NetView, cost: int|
                    net.wires.contains_key((m + 1) as usize) && (net.wires[(m + 1) as usize].target
                        == 0 ==> net.wires[(m + 1) as usize].source == n);
                NetView::lemma_kept_source((m + 1) as usize, n);
                assert(source(start, 0));
                start.lemma_grown_course(open1, names, *left, m, level, source, 0);
                assert(source(function.net, 0int + left.occurrences()));
                assert(function.net.wire_budding(open2, (m + 1) as usize));
                assert(function.net.wires[(m + 1) as usize].source == n);
                left.lemma_need_positive();
                right.lemma_need_positive();
                let one = start.image(names, *left, m, level);
                let two = function.net.image(
                    function.names,
                    *right,
                    (m + 1) as usize,
                    (level + 1) as isize,
                );
                function.net.lemma_grown_reads(
                    open2,
                    function.names,
                    *right,
                    (m + 1) as usize,
                    (level + 1) as isize,
                );
                // The application and the wire above it stay as they are.
                let pinned = |net: NetView, cost: int|
                    net.held(n, application) && net.tied(dangling, wire);
                NetView::lemma_kept_pinned(n, application, dangling, wire);
                assert(start.held(n, application));
                assert(start.tied(dangling, wire));
                assert(pinned(start, 0));
                start.lemma_grown_course(open1, names, *left, m, level, pinned, 0);
                function.net.lemma_grown_course(
                    open2,
                    function.names,
                    *right,
                    (m + 1) as usize,
                    (level + 1) as isize,
                    pinned,
                    0int + left.occurrences(),
                );
                assert(after.held(n, application) && after.tied(dangling, wire));
                // What was read of the function is read after the argument is built.
                let kept_left = |net: NetView, cost: int|
                    net.anchored(n, m) && net.reads(n, m, one, left.need() + cost, left.reach(level));
                NetView::lemma_kept_reads(n, m, one, left.need(), left.reach(level));
                assert(kept_left(function.net, 0));
                function.net.lemma_grown_course(
                    open2,
                    function.names,
                    *right,
                    (m + 1) as usize,
                    (level + 1) as isize,
                    kept_left,
                    0,
                );
                assert(kept_left(after, 0int + right.occurrences()));
                let gas = greater(left.need() + right.occurrences(), right.need());
                let hops = if left.reach(level) >= right.reach((level + 1) as isize) {
                    left.reach(level)
                } else {
                    right.reach((level + 1) as isize)
                };
                assert(after.reads(n, m, one, gas, hops)) by {
                    assert forall|oracle: Map<usize, usize>, g: int, h: nat|
                        g >= gas && h >= hops implies (#[trigger] after.read_along(
                        n,
                        m,
                        oracle,
                        g,
                        h,
                    )).tree == Some(one) by {}
                }
                assert(after.reads(n, (m + 1) as usize, two, gas, hops)) by {
                    assert forall|oracle: Map<usize, usize>, g: int, h: nat|
                        g >= gas && h >= hops implies (#[trigger] after.read_along(
                        n,
                        (m + 1) as usize,
                        oracle,
                        g,
                        h,
                    )).tree == Some(two) by {}
                }
                after.lemma_application_reads(
                    from,
                    dangling,
                    n,
                    application,
                    one,
                    two,
                    gas,
                    hops,
                );
            },
        }
    }

    /// Every step keeps an agent that no step changes.
    pub proof fn lemma_kept_agent(id: usize, record: Agent)
        ensures
            kept(|net: NetView, cost: int| net.held(id, record)),
    {
        let holds = |net: NetView, cost: int| net.held(id, record);
        assert forall|
            before: NetView,
            after: NetView,
            open: Set<usize>,
            lift: Option<(usize, usize)>,
            cost: int,
        |
            #[trigger] before.step_to(after, lift) && #[trigger] before.budding(open)
                && #[trigger] holds(before, cost) implies holds(
            after,
            cost + crate::optimal::faithful::toll(lift),
        ) by {
            assert(before.agents.contains_key(id));
        }
    }

    /// Building the net of a subterm leaves every name that the subterm
    /// does not bind standing for the lambda it stood for.
    pub proof fn lemma_grown_names(
        self,
        names: Map<usize, usize>,
        tree: Tree,
        dangling: usize,
        level: isize,
        name: usize,
    )
        requires
            self.grown(names, tree, dangling, level) is Some,
            names.contains_key(name),
            !tree.binds(name),
        ensures
            self.grown(names, tree, dangling, level)->0.names.contains_key(name),
            self.grown(names, tree, dangling, level)->0.names[name] == names[name],
        decreases tree,
    {
        let n = self.agent_id;
        let m = self.wire_id;
        match tree {
            Tree::Var(_) => {},
            Tree::Abs(binder, body) => {
                let lambda = Agent {
                    kind: AgentKind::Lambda,
                    level,
                    principal: dangling,
                    first: m,
                    second: 0,
                };
                let start = self.with_agent(lambda).with_wire(
                    Wire { source: n, target: 0 },
                ).filled(dangling, n);
                start.lemma_grown_names(names.insert(binder, n), *body, m, level, name);
            },
            Tree::App(left, right) => {
                let application = Agent {
                    kind: AgentKind::Application,
                    level,
                    principal: m,
                    first: dangling,
                    second: (m + 1) as usize,
                };
                let blank = Wire { source: n, target: 0 };
                let start = self.with_agent(application).with_wire(blank).with_wire(blank).filled(
                    dangling,
                    n,
                );
                start.lemma_grown_names(names, *left, m, level, name);
                let function = start.grown(names, *left, m, level)->0;
                function.net.lemma_grown_names(
                    function.names,
                    *right,
                    (m + 1) as usize,
                    (level + 1) as isize,
                    name,
                );
            },
        }
    }

    /// The image of a tidy term, with its variables resolved among the
    /// lambdas of its scope, is the term with its variables resolved in its
    /// scope, up to the names of the binders.
    pub proof fn lemma_image_indexed(
        self,
        open: Set<usize>,
        names: Map<usize, usize>,
        tree: Tree,
        dangling: usize,
        level: isize,
        scope: Seq<usize>,
        lambdas: Seq<usize>,
    )
        requires
            self.budding(open),
            self.named(names),
            open.contains(dangling),
            self.grown(names, tree, dangling, level) is Some,
            tree.tidy(scope),
            scope.len() == lambdas.len(),
            forall|a: int, b: int| 0 <= a < b < scope.len() ==> scope[a] != scope[b],
            forall|a: int, b: int| 0 <= a < b < lambdas.len() ==> lambdas[a] != lambdas[b],
            forall|i: int| 0 <= i < lambdas.len() ==> lambdas[i] < self.agent_id,
            forall|i: int|
                0 <= i < scope.len() ==> names.contains_key(#[trigger] scope[i]) && names[scope[i]]
                    == lambdas[i],
        ensures
            self.image(names, tree, dangling, level).indexed(lambdas).skeleton() == tree.indexed(
                scope,
            ).skeleton(),
        decreases tree,
    {
        let n = self.agent_id;
        let m = self.wire_id;
        match tree {
            Tree::Var(name) => {
                let i = choose|i: int| 0 <= i < scope.len() && scope[i] == name;
                Tree::lemma_innermost_at(scope, i);
                Tree::lemma_innermost_at(lambdas, i);
                assert(names[name] == lambdas[i]);
            },
            Tree::Abs(name, body) => {
                self.lemma_lambda_budding(open, names, name, level, dangling);
                let lambda = Agent {
                    kind: AgentKind::Lambda,
                    level,
                    principal: dangling,
                    first: m,
                    second: 0,
                };
                let start = self.with_agent(lambda).with_wire(
                    Wire { source: n, target: 0 },
                ).filled(dangling, n);
                let open1 = open.remove(dangling).insert(m);
                let names1 = names.insert(name, n);
                let scope1 = scope.push(name);
                let lambdas1 = lambdas.push(n);
                assert forall|i: int| 0 <= i < scope1.len() implies names1.contains_key(
                    #[trigger] scope1[i],
                ) && names1[scope1[i]] == lambdas1[i] by {
                    if i < scope.len() {
                        assert(scope[i] != name);
                        assert(names.contains_key(scope[i]));
                    }
                }
                start.lemma_image_indexed(open1, names1, *body, m, level, scope1, lambdas1);
            },
            Tree::App(left, right) => {
                self.lemma_application_budding(open, names, level, dangling);
                let application = Agent {
                    kind: AgentKind::Application,
                    level,
                    principal: m,
                    first: dangling,
                    second: (m + 1) as usize,
                };
                let blank = Wire { source: n, target: 0 };
                let start = self.with_agent(application).with_wire(blank).with_wire(blank).filled(
                    dangling,
                    n,
                );
                let open1 = open.remove(dangling).insert(m).insert((m + 1) as usize);
                start.lemma_image_indexed(open1, names, *left, m, level, scope, lambdas);
                start.lemma_grown_budding(open1, names, *left, m, level);
                start.lemma_grown_reads(open1, names, *left, m, level);
                let function = start.grown(names, *left, m, level)->0;
                let open2 = open1.remove(m);
                assert forall|i: int| 0 <= i < scope.len() implies function.names.contains_key(
                    #[trigger] scope[i],
                ) && function.names[scope[i]] == lambdas[i] by {
                    assert(names.contains_key(scope[i]));
                    left.lemma_tidy_binds(scope, scope[i]);
                    start.lemma_grown_names(names, *left, m, level, scope[i]);
                }
                function.net.lemma_image_indexed(
                    open2,
                    function.names,
                    *right,
                    (m + 1) as usize,
                    (level + 1) as isize,
                    scope,
                    lambdas,
                );
            },
        }
    }

    /// Reading back the net of a term gives the term: where the term is
    /// closed, none of its binders takes a name that is in scope already,
    /// and the gas suffices, what is read back is the term with its
    /// variables resolved to lexical indices, up to the names of the binders.
    pub proof fn lemma_read_back_of_built(tree: Tree)
        requires
            NetView::built(tree) is Some,
            tree.tidy(Seq::empty()),
            tree.need() <= GAS,
        ensures
            NetView::built(tree)->0.read_back() is Some,
            NetView::built(tree)->0.read_back()->0.skeleton() == tree.indexed(
                Seq::empty(),
            ).skeleton(),
    {
        let root = Agent { kind: AgentKind::Root, level: 0, principal: 1, first: 0, second: 0 };
        let start = NetView::empty().with_agent(root).with_wire(Wire { source: 1, target: 0 });
        let open = Set::<usize>::empty().insert(1);
        let names = Map::<usize, usize>::empty();
        assert(start.agent_budding(1));
        assert(start.wire_budding(open, 1));
        assert(start.budding(open));
        assert(start.named(names));
        assert(!(tree is Var));
        start.lemma_grown_budding(open, names, tree, 1, 0);
        start.lemma_grown_reads(open, names, tree, 1, 0);
        let whole = start.grown(names, tree, 1, 0)->0;
        let image = start.image(names, tree, 1, 0);
        let net = NetView::built(tree)->0;
        assert(open.remove(1) =~= Set::<usize>::empty());
        // The root and what is read from it stay through all that follows.
        let rooted = |net: NetView, cost: int| net.held(1, root);
        NetView::lemma_kept_agent(1, root);
        assert(rooted(start, 0));
        start.lemma_grown_course(open, names, tree, 1, 0, rooted, 0);
        whole.net.lemma_capped_course(
            Set::empty(),
            1,
            whole.net.agent_id,
            rooted,
            0int + tree.occurrences(),
        );
        let read = |net: NetView, cost: int|
            net.anchored(1, 1) && net.reads(1, 1, image, tree.need() + cost, 0);
        NetView::lemma_kept_reads(1, 1, image, tree.need(), 0);
        assert(read(whole.net, 0));
        whole.net.lemma_capped_course(Set::empty(), 1, whole.net.agent_id, read, 0);
        assert(net.reads(1, 1, image, tree.need(), 0));
        assert(net.held(1, root));
        whole.net.lemma_capped_budding(Set::empty(), 1, whole.net.agent_id);
        assert(net.patience() >= 1);
        assert(net.read_along(
            1,
            1,
            Map::<usize, usize>::empty(),
            GAS as int,
            (net.patience() - 1) as nat,
        ).tree == Some(image));
        assert(net.read(1, 1, Map::<usize, usize>::empty(), GAS as int, net.patience()).tree
            == Some(image));
        start.lemma_image_indexed(
            open,
            names,
            tree,
            1,
            0,
            Seq::<usize>::empty(),
            Seq::<usize>::empty(),
        );
    }
}

} // verus!
