//! The construction of a net as a course of steps: whatever every step
//! keeps, the construction keeps.

use vstd::prelude::*;
use crate::optimal::agent::{Agent, AgentKind, Wire};
use crate::optimal::construct::bracket_count;
use crate::optimal::faithful::toll;
use crate::optimal::net::NetView;
use crate::tree::Tree;

verus! {

/// Whether every step of construction keeps `holds`, at the cost of one
/// where the step puts a duplicator in, and whether `holds` stays true as
/// the cost allowed rises.
pub open spec fn kept(holds: spec_fn(NetView, int) -> bool) -> bool {
    &&& forall|
        before: NetView,
        after: NetView,
        open: Set<usize>,
        lift: Option<(usize, usize)>,
        cost: int,
    |
        #[trigger] before.step_to(after, lift) && #[trigger] before.budding(open)
            && #[trigger] holds(before, cost) ==> holds(after, cost + toll(lift))
    &&& forall|net: NetView, cost: int, more: int|
        cost <= more && #[trigger] holds(net, cost) ==> #[trigger] holds(net, more)
}

impl Tree {
    /// The number of occurrences of variables in the term.
    pub open spec fn occurrences(self) -> nat
        decreases self,
    {
        match self {
            Tree::Var(_) => 1,
            Tree::Abs(_, body) => body.occurrences(),
            Tree::App(left, right) => left.occurrences() + right.occurrences(),
        }
    }
}

impl NetView {
    /// A new control agent at the end of an open wire is a step.
    pub proof fn lemma_sprout_step(
        self,
        open: Set<usize>,
        kind: AgentKind,
        level: isize,
        previous: usize,
    )
        requires
            self.budding(open),
            open.contains(previous),
            self.agent_id < usize::MAX,
            self.wire_id < usize::MAX,
        ensures
            self.step_to(
                self.with_wire(Wire { source: self.agent_id, target: 0 }).with_agent(
                    Agent { kind, level, principal: self.wire_id, first: previous, second: 0 },
                ).with_target(previous, self.agent_id),
                None,
            ),
    {
        assert(self.wire_budding(open, previous));
    }

    /// A new lambda at the end of an open wire is a step.
    pub proof fn lemma_lambda_step(self, open: Set<usize>, level: isize, dangling: usize)
        requires
            self.budding(open),
            open.contains(dangling),
            self.agent_id < usize::MAX,
            self.wire_id < usize::MAX,
        ensures
            self.step_to(
                self.with_agent(
                    Agent {
                        kind: AgentKind::Lambda,
                        level,
                        principal: dangling,
                        first: self.wire_id,
                        second: 0,
                    },
                ).with_wire(Wire { source: self.agent_id, target: 0 }).filled(
                    dangling,
                    self.agent_id,
                ),
                None,
            ),
    {
        assert(self.wire_budding(open, dangling));
    }

    /// A new application at the end of an open wire is a step.
    pub proof fn lemma_application_step(self, open: Set<usize>, level: isize, dangling: usize)
        requires
            self.budding(open),
            open.contains(dangling),
            self.agent_id < usize::MAX,
            self.wire_id + 1 < usize::MAX,
        ensures
            self.step_to(
                self.with_agent(
                    Agent {
                        kind: AgentKind::Application,
                        level,
                        principal: self.wire_id,
                        first: dangling,
                        second: (self.wire_id + 1) as usize,
                    },
                ).with_wire(Wire { source: self.agent_id, target: 0 }).with_wire(
                    Wire { source: self.agent_id, target: 0 },
                ).filled(dangling, self.agent_id),
                None,
            ),
    {
        assert(self.wire_budding(open, dangling));
    }

    /// The duplicator that attaching an occurrence to the lambda puts in,
    /// if the lambda's variable is in use already.
    pub open spec fn lift_of(self, lambda_id: usize) -> Option<(usize, usize)> {
        if self.agents[lambda_id].second == 0 {
            None
        } else {
            Some((lambda_id, self.agent_id))
        }
    }

    /// Attaching an occurrence to its lambda is a step.
    pub proof fn lemma_bound_step(
        self,
        open: Set<usize>,
        lambda_id: usize,
        last: usize,
        level: isize,
    )
        requires
            self.budding(open),
            open.contains(last),
            self.agents.contains_key(lambda_id),
            self.agents[lambda_id].kind == AgentKind::Lambda,
            self.agent_id < usize::MAX,
            self.wire_id < usize::MAX,
            self.bound(lambda_id, last, level) is Some,
        ensures
            self.step_to(self.bound(lambda_id, last, level)->0, self.lift_of(lambda_id)),
    {
        let after = self.bound(lambda_id, last, level)->0;
        let lambda = self.agents[lambda_id];
        assert(self.wire_budding(open, last));
        assert(self.agent_budding(lambda_id));
        if lambda.second != 0 {
            let previous = lambda.second;
            assert(self.wire_budding(open, previous));
            assert(self.wire_ok(previous));
            let d = self.agent_id;
            let m = self.wire_id;
            let duplicator = Agent {
                kind: AgentKind::Duplicator,
                level,
                principal: m,
                first: previous,
                second: last,
            };
            assert(after.agents == self.agents.insert(d, duplicator).insert(
                lambda_id,
                lambda.with_port(2, m),
            ));
            let was = self.wires[previous];
            let moved = if was.target == lambda_id {
                Wire { source: was.source, target: d }
            } else {
                Wire { source: d, target: was.target }
            };
            assert(after.wires == self.wires.insert(
                m,
                Wire { source: lambda_id, target: d },
            ).insert(previous, moved).insert(
                last,
                Wire { source: self.wires[last].source, target: d },
            ));
        }
    }

    /// An eraser at the port of an unused variable is a step.
    pub proof fn lemma_cap_step(self, open: Set<usize>, from: usize)
        requires
            self.budding(open),
            self.agents.contains_key(from),
            self.agents[from].kind == AgentKind::Lambda,
            self.agents[from].second == 0,
            self.agent_id < usize::MAX,
            self.wire_id < usize::MAX,
        ensures
            self.step_to(
                self.with_agent(
                    Agent {
                        kind: AgentKind::Eraser,
                        level: 0,
                        principal: self.wire_id,
                        first: 0,
                        second: 0,
                    },
                ).with_wire(Wire { source: from, target: self.agent_id }).with_port(
                    from,
                    2,
                    self.wire_id,
                ),
                None,
            ),
    {
    }

    /// What every step keeps, a chain of brackets keeps.
    pub proof fn lemma_bracketed_course(
        self,
        open: Set<usize>,
        names: Map<usize, usize>,
        previous: usize,
        count: nat,
        holds: spec_fn(NetView, int) -> bool,
        cost: int,
    )
        requires
            self.budding(open),
            self.named(names),
            open.contains(previous),
            self.wires.contains_key(previous),
            self.agents.contains_key(self.wires[previous].source),
            self.agents[self.wires[previous].source].kind.arity() == 2,
            self.agent_id + count < usize::MAX,
            self.wire_id + count < usize::MAX,
            count <= isize::MAX,
            kept(holds),
            holds(self, cost),
        ensures
            holds(self.bracketed(previous, count).0, cost),
        decreases count,
    {
        if count > 0 {
            self.lemma_sprout(open, names, AgentKind::Bracket, (count - 1) as isize, previous);
            self.lemma_sprout_step(open, AgentKind::Bracket, (count - 1) as isize, previous);
            let bracket = Agent {
                kind: AgentKind::Bracket,
                level: (count - 1) as isize,
                principal: self.wire_id,
                first: previous,
                second: 0,
            };
            let next = self.with_wire(Wire { source: self.agent_id, target: 0 }).with_agent(
                bracket,
            ).with_target(previous, self.agent_id);
            assert(self.step_to(next, None));
            assert(holds(next, cost + toll(None)));
            let open2 = open.remove(previous).insert(self.wire_id);
            next.lemma_bracketed_course(
                open2,
                names,
                self.wire_id,
                (count - 1) as nat,
                holds,
                cost,
            );
        }
    }

    /// What every step keeps, the construction of the net of a subterm
    /// keeps, at a cost of one for each occurrence of a variable.
    pub proof fn lemma_grown_course(
        self,
        open: Set<usize>,
        names: Map<usize, usize>,
        tree: Tree,
        dangling: usize,
        level: isize,
        holds: spec_fn(NetView, int) -> bool,
        cost: int,
    )
        requires
            self.budding(open),
            self.named(names),
            open.contains(dangling),
            self.grown(names, tree, dangling, level) is Some,
            kept(holds),
            holds(self, cost),
        ensures
            holds(self.grown(names, tree, dangling, level)->0.net, cost + tree.occurrences()),
        decreases tree,
    {
        let n = self.agent_id;
        let m = self.wire_id;
        match tree {
            Tree::Var(id) => {
                let count = bracket_count(level);
                self.lemma_sprout(open, names, AgentKind::Croissant, level, dangling);
                self.lemma_sprout_step(open, AgentKind::Croissant, level, dangling);
                let croissant = Agent {
                    kind: AgentKind::Croissant,
                    level,
                    principal: m,
                    first: dangling,
                    second: 0,
                };
                let start = self.with_wire(Wire { source: n, target: 0 }).with_agent(
                    croissant,
                ).filled(dangling, n);
                assert(self.step_to(start, None));
                assert(holds(start, cost + toll(None)));
                let open1 = open.remove(dangling).insert(m);
                start.lemma_bracketed_budding(open1, names, m, count);
                start.lemma_bracketed_course(open1, names, m, count, holds, cost);
                let (chained, last) = start.bracketed(m, count);
                let open2 = open1.remove(m).insert(last);
                assert(names.contains_key(id));
                chained.lemma_bound_step(open2, names[id], last, level);
                let lift = chained.lift_of(names[id]);
                let after = chained.bound(names[id], last, level)->0;
                assert(chained.step_to(after, lift));
                assert(holds(after, cost + toll(lift)));
                assert(holds(after, cost + 1));
            },
            Tree::Abs(id, body) => {
                self.lemma_lambda_budding(open, names, id, level, dangling);
                self.lemma_lambda_step(open, level, dangling);
                let lambda = Agent {
                    kind: AgentKind::Lambda,
                    level,
                    principal: dangling,
                    first: m,
                    second: 0,
                };
                let start = self.with_agent(lambda).with_wire(
                    Wire { source: n, target: 0 },
                ).filled(dangling, n);
                assert(self.step_to(start, None));
                assert(holds(start, cost + toll(None)));
                let open1 = open.remove(dangling).insert(m);
                start.lemma_grown_course(open1, names.insert(id, n), *body, m, level, holds, cost);
            },
            Tree::App(left, right) => {
                self.lemma_application_budding(open, names, level, dangling);
                self.lemma_application_step(open, level, dangling);
                let application = Agent {
                    kind: AgentKind::Application,
                    level,
                    principal: m,
                    first: dangling,
                    second: (m + 1) as usize,
                };
                let wire = Wire { source: n, target: 0 };
                let start = self.with_agent(application).with_wire(wire).with_wire(wire).filled(
                    dangling,
                    n,
                );
                assert(self.step_to(start, None));
                assert(holds(start, cost + toll(None)));
                let open1 = open.remove(dangling).insert(m).insert((m + 1) as usize);
                start.lemma_grown_budding(open1, names, *left, m, level);
                start.lemma_grown_course(open1, names, *left, m, level, holds, cost);
                let function = start.grown(names, *left, m, level)->0;
                let open2 = open1.remove(m);
                function.net.lemma_grown_course(
                    open2,
                    function.names,
                    *right,
                    (m + 1) as usize,
                    (level + 1) as isize,
                    holds,
                    cost + left.occurrences(),
                );
            },
        }
    }

    /// What every step keeps, putting erasers on unused binders keeps.
    pub proof fn lemma_capped_course(
        self,
        open: Set<usize>,
        from: usize,
        end: usize,
        holds: spec_fn(NetView, int) -> bool,
        cost: int,
    )
        requires
            self.budding(open),
            self.bound_below(from as int),
            from >= 1,
            forall|id: usize| #[trigger]
                self.agents.contains_key(id) && id >= end ==> self.agents[id].kind
                    != AgentKind::Lambda,
            self.capped(from, end) is Some,
            kept(holds),
            holds(self, cost),
        ensures
            holds(self.capped(from, end)->0, cost),
        decreases end - from,
    {
        if from < end {
            if self.agents.contains_key(from) && self.agents[from].kind == AgentKind::Lambda
                && self.agents[from].second == 0 {
                let eraser = Agent {
                    kind: AgentKind::Eraser,
                    level: 0,
                    principal: self.wire_id,
                    first: 0,
                    second: 0,
                };
                let next = self.with_agent(eraser).with_wire(
                    Wire { source: from, target: self.agent_id },
                ).with_port(from, 2, self.wire_id);
                self.lemma_cap_step(open, from);
                assert(self.step_to(next, None));
                assert(holds(next, cost + toll(None)));
                self.lemma_cap_budding(open, from);
                assert forall|id: usize| #[trigger] next.agents.contains_key(id) && id < from
                    + 1 implies !(next.agents[id].kind == AgentKind::Lambda
                    && next.agents[id].second == 0) by {
                    if id != from {
                        assert(self.agents.contains_key(id));
                    }
                }
                next.lemma_capped_course(open, (from + 1) as usize, end, holds, cost);
            } else {
                assert forall|id: usize| #[trigger] self.agents.contains_key(id) && id < from
                    + 1 implies !(self.agents[id].kind == AgentKind::Lambda
                    && self.agents[id].second == 0) by {
                    if id != from {
                        assert(self.agents.contains_key(id) && id < from);
                    }
                }
                self.lemma_capped_course(open, (from + 1) as usize, end, holds, cost);
            }
        }
    }
}

} // verus!
