//! The net of a term that holds no redex holds no beta redex: normalising
//! it changes nothing, and what is read back is the term.

use vstd::prelude::*;
use crate::optimal::agent::{Agent, AgentKind, Wire};
use crate::optimal::construct::bracket_count;
use crate::optimal::net::NetView;
use crate::optimal::readback::GAS;
use crate::tree::Tree;

verus! {

impl Tree {
    /// The readout of a term does not look at the names of its binders.
    pub proof fn lemma_skeleton_value(self)
        ensures
            self.skeleton().church_value() == self.church_value(),
    {
        match self {
            Tree::Abs(_, outer) => match *outer {
                Tree::Abs(_, inner) => {
                    inner.lemma_skeleton_chain();
                    assert(outer.skeleton() == Tree::Abs(0, Box::new(inner.skeleton())));
                },
                _ => {},
            },
            _ => {},
        }
    }

    /// The length of a chain does not depend on the names of binders.
    pub proof fn lemma_skeleton_chain(self)
        ensures
            self.skeleton().chain_length() == self.chain_length(),
        decreases self,
    {
        match self {
            Tree::App(left, right) => {
                right.lemma_skeleton_chain();
                assert(left.skeleton() is Var <==> *left is Var);
            },
            _ => {},
        }
    }

    /// The readout of a term does not depend on what its variables are
    /// resolved to.
    pub proof fn lemma_indexed_value(self, scope: Seq<usize>)
        ensures
            self.indexed(scope).church_value() == self.church_value(),
    {
        match self {
            Tree::Abs(f, outer) => match *outer {
                Tree::Abs(x, inner) => {
                    inner.lemma_indexed_chain(scope.push(f).push(x));
                    assert(outer.indexed(scope.push(f)) == Tree::Abs(
                        x,
                        Box::new(inner.indexed(scope.push(f).push(x))),
                    ));
                },
                _ => {},
            },
            _ => {},
        }
    }
}

impl NetView {
    /// Whether the wire `id` does not join an application and a lambda of
    /// one level at the principal ports of both.
    pub open spec fn calm(self, id: usize) -> bool {
        let source = self.wires[id].source;
        let target = self.wires[id].target;
        !({
            &&& self.agents.contains_key(source)
            &&& self.agents.contains_key(target)
            &&& self.agents[source].principal == id
            &&& self.agents[target].principal == id
            &&& self.agents[source].level == self.agents[target].level
            &&& (self.agents[source].kind == AgentKind::Application && self.agents[target].kind
                == AgentKind::Lambda) || (self.agents[source].kind == AgentKind::Lambda
                && self.agents[target].kind == AgentKind::Application)
        })
    }

    /// Whether no wire of the net joins an application and a lambda of one
    /// level at the principal ports of both.
    pub open spec fn quiet(self) -> bool {
        forall|id: usize| self.wires.contains_key(id) ==> #[trigger] self.calm(id)
    }

    /// A quiet net holds no beta redex.
    pub proof fn lemma_quiet_no_beta(self, id: usize)
        requires
            self.quiet(),
        ensures
            !self.beta_at(id),
    {
        if self.pair_at(id) is Some {
            assert(self.calm(self.agents[id].principal));
        }
    }

    /// Normalising a quiet net changes nothing.
    pub proof fn lemma_quiet_reduced(self, fuel: nat)
        requires
            self.quiet(),
        ensures
            self.reduced(fuel) == (self, true),
    {
        self.lemma_no_betas_below(self.agent_id as nat);
    }

    /// A quiet net lists no agent of a beta redex.
    pub proof fn lemma_no_betas_below(self, end: nat)
        requires
            self.quiet(),
        ensures
            self.betas_below(end).len() == 0,
        decreases end,
    {
        if end > 0 {
            self.lemma_no_betas_below((end - 1) as nat);
            if end - 1 <= usize::MAX {
                self.lemma_quiet_no_beta((end - 1) as usize);
            }
        }
    }

    /// A new control agent at the end of an open wire keeps the net quiet.
    pub proof fn lemma_sprout_quiet(
        self,
        open: Set<usize>,
        kind: AgentKind,
        level: isize,
        previous: usize,
    )
        requires
            self.budding(open),
            self.quiet(),
            open.contains(previous),
            kind.arity() == 2,
            self.agent_id < usize::MAX,
            self.wire_id < usize::MAX,
        ensures
            self.with_wire(Wire { source: self.agent_id, target: 0 }).with_agent(
                Agent { kind, level, principal: self.wire_id, first: previous, second: 0 },
            ).with_target(previous, self.agent_id).quiet(),
    {
        let after = self.with_wire(Wire { source: self.agent_id, target: 0 }).with_agent(
            Agent { kind, level, principal: self.wire_id, first: previous, second: 0 },
        ).with_target(previous, self.agent_id);
        assert(self.wire_budding(open, previous));
        assert forall|id: usize| after.wires.contains_key(id) implies #[trigger] after.calm(
            id,
        ) by {
            if id != self.wire_id && id != previous {
                assert(self.calm(id));
                assert(self.wire_budding(open, id));
            }
        }
    }

    /// A chain of brackets keeps the net quiet.
    pub proof fn lemma_bracketed_quiet(
        self,
        open: Set<usize>,
        names: Map<usize, usize>,
        previous: usize,
        count: nat,
    )
        requires
            self.budding(open),
            self.named(names),
            self.quiet(),
            open.contains(previous),
            self.wires.contains_key(previous),
            self.agents.contains_key(self.wires[previous].source),
            self.agents[self.wires[previous].source].kind.arity() == 2,
            self.agent_id + count < usize::MAX,
            self.wire_id + count < usize::MAX,
            count <= isize::MAX,
        ensures
            self.bracketed(previous, count).0.quiet(),
        decreases count,
    {
        if count > 0 {
            self.lemma_sprout(open, names, AgentKind::Bracket, (count - 1) as isize, previous);
            self.lemma_sprout_quiet(open, AgentKind::Bracket, (count - 1) as isize, previous);
            let next = self.with_wire(Wire { source: self.agent_id, target: 0 }).with_agent(
                Agent {
                    kind: AgentKind::Bracket,
                    level: (count - 1) as isize,
                    principal: self.wire_id,
                    first: previous,
                    second: 0,
                },
            ).with_target(previous, self.agent_id);
            next.lemma_bracketed_quiet(
                open.remove(previous).insert(self.wire_id),
                names,
                self.wire_id,
                (count - 1) as nat,
            );
        }
    }

    /// Attaching an occurrence to its lambda keeps the net quiet.
    #[verifier::rlimit(60)]
    pub proof fn lemma_bound_quiet(
        self,
        open: Set<usize>,
        lambda_id: usize,
        last: usize,
        level: isize,
    )
        requires
            self.budding(open),
            self.quiet(),
            open.contains(last),
            self.agents.contains_key(lambda_id),
            self.agents[lambda_id].kind == AgentKind::Lambda,
            self.agents[self.wires[last].source].kind.arity() == 2,
            self.agent_id < usize::MAX,
            self.wire_id < usize::MAX,
            self.bound(lambda_id, last, level) is Some,
        ensures
            self.bound(lambda_id, last, level)->0.quiet(),
    {
        let after = self.bound(lambda_id, last, level)->0;
        let lambda = self.agents[lambda_id];
        assert(self.wire_budding(open, last));
        assert(self.agent_budding(lambda_id));
        if lambda.second == 0 {
            assert forall|id: usize| after.wires.contains_key(id) implies #[trigger] after.calm(
                id,
            ) by {
                if id != last {
                    assert(self.calm(id));
                }
            }
        } else {
            let previous = lambda.second;
            assert(self.wire_budding(open, previous));
            assert(self.wire_ok(previous));
            let d = self.agent_id;
            let m = self.wire_id;
            let duplicator = Agent {
                kind: AgentKind::Duplicator,
                level,
                principal: m,
                first: previous,
                second: last,
            };
            assert(after.agents == self.agents.insert(d, duplicator).insert(
                lambda_id,
                lambda.with_port(2, m),
            ));
            let was = self.wires[previous];
            let moved = if was.target == lambda_id {
                Wire { source: was.source, target: d }
            } else {
                Wire { source: d, target: was.target }
            };
            assert(after.wires == self.wires.insert(
                m,
                Wire { source: lambda_id, target: d },
            ).insert(previous, moved).insert(
                last,
                Wire { source: self.wires[last].source, target: d },
            ));
            assert forall|id: usize| after.wires.contains_key(id) implies #[trigger] after.calm(
                id,
            ) by {
                if id != m && id != previous && id != last {
                    assert(self.calm(id));
                    assert(self.wire_budding(open, id));
                }
            }
        }
    }

    /// A new lambda at the end of an open wire keeps the net quiet, unless
    /// the wire is at the principal port of an application.
    pub proof fn lemma_lambda_quiet(self, open: Set<usize>, level: isize, dangling: usize)
        requires
            self.budding(open),
            self.quiet(),
            open.contains(dangling),
            !(self.agents[self.wires[dangling].source].kind == AgentKind::Application
                && self.agents[self.wires[dangling].source].principal == dangling),
            self.agent_id < usize::MAX,
            self.wire_id < usize::MAX,
        ensures
            self.with_agent(
                Agent {
                    kind: AgentKind::Lambda,
                    level,
                    principal: dangling,
                    first: self.wire_id,
                    second: 0,
                },
            ).with_wire(Wire { source: self.agent_id, target: 0 }).filled(
                dangling,
                self.agent_id,
            ).quiet(),
    {
        let after = self.with_agent(
            Agent {
                kind: AgentKind::Lambda,
                level,
                principal: dangling,
                first: self.wire_id,
                second: 0,
            },
        ).with_wire(Wire { source: self.agent_id, target: 0 }).filled(dangling, self.agent_id);
        assert(self.wire_budding(open, dangling));
        assert forall|id: usize| after.wires.contains_key(id) implies #[trigger] after.calm(
            id,
        ) by {
            if id != self.wire_id && id != dangling {
                assert(self.calm(id));
                assert(self.wire_budding(open, id));
            }
        }
    }

    /// A new application at the end of an open wire keeps the net quiet.
    pub proof fn lemma_application_quiet(self, open: Set<usize>, level: isize, dangling: usize)
        requires
            self.budding(open),
            self.quiet(),
            open.contains(dangling),
            self.agent_id < usize::MAX,
            self.wire_id + 1 < usize::MAX,
        ensures
            self.with_agent(
                Agent {
                    kind: AgentKind::Application,
                    level,
                    principal: self.wire_id,
                    first: dangling,
                    second: (self.wire_id + 1) as usize,
                },
            ).with_wire(Wire { source: self.agent_id, target: 0 }).with_wire(
                Wire { source: self.agent_id, target: 0 },
            ).filled(dangling, self.agent_id).quiet(),
    {
        let after = self.with_agent(
            Agent {
                kind: AgentKind::Application,
                level,
                principal: self.wire_id,
                first: dangling,
                second: (self.wire_id + 1) as usize,
            },
        ).with_wire(Wire { source: self.agent_id, target: 0 }).with_wire(
            Wire { source: self.agent_id, target: 0 },
        ).filled(dangling, self.agent_id);
        assert(self.wire_budding(open, dangling));
        assert forall|id: usize| after.wires.contains_key(id) implies #[trigger] after.calm(
            id,
        ) by {
            if id != self.wire_id && id != self.wire_id + 1 && id != dangling {
                assert(self.calm(id));
                assert(self.wire_budding(open, id));
            }
        }
    }

    /// An eraser at the port of an unused variable keeps the net quiet.
    pub proof fn lemma_cap_quiet(self, open: Set<usize>, from: usize)
        requires
            self.budding(open),
            self.quiet(),
            self.agents.contains_key(from),
            self.agents[from].kind == AgentKind::Lambda,
            self.agents[from].second == 0,
            self.agent_id < usize::MAX,
            self.wire_id < usize::MAX,
        ensures
            self.with_agent(
                Agent {
                    kind: AgentKind::Eraser,
                    level: 0,
                    principal: self.wire_id,
                    first: 0,
                    second: 0,
                },
            ).with_wire(Wire { source: from, target: self.agent_id }).with_port(
                from,
                2,
                self.wire_id,
            ).quiet(),
    {
        let after = self.with_agent(
            Agent { kind: AgentKind::Eraser, level: 0, principal: self.wire_id, first: 0, second: 0 },
        ).with_wire(Wire { source: from, target: self.agent_id }).with_port(from, 2, self.wire_id);
        assert(self.agent_budding(from));
        assert forall|id: usize| after.wires.contains_key(id) implies #[trigger] after.calm(
            id,
        ) by {
            if id != self.wire_id {
                assert(self.calm(id));
                assert(self.wire_budding(open, id));
            }
        }
    }

    /// Building the net of a subterm that holds no redex keeps the net
    /// quiet, unless the subterm is an abstraction in the place of a function.
    pub proof fn lemma_grown_quiet(
        self,
        open: Set<usize>,
        names: Map<usize, usize>,
        tree: Tree,
        dangling: usize,
        level: isize,
    )
        requires
            self.budding(open),
            self.named(names),
            self.quiet(),
            open.contains(dangling),
            tree.normal(),
            tree is Abs ==> !(self.agents[self.wires[dangling].source].kind
                == AgentKind::Application && self.agents[self.wires[dangling].source].principal
                == dangling),
            self.grown(names, tree, dangling, level) is Some,
        ensures
            self.grown(names, tree, dangling, level)->0.net.quiet(),
        decreases tree,
    {
        let n = self.agent_id;
        let m = self.wire_id;
        match tree {
            Tree::Var(name) => {
                let count = bracket_count(level);
                self.lemma_sprout(open, names, AgentKind::Croissant, level, dangling);
                self.lemma_sprout_quiet(open, AgentKind::Croissant, level, dangling);
                let start = self.with_wire(Wire { source: n, target: 0 }).with_agent(
                    Agent {
                        kind: AgentKind::Croissant,
                        level,
                        principal: m,
                        first: dangling,
                        second: 0,
                    },
                ).filled(dangling, n);
                let open1 = open.remove(dangling).insert(m);
                start.lemma_bracketed_budding(open1, names, m, count);
                start.lemma_bracketed_quiet(open1, names, m, count);
                let (chained, last) = start.bracketed(m, count);
                let open2 = open1.remove(m).insert(last);
                assert(names.contains_key(name));
                chained.lemma_bound_quiet(open2, names[name], last, level);
            },
            Tree::Abs(name, body) => {
                self.lemma_lambda_budding(open, names, name, level, dangling);
                self.lemma_lambda_quiet(open, level, dangling);
                let start = self.with_agent(
                    Agent {
                        kind: AgentKind::Lambda,
                        level,
                        principal: dangling,
                        first: m,
                        second: 0,
                    },
                ).with_wire(Wire { source: n, target: 0 }).filled(dangling, n);
                let open1 = open.remove(dangling).insert(m);
                assert(self.wire_budding(open, dangling));
                assert(start.wires[m].source == n);
                assert(start.agents[n].kind == AgentKind::Lambda);
                start.lemma_grown_quiet(open1, names.insert(name, n), *body, m, level);
            },
            Tree::App(left, right) => {
                self.lemma_application_budding(open, names, level, dangling);
                self.lemma_application_quiet(open, level, dangling);
                let application = Agent {
                    kind: AgentKind::Application,
                    level,
                    principal: m,
                    first: dangling,
                    second: (m + 1) as usize,
                };
                let blank = Wire { source: n, target: 0 };
                let start = self.with_agent(application).with_wire(blank).with_wire(blank).filled(
                    dangling,
                    n,
                );
                let open1 = open.remove(dangling).insert(m).insert((m + 1) as usize);
                assert(self.wire_budding(open, dangling));
                start.lemma_grown_budding(open1, names, *left, m, level);
                start.lemma_grown_quiet(open1, names, *left, m, level);
                let function = start.grown(names, *left, m, level)->0;
                let open2 = open1.remove(m);
                let source = |net: NetView, cost: int|
                    net.wires.contains_key((m + 1) as usize) && (net.wires[(m + 1) as usize].target
                        == 0 ==> net.wires[(m + 1) as usize].source == n);
                NetView::lemma_kept_source((m + 1) as usize, n);
                assert(source(start, 0));
                start.lemma_grown_course(open1, names, *left, m, level, source, 0);
                assert(source(function.net, 0int + left.occurrences()));
                let held = |net: NetView, cost: int| net.held(n, application);
                NetView::lemma_kept_agent(n, application);
                assert(held(start, 0));
                start.lemma_grown_course(open1, names, *left, m, level, held, 0);
                assert(held(function.net, 0int + left.occurrences()));
                assert(function.net.wire_budding(open2, (m + 1) as usize));
                function.net.lemma_grown_quiet(
                    open2,
                    function.names,
                    *right,
                    (m + 1) as usize,
                    (level + 1) as isize,
                );
            },
        }
    }

    /// Putting erasers on unused binders keeps the net quiet.
    pub proof fn lemma_capped_quiet(self, open: Set<usize>, from: usize, end: usize)
        requires
            self.budding(open),
            self.quiet(),
            self.bound_below(from as int),
            from >= 1,
            forall|id: usize| #[trigger]
                self.agents.contains_key(id) && id >= end ==> self.agents[id].kind
                    != AgentKind::Lambda,
            self.capped(from, end) is Some,
        ensures
            self.capped(from, end)->0.quiet(),
        decreases end - from,
    {
        if from < end {
            if self.agents.contains_key(from) && self.agents[from].kind == AgentKind::Lambda
                && self.agents[from].second == 0 {
                let next = self.with_agent(
                    Agent {
                        kind: AgentKind::Eraser,
                        level: 0,
                        principal: self.wire_id,
                        first: 0,
                        second: 0,
                    },
                ).with_wire(Wire { source: from, target: self.agent_id }).with_port(
                    from,
                    2,
                    self.wire_id,
                );
                self.lemma_cap_budding(open, from);
                self.lemma_cap_quiet(open, from);
                assert forall|id: usize| #[trigger] next.agents.contains_key(id) && id < from
                    + 1 implies !(next.agents[id].kind == AgentKind::Lambda
                    && next.agents[id].second == 0) by {
                    if id != from {
                        assert(self.agents.contains_key(id));
                    }
                }
                next.lemma_capped_quiet(open, (from + 1) as usize, end);
            } else {
                assert forall|id: usize| #[trigger] self.agents.contains_key(id) && id < from
                    + 1 implies !(self.agents[id].kind == AgentKind::Lambda
                    && self.agents[id].second == 0) by {
                    if id != from {
                        assert(self.agents.contains_key(id) && id < from);
                    }
                }
                self.lemma_capped_quiet(open, (from + 1) as usize, end);
            }
        }
    }

    /// The net of a term that holds no redex holds no beta redex.
    pub proof fn lemma_built_quiet(tree: Tree)
        requires
            NetView::built(tree) is Some,
            tree.normal(),
        ensures
            NetView::built(tree)->0.quiet(),
    {
        let root = Agent { kind: AgentKind::Root, level: 0, principal: 1, first: 0, second: 0 };
        let start = NetView::empty().with_agent(root).with_wire(Wire { source: 1, target: 0 });
        let open = Set::<usize>::empty().insert(1);
        let names = Map::<usize, usize>::empty();
        assert(start.agent_budding(1));
        assert(start.wire_budding(open, 1));
        assert(start.budding(open));
        assert(start.named(names));
        assert(start.calm(1));
        assert(start.quiet());
        start.lemma_grown_budding(open, names, tree, 1, 0);
        start.lemma_grown_quiet(open, names, tree, 1, 0);
        let whole = start.grown(names, tree, 1, 0)->0;
        assert(open.remove(1) =~= Set::<usize>::empty());
        whole.net.lemma_capped_quiet(Set::empty(), 1, whole.net.agent_id);
    }

    /// The engine reads a term that holds no redex as the term reads: where
    /// the term is closed, none of its binders takes a name that is in
    /// scope already, and the gas suffices, normalising its net changes
    /// nothing and the net reads back as the term.
    pub proof fn lemma_normal_outcome(tree: Tree, fuel: nat)
        requires
            NetView::built(tree) is Some,
            tree.normal(),
            tree.tidy(Seq::empty()),
            tree.need() <= GAS,
        ensures
            NetView::loaded(tree).reduced(fuel) == (NetView::loaded(tree), true),
            NetView::loaded(tree).outcome(fuel) == (match tree.church_value() {
                Some(n) if n <= u64::MAX => Some(n as u64),
                _ => None,
            }),
    {
        let net = NetView::built(tree)->0;
        NetView::lemma_built_quiet(tree);
        net.lemma_quiet_reduced(fuel);
        NetView::lemma_read_back_of_built(tree);
        let read = net.read_back()->0;
        read.lemma_skeleton_value();
        tree.indexed(Seq::empty()).lemma_skeleton_value();
        tree.lemma_indexed_value(Seq::empty());
    }
}

} // verus!
