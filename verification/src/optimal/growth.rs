//! The net of a term is well formed.
//!
//! While a net is built, some wires have no agent at their second end yet,
//! and a lambda may have nothing at the port of its variable. The proofs in
//! this file follow the construction step by step and show that nothing
//! else is ever amiss, and that nothing is amiss at the end.

use vstd::prelude::*;
use crate::optimal::agent::{Agent, AgentKind, Wire};
use crate::optimal::construct::bracket_count;
use crate::optimal::net::NetView;
use crate::tree::Tree;

verus! {

impl NetView {
    /// Whether port `i` of the agent `id` may hold `wire` while the net is
    /// built: the wire ends at the agent, or the port is the still empty
    /// port of a lambda's variable.
    pub open spec fn slot_budding(self, id: usize, i: int, wire: usize) -> bool {
        self.attached(id, wire) || (wire == 0 && i == 2 && self.agents[id].kind
            == AgentKind::Lambda)
    }

    /// Whether each port of the agent `id` is as it may be while the net is built.
    pub open spec fn agent_budding(self, id: usize) -> bool {
        let agent = self.agents[id];
        &&& self.slot_budding(id, 0, agent.principal)
        &&& agent.kind.arity() >= 2 ==> self.slot_budding(id, 1, agent.first)
        &&& agent.kind.arity() >= 3 ==> self.slot_budding(id, 2, agent.second)
    }

    /// Whether the wire `id` is as it may be while the net is built: a wire
    /// listed in `open` starts at an agent of the net, at one port that is
    /// not the port of a lambda's variable, and ends nowhere yet; any other
    /// wire joins two ports of two agents.
    pub open spec fn wire_budding(self, open: Set<usize>, id: usize) -> bool {
        if open.contains(id) {
            let wire = self.wires[id];
            &&& wire.target == 0
            &&& self.agents.contains_key(wire.source)
            &&& self.agents[wire.source].slots(id) == 1
            &&& !(self.agents[wire.source].kind == AgentKind::Lambda
                && self.agents[wire.source].second == id)
        } else {
            self.wire_ok(id) && self.wires[id].source != self.wires[id].target
        }
    }

    /// Whether the net is well formed but for the wires in `open`, which
    /// end nowhere yet, and for lambdas with nothing at the port of their
    /// variable.
    pub open spec fn budding(self, open: Set<usize>) -> bool {
        &&& self.fresh()
        &&& self.agent_id > 0
        &&& self.wire_id > 0
        &&& !self.agents.contains_key(0)
        &&& !self.wires.contains_key(0)
        &&& forall|id: usize| #[trigger] open.contains(id) ==> self.wires.contains_key(id)
        &&& forall|id: usize| self.agents.contains_key(id) ==> #[trigger] self.agent_budding(id)
        &&& forall|id: usize| self.wires.contains_key(id) ==> #[trigger] self.wire_budding(open, id)
    }

    /// Whether every name stands for a lambda of the net.
    pub open spec fn named(self, names: Map<usize, usize>) -> bool {
        forall|name: usize| #[trigger]
            names.contains_key(name) ==> self.agents.contains_key(names[name])
                && self.agents[names[name]].kind == AgentKind::Lambda
    }

    /// Whether no lambda with an id below `end` has an empty port for its
    /// variable.
    pub open spec fn bound_below(self, end: int) -> bool {
        forall|id: usize| #[trigger]
            self.agents.contains_key(id) && id < end ==> !(self.agents[id].kind
                == AgentKind::Lambda && self.agents[id].second == 0)
    }

    /// A net in which no wire is open and no lambda lacks its variable's
    /// wire is well formed.
    pub proof fn lemma_budding_is_wf(self)
        requires
            self.budding(Set::empty()),
            self.bound_below(self.agent_id as int),
        ensures
            self.wf(),
    {
        assert forall|id: usize| self.agents.contains_key(id) implies #[trigger] self.agent_ok(
            id,
        ) by {
            assert(self.agent_budding(id));
        }
        assert forall|id: usize| self.wires.contains_key(id) implies #[trigger] self.wire_ok(
            id,
        ) by {
            assert(self.wire_budding(Set::empty(), id));
        }
    }

    /// A new control agent at the end of an open wire: the wire is closed,
    /// and the wire at the agent's principal port is open in its place.
    pub proof fn lemma_sprout(
        self,
        open: Set<usize>,
        names: Map<usize, usize>,
        kind: AgentKind,
        level: isize,
        previous: usize,
    )
        requires
            self.budding(open),
            self.named(names),
            open.contains(previous),
            self.wires.contains_key(previous),
            kind.arity() == 2,
            self.agent_id < usize::MAX,
            self.wire_id < usize::MAX,
        ensures
            ({
                let agent = Agent {
                    kind,
                    level,
                    principal: self.wire_id,
                    first: previous,
                    second: 0,
                };
                let after = self.with_wire(Wire { source: self.agent_id, target: 0 }).with_agent(
                    agent,
                ).with_target(previous, self.agent_id);
                &&& after.budding(open.remove(previous).insert(self.wire_id))
                &&& after.named(names)
                &&& after == self.with_wire(Wire { source: self.agent_id, target: 0 }).with_agent(
                    agent,
                ).filled(previous, self.agent_id)
                &&& after.wires.contains_key(self.wire_id)
                &&& after.wires[self.wire_id].source == self.agent_id
                &&& after.agents.contains_key(self.agent_id)
                &&& after.agents[self.agent_id].kind == kind
                &&& after.agent_id == self.agent_id + 1
                &&& after.wire_id == self.wire_id + 1
            }),
    {
        let n = self.agent_id;
        let m = self.wire_id;
        let agent = Agent { kind, level, principal: m, first: previous, second: 0 };
        let after = self.with_wire(Wire { source: n, target: 0 }).with_agent(agent).with_target(
            previous,
            n,
        );
        let open2 = open.remove(previous).insert(m);
        assert(self.wire_budding(open, previous));
        assert forall|id: usize| after.agents.contains_key(id) implies #[trigger] after.agent_budding(
            id,
        ) by {
            if id != n {
                assert(self.agent_budding(id));
            }
        }
        assert forall|id: usize| after.wires.contains_key(id) implies #[trigger] after.wire_budding(
            open2,
            id,
        ) by {
            if id != m {
                assert(self.wire_budding(open, id));
            }
        }
        assert forall|name: usize| #[trigger] names.contains_key(name) implies after.agents.contains_key(
            names[name],
        ) && after.agents[names[name]].kind == AgentKind::Lambda by {}
    }

    /// A chain of brackets behind an open wire leaves one open wire at its
    /// far side.
    pub proof fn lemma_bracketed_budding(
        self,
        open: Set<usize>,
        names: Map<usize, usize>,
        previous: usize,
        count: nat,
    )
        requires
            self.budding(open),
            self.named(names),
            open.contains(previous),
            self.wires.contains_key(previous),
            self.agents.contains_key(self.wires[previous].source),
            self.agents[self.wires[previous].source].kind.arity() == 2,
            self.agent_id + count < usize::MAX,
            self.wire_id + count < usize::MAX,
            count <= isize::MAX,
        ensures
            ({
                let (after, last) = self.bracketed(previous, count);
                &&& after.budding(open.remove(previous).insert(last))
                &&& after.named(names)
                &&& after.wires.contains_key(last)
                &&& after.agents.contains_key(after.wires[last].source)
                &&& after.agents[after.wires[last].source].kind.arity() == 2
                &&& last == previous || last >= self.wire_id
                &&& after.agent_id == self.agent_id + count
                &&& after.wire_id == self.wire_id + count
            }),
        decreases count,
    {
        if count == 0 {
            assert(open.remove(previous).insert(previous) =~= open);
        } else {
            self.lemma_sprout(open, names, AgentKind::Bracket, (count - 1) as isize, previous);
            let bracket = Agent {
                kind: AgentKind::Bracket,
                level: (count - 1) as isize,
                principal: self.wire_id,
                first: previous,
                second: 0,
            };
            let next = self.with_wire(Wire { source: self.agent_id, target: 0 }).with_agent(
                bracket,
            ).with_target(previous, self.agent_id);
            let open2 = open.remove(previous).insert(self.wire_id);
            next.lemma_bracketed_budding(open2, names, self.wire_id, (count - 1) as nat);
            let (after, last) = next.bracketed(self.wire_id, (count - 1) as nat);
            assert(open2.remove(self.wire_id).insert(last) =~= open.remove(previous).insert(last));
        }
    }

    /// Attaching an occurrence to its lambda closes the wire it ends in.
    #[verifier::rlimit(60)]
    pub proof fn lemma_bound_budding(
        self,
        open: Set<usize>,
        names: Map<usize, usize>,
        lambda_id: usize,
        last: usize,
        level: isize,
    )
        requires
            self.budding(open),
            self.named(names),
            open.contains(last),
            self.wires.contains_key(last),
            self.agents.contains_key(lambda_id),
            self.agents[lambda_id].kind == AgentKind::Lambda,
            self.agents[self.wires[last].source].kind.arity() == 2,
            self.agent_id < usize::MAX,
            self.wire_id < usize::MAX,
            self.bound(lambda_id, last, level) is Some,
        ensures
            self.bound(lambda_id, last, level)->0.budding(open.remove(last)),
            self.bound(lambda_id, last, level)->0.named(names),
    {
        let after = self.bound(lambda_id, last, level)->0;
        let open2 = open.remove(last);
        let lambda = self.agents[lambda_id];
        assert(self.wire_budding(open, last));
        assert(self.agent_budding(lambda_id));
        assert forall|name: usize| #[trigger] names.contains_key(name) implies after.agents.contains_key(
            names[name],
        ) && after.agents[names[name]].kind == AgentKind::Lambda by {}
        if lambda.second == 0 {
            assert forall|id: usize| after.agents.contains_key(id) implies #[trigger] after.agent_budding(
                id,
            ) by {
                assert(self.agent_budding(id));
            }
            assert forall|id: usize| after.wires.contains_key(id) implies #[trigger] after.wire_budding(
                open2,
                id,
            ) by {
                assert(self.wire_budding(open, id));
            }
        } else {
            let previous = lambda.second;
            assert(self.wire_budding(open, previous));
            assert(!open.contains(previous));
            assert(self.wire_ok(previous));
            let d = self.agent_id;
            let m = self.wire_id;
            assert forall|id: usize| after.agents.contains_key(id) implies #[trigger] after.agent_budding(
                id,
            ) by {
                if id != d {
                    assert(self.agent_budding(id));
                }
            }
            let duplicator = Agent {
                kind: AgentKind::Duplicator,
                level,
                principal: m,
                first: previous,
                second: last,
            };
            let marked = lambda.with_port(2, m);
            assert(after.agents == self.agents.insert(d, duplicator).insert(lambda_id, marked));
            let was = self.wires[previous];
            let moved = if was.target == lambda_id {
                Wire { source: was.source, target: d }
            } else {
                Wire { source: d, target: was.target }
            };
            assert(after.wires == self.wires.insert(
                m,
                Wire { source: lambda_id, target: d },
            ).insert(previous, moved).insert(
                last,
                Wire { source: self.wires[last].source, target: d },
            ));
            assert forall|id: usize| after.wires.contains_key(id) implies #[trigger] after.wire_budding(
                open2,
                id,
            ) by {
                lambda.lemma_with_port_slots(2, m, id);
                if id != m {
                    assert(self.wire_budding(open, id));
                    let wire = self.wires[id];
                    if self.agents.contains_key(wire.source) {
                        assert(self.agent_budding(wire.source));
                    }
                }
            }
        }
    }

    /// A new lambda at the end of an open wire: the wire is closed, and the
    /// wire to the body is open in its place.
    pub proof fn lemma_lambda_budding(
        self,
        open: Set<usize>,
        names: Map<usize, usize>,
        name: usize,
        level: isize,
        dangling: usize,
    )
        requires
            self.budding(open),
            self.named(names),
            open.contains(dangling),
            self.agent_id < usize::MAX,
            self.wire_id < usize::MAX,
        ensures
            ({
                let lambda = Agent {
                    kind: AgentKind::Lambda,
                    level,
                    principal: dangling,
                    first: self.wire_id,
                    second: 0,
                };
                let after = self.with_agent(lambda).with_wire(
                    Wire { source: self.agent_id, target: 0 },
                ).filled(dangling, self.agent_id);
                &&& after.budding(open.remove(dangling).insert(self.wire_id))
                &&& after.named(names.insert(name, self.agent_id))
            }),
    {
        let n = self.agent_id;
        let m = self.wire_id;
        let lambda = Agent {
            kind: AgentKind::Lambda,
            level,
            principal: dangling,
            first: m,
            second: 0,
        };
        let after = self.with_agent(lambda).with_wire(Wire { source: n, target: 0 }).filled(
            dangling,
            n,
        );
        let open2 = open.remove(dangling).insert(m);
        let names2 = names.insert(name, n);
        assert(self.wire_budding(open, dangling));
        assert forall|id: usize| after.agents.contains_key(id) implies #[trigger] after.agent_budding(
            id,
        ) by {
            if id != n {
                assert(self.agent_budding(id));
            }
        }
        assert forall|id: usize| after.wires.contains_key(id) implies #[trigger] after.wire_budding(
            open2,
            id,
        ) by {
            if id != m {
                assert(self.wire_budding(open, id));
            }
        }
        assert forall|k: usize| #[trigger] names2.contains_key(k) implies after.agents.contains_key(
            names2[k],
        ) && after.agents[names2[k]].kind == AgentKind::Lambda by {
            if k != name {
                assert(names.contains_key(k));
            }
        }
    }

    /// A new application at the end of an open wire: the wire is closed, and
    /// the wires to the function and to the argument are open in its place.
    pub proof fn lemma_application_budding(
        self,
        open: Set<usize>,
        names: Map<usize, usize>,
        level: isize,
        dangling: usize,
    )
        requires
            self.budding(open),
            self.named(names),
            open.contains(dangling),
            self.agent_id < usize::MAX,
            self.wire_id + 1 < usize::MAX,
        ensures
            ({
                let application = Agent {
                    kind: AgentKind::Application,
                    level,
                    principal: self.wire_id,
                    first: dangling,
                    second: (self.wire_id + 1) as usize,
                };
                let wire = Wire { source: self.agent_id, target: 0 };
                let after = self.with_agent(application).with_wire(wire).with_wire(wire).filled(
                    dangling,
                    self.agent_id,
                );
                &&& after.budding(
                    open.remove(dangling).insert(self.wire_id).insert((self.wire_id + 1) as usize),
                )
                &&& after.named(names)
            }),
    {
        let n = self.agent_id;
        let m = self.wire_id;
        let application = Agent {
            kind: AgentKind::Application,
            level,
            principal: m,
            first: dangling,
            second: (m + 1) as usize,
        };
        let wire = Wire { source: n, target: 0 };
        let after = self.with_agent(application).with_wire(wire).with_wire(wire).filled(
            dangling,
            n,
        );
        let open2 = open.remove(dangling).insert(m).insert((m + 1) as usize);
        assert(self.wire_budding(open, dangling));
        assert forall|id: usize| after.agents.contains_key(id) implies #[trigger] after.agent_budding(
            id,
        ) by {
            if id != n {
                assert(self.agent_budding(id));
            }
        }
        assert forall|id: usize| after.wires.contains_key(id) implies #[trigger] after.wire_budding(
            open2,
            id,
        ) by {
            if id != m && id != m + 1 {
                assert(self.wire_budding(open, id));
            }
        }
        assert forall|k: usize| #[trigger] names.contains_key(k) implies after.agents.contains_key(
            names[k],
        ) && after.agents[names[k]].kind == AgentKind::Lambda by {}
    }

    /// Building the net of a subterm at the end of an open wire closes that
    /// wire and leaves the net as well formed as it was.
    pub proof fn lemma_grown_budding(
        self,
        open: Set<usize>,
        names: Map<usize, usize>,
        tree: Tree,
        dangling: usize,
        level: isize,
    )
        requires
            self.budding(open),
            self.named(names),
            open.contains(dangling),
            self.grown(names, tree, dangling, level) is Some,
        ensures
            self.grown(names, tree, dangling, level)->0.net.budding(open.remove(dangling)),
            self.grown(names, tree, dangling, level)->0.net.named(
                self.grown(names, tree, dangling, level)->0.names,
            ),
        decreases tree,
    {
        let n = self.agent_id;
        let m = self.wire_id;
        match tree {
            Tree::Var(id) => {
                let count = bracket_count(level);
                self.lemma_sprout(open, names, AgentKind::Croissant, level, dangling);
                let croissant = Agent {
                    kind: AgentKind::Croissant,
                    level,
                    principal: m,
                    first: dangling,
                    second: 0,
                };
                let start = self.with_wire(Wire { source: n, target: 0 }).with_agent(
                    croissant,
                ).filled(dangling, n);
                let open1 = open.remove(dangling).insert(m);
                start.lemma_bracketed_budding(open1, names, m, count);
                let (chained, last) = start.bracketed(m, count);
                let open2 = open1.remove(m).insert(last);
                assert(names.contains_key(id));
                chained.lemma_bound_budding(open2, names, names[id], last, level);
                assert(!open.contains(m)) by {
                    if open.contains(m) {
                        assert(self.wires.contains_key(m));
                    }
                }
                assert(!open.contains(last)) by {
                    if open.contains(last) {
                        assert(self.wires.contains_key(last));
                    }
                }
                assert(open2.remove(last) =~= open.remove(dangling));
            },
            Tree::Abs(id, body) => {
                self.lemma_lambda_budding(open, names, id, level, dangling);
                let lambda = Agent {
                    kind: AgentKind::Lambda,
                    level,
                    principal: dangling,
                    first: m,
                    second: 0,
                };
                let start = self.with_agent(lambda).with_wire(
                    Wire { source: n, target: 0 },
                ).filled(dangling, n);
                let open1 = open.remove(dangling).insert(m);
                start.lemma_grown_budding(open1, names.insert(id, n), *body, m, level);
                assert(open1.remove(m) =~= open.remove(dangling));
            },
            Tree::App(left, right) => {
                self.lemma_application_budding(open, names, level, dangling);
                let application = Agent {
                    kind: AgentKind::Application,
                    level,
                    principal: m,
                    first: dangling,
                    second: (m + 1) as usize,
                };
                let wire = Wire { source: n, target: 0 };
                let start = self.with_agent(application).with_wire(wire).with_wire(wire).filled(
                    dangling,
                    n,
                );
                let open1 = open.remove(dangling).insert(m).insert((m + 1) as usize);
                start.lemma_grown_budding(open1, names, *left, m, level);
                let function = start.grown(names, *left, m, level)->0;
                let open2 = open1.remove(m);
                function.net.lemma_grown_budding(
                    open2,
                    function.names,
                    *right,
                    (m + 1) as usize,
                    (level + 1) as isize,
                );
                assert(open2.remove((m + 1) as usize) =~= open.remove(dangling));
            },
        }
    }

    /// An eraser at the port of an unused variable leaves the net as well
    /// formed as it was.
    pub proof fn lemma_cap_budding(self, open: Set<usize>, from: usize)
        requires
            self.budding(open),
            self.agents.contains_key(from),
            self.agents[from].kind == AgentKind::Lambda,
            self.agents[from].second == 0,
            self.agent_id < usize::MAX,
            self.wire_id < usize::MAX,
        ensures
            self.with_agent(
                Agent {
                    kind: AgentKind::Eraser,
                    level: 0,
                    principal: self.wire_id,
                    first: 0,
                    second: 0,
                },
            ).with_wire(Wire { source: from, target: self.agent_id }).with_port(
                from,
                2,
                self.wire_id,
            ).budding(open),
    {
        let n = self.agent_id;
        let m = self.wire_id;
        let eraser = Agent { kind: AgentKind::Eraser, level: 0, principal: m, first: 0, second: 0 };
        let next = self.with_agent(eraser).with_wire(Wire { source: from, target: n }).with_port(
            from,
            2,
            m,
        );
        assert(self.agent_budding(from));
        assert forall|id: usize| next.agents.contains_key(id) implies #[trigger] next.agent_budding(
            id,
        ) by {
            if id != n {
                assert(self.agent_budding(id));
            }
        }
        assert forall|id: usize| next.wires.contains_key(id) implies #[trigger] next.wire_budding(
            open,
            id,
        ) by {
            self.agents[from].lemma_with_port_slots(2, m, id);
            if id != m {
                assert(self.wire_budding(open, id));
            }
        }
        assert forall|id: usize| #[trigger] open.contains(id) implies next.wires.contains_key(
            id,
        ) by {}
    }

    /// Putting erasers on unused binders leaves the net as well formed as it
    /// was, and leaves no lambda without a wire for its variable.
    pub proof fn lemma_capped_budding(self, open: Set<usize>, from: usize, end: usize)
        requires
            self.budding(open),
            self.bound_below(from as int),
            from >= 1,
            forall|id: usize| #[trigger]
                self.agents.contains_key(id) && id >= end ==> self.agents[id].kind
                    != AgentKind::Lambda,
            self.capped(from, end) is Some,
        ensures
            self.capped(from, end)->0.budding(open),
            self.capped(from, end)->0.bound_below(self.capped(from, end)->0.agent_id as int),
        decreases end - from,
    {
        if from >= end {
            assert forall|id: usize| #[trigger] self.agents.contains_key(id) && id
                < self.agent_id implies !(self.agents[id].kind == AgentKind::Lambda
                && self.agents[id].second == 0) by {}
        } else if self.agents.contains_key(from) && self.agents[from].kind == AgentKind::Lambda
            && self.agents[from].second == 0 {
            let n = self.agent_id;
            let m = self.wire_id;
            let eraser = Agent {
                kind: AgentKind::Eraser,
                level: 0,
                principal: m,
                first: 0,
                second: 0,
            };
            let next = self.with_agent(eraser).with_wire(
                Wire { source: from, target: n },
            ).with_port(from, 2, m);
            self.lemma_cap_budding(open, from);
            assert forall|id: usize| #[trigger] next.agents.contains_key(id) && id < from
                + 1 implies !(next.agents[id].kind == AgentKind::Lambda && next.agents[id].second
                == 0) by {
                if id != from {
                    assert(self.agents.contains_key(id));
                }
            }
            next.lemma_capped_budding(open, (from + 1) as usize, end);
        } else {
            assert forall|id: usize| #[trigger] self.agents.contains_key(id) && id < from
                + 1 implies !(self.agents[id].kind == AgentKind::Lambda && self.agents[id].second
                == 0) by {
                if id != from {
                    assert(self.agents.contains_key(id) && id < from);
                }
            }
            self.lemma_capped_budding(open, (from + 1) as usize, end);
        }
    }

    /// The net of a term is well formed: every port is attached to a wire
    /// that ends at its agent, and every wire joins exactly two ports.
    pub proof fn lemma_built_wf(tree: Tree)
        requires
            NetView::built(tree) is Some,
        ensures
            NetView::built(tree)->0.wf(),
    {
        let root = Agent { kind: AgentKind::Root, level: 0, principal: 1, first: 0, second: 0 };
        let start = NetView::empty().with_agent(root).with_wire(Wire { source: 1, target: 0 });
        let open = Set::<usize>::empty().insert(1);
        let names = Map::<usize, usize>::empty();
        assert(start.agent_budding(1));
        assert(start.wire_budding(open, 1));
        assert(start.budding(open));
        assert(start.named(names));
        start.lemma_grown_budding(open, names, tree, 1, 0);
        let whole = start.grown(names, tree, 1, 0)->0;
        assert(open.remove(1) =~= Set::<usize>::empty());
        whole.net.lemma_capped_budding(Set::empty(), 1, whole.net.agent_id);
        whole.net.capped(1, whole.net.agent_id)->0.lemma_budding_is_wf();
    }
}

} // verus!
