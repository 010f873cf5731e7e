//! Building the net of a term.

use vstd::prelude::*;
use std::collections::HashMap;
use crate::optimal::agent::{Agent, AgentKind, Wire};
use crate::optimal::net::{Net, NetView};
use crate::tree::Tree;

verus! {

broadcast use vstd::std_specs::hash::group_hash_axioms;

/// What building the net of a subterm gives: the net, the lambda that each
/// binder seen so far has become, and the agent at the top of the subterm.
pub struct Growth {
    pub net: NetView,
    pub names: Map<usize, usize>,
    pub top: usize,
}

/// The number of brackets that a variable at the given level is wrapped in.
pub open spec fn bracket_count(level: isize) -> nat {
    if level > 0 {
        level as nat
    } else {
        0
    }
}

impl NetView {
    /// The net with a chain of `count` brackets added behind the wire
    /// `previous`, at the levels `count - 1` down to 0, and the wire at the
    /// far side of the chain. Each bracket holds the wire towards the binder
    /// at its principal port; that wire ends nowhere yet.
    pub open spec fn bracketed(self, previous: usize, count: nat) -> (NetView, usize)
        decreases count,
    {
        if count == 0 {
            (self, previous)
        } else {
            let bracket = Agent {
                kind: AgentKind::Bracket,
                level: (count - 1) as isize,
                principal: self.wire_id,
                first: previous,
                second: 0,
            };
            self.with_wire(Wire { source: self.agent_id, target: 0 }).with_agent(
                bracket,
            ).with_target(previous, self.agent_id).bracketed(self.wire_id, (count - 1) as nat)
        }
    }

    /// The net with the occurrence that ends in the wire `last` attached to
    /// the lambda `lambda_id`: at its second port if that is free, through a
    /// new duplicator of the given level if the port is taken. The
    /// duplicator takes the use that was there at its first port and the new
    /// one at its second. `None` where the lambda, or the wire at its second
    /// port, is missing.
    pub open spec fn bound(self, lambda_id: usize, last: usize, level: isize) -> Option<NetView> {
        if !self.agents.contains_key(lambda_id) {
            None
        } else if self.agents[lambda_id].second == 0 {
            Some(self.with_port(lambda_id, 2, last).with_target(last, lambda_id))
        } else if !self.wires.contains_key(self.agents[lambda_id].second) {
            None
        } else {
            let previous = self.agents[lambda_id].second;
            let duplicator = Agent {
                kind: AgentKind::Duplicator,
                level,
                principal: self.wire_id,
                first: previous,
                second: last,
            };
            let added = self.with_wire(Wire { source: lambda_id, target: self.agent_id }).with_agent(
                duplicator,
            ).with_port(lambda_id, 2, self.wire_id);
            let moved = if added.wires[previous].target == lambda_id {
                added.with_target(previous, self.agent_id)
            } else {
                added.with_source(previous, self.agent_id)
            };
            Some(moved.with_target(last, self.agent_id))
        }
    }

    /// The net with the agents and wires of `tree` added, the top of the
    /// tree at the free end of the wire `dangling`.
    ///
    /// A variable becomes a croissant of the given level, followed by as many
    /// brackets as the level counts, and is attached to the lambda of its
    /// binder. An abstraction becomes a lambda of the given level, with its
    /// body behind the first port. An application becomes an application
    /// agent of the given level with the function behind its principal port
    /// and the argument, one level up, behind its second port. `None` where a
    /// variable has no binder among those seen so far, and where the
    /// counters or the level would leave the range of the machine's integers.
    pub open spec fn grown(
        self,
        names: Map<usize, usize>,
        tree: Tree,
        dangling: usize,
        level: isize,
    ) -> Option<Growth>
        decreases tree,
    {
        match tree {
            Tree::Var(id) => {
                let count = bracket_count(level);
                if !names.contains_key(id) || self.agent_id + count + 2 > usize::MAX
                    || self.wire_id + count + 2 > usize::MAX {
                    None
                } else {
                    let croissant = Agent {
                        kind: AgentKind::Croissant,
                        level,
                        principal: self.wire_id,
                        first: dangling,
                        second: 0,
                    };
                    let (chained, last) = self.with_wire(
                        Wire { source: self.agent_id, target: 0 },
                    ).with_agent(croissant).filled(dangling, self.agent_id).bracketed(
                        self.wire_id,
                        count,
                    );
                    match chained.bound(names[id], last, level) {
                        Some(net) => Some(Growth { net, names, top: self.agent_id }),
                        None => None,
                    }
                }
            },
            Tree::Abs(id, body) => {
                if self.agent_id >= usize::MAX || self.wire_id >= usize::MAX {
                    None
                } else {
                    let lambda = Agent {
                        kind: AgentKind::Lambda,
                        level,
                        principal: dangling,
                        first: self.wire_id,
                        second: 0,
                    };
                    match self.with_agent(lambda).with_wire(
                        Wire { source: self.agent_id, target: 0 },
                    ).filled(dangling, self.agent_id).grown(
                        names.insert(id, self.agent_id),
                        *body,
                        self.wire_id,
                        level,
                    ) {
                        Some(inner) => Some(
                            Growth { net: inner.net, names: inner.names, top: self.agent_id },
                        ),
                        None => None,
                    }
                }
            },
            Tree::App(left, right) => {
                if self.agent_id >= usize::MAX || self.wire_id + 1 >= usize::MAX || level
                    >= isize::MAX {
                    None
                } else {
                    let application = Agent {
                        kind: AgentKind::Application,
                        level,
                        principal: self.wire_id,
                        first: dangling,
                        second: (self.wire_id + 1) as usize,
                    };
                    let wire = Wire { source: self.agent_id, target: 0 };
                    match self.with_agent(application).with_wire(wire).with_wire(wire).filled(
                        dangling,
                        self.agent_id,
                    ).grown(names, *left, self.wire_id, level) {
                        Some(function) => match function.net.grown(
                            function.names,
                            *right,
                            (self.wire_id + 1) as usize,
                            (level + 1) as isize,
                        ) {
                            Some(argument) => Some(
                                Growth {
                                    net: argument.net,
                                    names: argument.names,
                                    top: self.agent_id,
                                },
                            ),
                            None => None,
                        },
                        None => None,
                    }
                }
            },
        }
    }

    /// The net in which each lambda with an id from `from` up to `end`, and
    /// with nothing at its second port, has a new eraser there. `None` where
    /// a counter would leave the range of the machine's integers.
    pub open spec fn capped(self, from: usize, end: usize) -> Option<NetView>
        decreases end - from,
    {
        if from >= end {
            Some(self)
        } else if self.agents.contains_key(from) && self.agents[from].kind == AgentKind::Lambda
            && self.agents[from].second == 0 {
            if self.agent_id >= usize::MAX || self.wire_id >= usize::MAX {
                None
            } else {
                let eraser = Agent {
                    kind: AgentKind::Eraser,
                    level: 0,
                    principal: self.wire_id,
                    first: 0,
                    second: 0,
                };
                self.with_agent(eraser).with_wire(
                    Wire { source: from, target: self.agent_id },
                ).with_port(from, 2, self.wire_id).capped((from + 1) as usize, end)
            }
        } else {
            self.capped((from + 1) as usize, end)
        }
    }

    /// The net of a term: a root, which is the agent 1, on the wire 1 that
    /// leads to the top of the term; the agents of the term; and an eraser
    /// at each lambda whose variable is never used.
    pub open spec fn built(tree: Tree) -> Option<NetView> {
        let root = Agent { kind: AgentKind::Root, level: 0, principal: 1, first: 0, second: 0 };
        match NetView::empty().with_agent(root).with_wire(Wire { source: 1, target: 0 }).grown(
            Map::empty(),
            tree,
            1,
            0,
        ) {
            Some(whole) => whole.net.capped(1, whole.net.agent_id),
            None => None,
        }
    }
}

impl Net {
    fn add_brackets(&mut self, previous: usize, count: usize) -> (last: usize)
        requires
            old(self)@.wires.contains_key(previous),
            old(self).agent_id + count <= usize::MAX,
            old(self).wire_id + count <= usize::MAX,
            count <= isize::MAX,
        ensures
            (final(self)@, last) == old(self)@.bracketed(previous, count as nat),
            final(self)@.wires.contains_key(last),
            final(self).agent_id == old(self).agent_id + count,
            final(self).wire_id == old(self).wire_id + count,
            forall|w: usize|
                old(self)@.wires.contains_key(w) ==> final(self)@.wires.contains_key(w),
            forall|a: usize|
                old(self)@.agents.contains_key(a) ==> final(self)@.agents.contains_key(a),
    {
        let mut last: usize = previous;
        let mut k: usize = count;
        while k > 0
            invariant
                k <= count,
                count <= isize::MAX,
                self@.wires.contains_key(last),
                self.agent_id + k == old(self).agent_id + count,
                self.wire_id + k == old(self).wire_id + count,
                old(self).agent_id + count <= usize::MAX,
                old(self).wire_id + count <= usize::MAX,
                self@.bracketed(last, k as nat) == old(self)@.bracketed(previous, count as nat),
                forall|w: usize|
                    old(self)@.wires.contains_key(w) ==> self@.wires.contains_key(w),
                forall|a: usize|
                    old(self)@.agents.contains_key(a) ==> self@.agents.contains_key(a),
            decreases k,
        {
            let wire: usize = self.wire_id;
            let id: usize = self.agent_id;
            let bracket = Agent {
                kind: AgentKind::Bracket,
                level: (k - 1) as isize,
                principal: wire,
                first: last,
                second: 0,
            };
            self.add_wire(Wire::new(id, 0));
            self.add_agent(bracket);
            self.set_target(last, id);
            last = wire;
            k = k - 1;
        }
        last
    }

    fn bind(&mut self, lambda_id: usize, last: usize, level: isize) -> (done: bool)
        requires
            old(self)@.wires.contains_key(last),
            old(self).agent_id < usize::MAX,
            old(self).wire_id < usize::MAX,
        ensures
            match old(self)@.bound(lambda_id, last, level) {
                Some(net) => done && final(self)@ == net,
                None => !done,
            },
            forall|w: usize|
                old(self)@.wires.contains_key(w) ==> final(self)@.wires.contains_key(w),
            forall|a: usize|
                old(self)@.agents.contains_key(a) ==> final(self)@.agents.contains_key(a),
    {
        let lambda: Agent = match self.agent(lambda_id) {
            Some(agent) => agent,
            None => {
                return false;
            },
        };
        if lambda.second == 0 {
            self.set_port(lambda_id, 2, last);
            self.set_target(last, lambda_id);
            return true;
        }
        let previous: usize = lambda.second;
        if self.wire(previous).is_none() {
            return false;
        }
        let wire: usize = self.wire_id;
        let id: usize = self.agent_id;
        let duplicator = Agent {
            kind: AgentKind::Duplicator,
            level,
            principal: wire,
            first: previous,
            second: last,
        };
        self.add_wire(Wire::new(lambda_id, id));
        self.add_agent(duplicator);
        self.set_port(lambda_id, 2, wire);
        let old_use: Wire = self.wire(previous).unwrap();
        if old_use.target == lambda_id {
            self.set_target(previous, id);
        } else {
            self.set_source(previous, id);
        }
        self.set_target(last, id);
        true
    }

    fn from_tree_helper(
        &mut self,
        tree: &Tree,
        dangling: usize,
        level: isize,
        name_map: &mut HashMap<usize, usize>,
    ) -> (top: Option<usize>)
        requires
            old(self)@.wires.contains_key(dangling),
        ensures
            match old(self)@.grown(old(name_map)@, *tree, dangling, level) {
                Some(growth) => top == Some(growth.top) && final(self)@ == growth.net
                    && final(name_map)@ == growth.names,
                None => top is None,
            },
            forall|w: usize|
                old(self)@.wires.contains_key(w) ==> final(self)@.wires.contains_key(w),
            forall|a: usize|
                old(self)@.agents.contains_key(a) ==> final(self)@.agents.contains_key(a),
        decreases *tree,
    {
        match tree {
            Tree::Var(id) => {
                let count: usize = if level > 0 {
                    level as usize
                } else {
                    0
                };
                let lambda_id: usize = match name_map.get(id) {
                    Some(found) => *found,
                    None => {
                        return None;
                    },
                };
                if self.agent_id > usize::MAX - count - 2 || self.wire_id > usize::MAX - count - 2 {
                    return None;
                }
                let wire: usize = self.wire_id;
                let croissant: usize = self.agent_id;
                self.add_wire(Wire::new(croissant, 0));
                self.add_agent(
                    Agent {
                        kind: AgentKind::Croissant,
                        level,
                        principal: wire,
                        first: dangling,
                        second: 0,
                    },
                );
                self.fill_wire(dangling, croissant);
                let last: usize = self.add_brackets(wire, count);
                if self.bind(lambda_id, last, level) {
                    Some(croissant)
                } else {
                    None
                }
            },
            Tree::Abs(id, body) => {
                if self.agent_id == usize::MAX || self.wire_id == usize::MAX {
                    return None;
                }
                let lambda_id: usize = self.agent_id;
                let body_wire: usize = self.wire_id;
                self.add_agent(
                    Agent {
                        kind: AgentKind::Lambda,
                        level,
                        principal: dangling,
                        first: body_wire,
                        second: 0,
                    },
                );
                self.add_wire(Wire::new(lambda_id, 0));
                self.fill_wire(dangling, lambda_id);
                name_map.insert(*id, lambda_id);
                match self.from_tree_helper(body, body_wire, level, name_map) {
                    Some(_) => Some(lambda_id),
                    None => None,
                }
            },
            Tree::App(left, right) => {
                if self.agent_id == usize::MAX || self.wire_id >= usize::MAX - 1 || level
                    == isize::MAX {
                    return None;
                }
                let application_id: usize = self.agent_id;
                let left_wire: usize = self.wire_id;
                let right_wire: usize = self.wire_id + 1;
                self.add_agent(
                    Agent {
                        kind: AgentKind::Application,
                        level,
                        principal: left_wire,
                        first: dangling,
                        second: right_wire,
                    },
                );
                self.add_wire(Wire::new(application_id, 0));
                self.add_wire(Wire::new(application_id, 0));
                self.fill_wire(dangling, application_id);
                if self.from_tree_helper(left, left_wire, level, name_map).is_none() {
                    return None;
                }
                if self.from_tree_helper(right, right_wire, level + 1, name_map).is_none() {
                    return None;
                }
                Some(application_id)
            },
        }
    }

    fn fix_dangling_lambdas(&mut self, end: usize) -> (done: bool)
        ensures
            match old(self)@.capped(1, end) {
                Some(net) => done && final(self)@ == net,
                None => !done,
            },
    {
        let mut id: usize = 1;
        while id < end
            invariant
                1 <= id,
                self@.capped(id, end) == old(self)@.capped(1, end),
            decreases end - id,
        {
            let dangling: bool = match self.agent(id) {
                Some(agent) => agent.kind == AgentKind::Lambda && agent.second == 0,
                None => false,
            };
            if dangling {
                if self.agent_id == usize::MAX || self.wire_id == usize::MAX {
                    return false;
                }
                let wire: usize = self.wire_id;
                let eraser: usize = self.agent_id;
                self.add_agent(
                    Agent {
                        kind: AgentKind::Eraser,
                        level: 0,
                        principal: wire,
                        first: 0,
                        second: 0,
                    },
                );
                self.add_wire(Wire::new(id, eraser));
                self.set_port(id, 2, wire);
            }
            id = id + 1;
        }
        true
    }

    /// Builds the net of a term, or nothing where the term has none: a
    /// variable without a binder, or a term too large for the machine's integers.
    pub fn checked_from_tree(tree: &Tree) -> (built: Option<Net>)
        ensures
            match NetView::built(*tree) {
                Some(net) => built is Some && built->0@ == net && net.wf(),
                None => built is None,
            },
    {
        proof {
            if NetView::built(*tree) is Some {
                NetView::lemma_built_wf(*tree);
            }
        }
        let mut net = Net::new();
        let mut map: HashMap<usize, usize> = HashMap::new();
        let root_id: usize = net.add_agent(
            Agent { kind: AgentKind::Root, level: 0, principal: 1, first: 0, second: 0 },
        );
        let root_wire: usize = net.add_wire(Wire::new(root_id, 0));
        if net.from_tree_helper(tree, root_wire, 0, &mut map).is_none() {
            return None;
        }
        let end: usize = net.agent_id;
        if net.fix_dangling_lambdas(end) {
            Some(net)
        } else {
            None
        }
    }

    /// Builds the net of a term that has one. The net is well formed.
    pub fn from_tree(tree: &Tree) -> (net: Net)
        requires
            NetView::built(*tree) is Some,
        ensures
            net@ == NetView::built(*tree)->0,
            net@.wf(),
    {
        proof {
            NetView::lemma_built_wf(*tree);
        }
        Net::checked_from_tree(tree).unwrap()
    }
}

} // verus!
