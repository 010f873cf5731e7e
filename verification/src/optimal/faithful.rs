//! Reading back the net of a term gives the term again.
//!
//! The proof follows the construction of the net. Each step of the
//! construction changes the net so little that what a walk read before the
//! step, it reads after it: the one change a walk can meet is a new
//! duplicator between an occurrence and its lambda, which costs the walk
//! one unit of gas.

use vstd::prelude::*;
use crate::optimal::agent::{AgentKind, Wire};
use crate::optimal::net::NetView;
use crate::tree::Tree;

verus! {

/// Whether two oracles say the same of every duplicator but `skip`.
pub open spec fn agree(one: Map<usize, usize>, two: Map<usize, usize>, skip: usize) -> bool {
    forall|id: usize|
        id != skip ==> (#[trigger] one.contains_key(id)) == two.contains_key(id) && (
        one.contains_key(id) ==> one[id] == two[id])
}

/// The gas that a step costs a walk: one unit where it puts a duplicator in.
pub open spec fn toll(lift: Option<(usize, usize)>) -> int {
    if lift is Some {
        1
    } else {
        0
    }
}

/// The duplicator that a step puts in, or an id that is none where the step
/// puts none in.
pub open spec fn inserted(lift: Option<(usize, usize)>) -> usize {
    match lift {
        Some((_, duplicator)) => duplicator,
        None => 0,
    }
}

impl NetView {
    /// Whether a walk that leaves the agent `from` along `wire` reads
    /// `tree`, whatever the oracle says, once it has `gas` and `hops`.
    pub open spec fn reads(self, from: usize, wire: usize, tree: Tree, gas: int, hops: nat)
        -> bool {
        forall|oracle: Map<usize, usize>, g: int, h: nat|
            g >= gas && h >= hops ==> (#[trigger] self.read_along(from, wire, oracle, g, h)).tree
                == Some(tree)
    }

    /// Whether `after` is this net after one step of construction. Agents
    /// stay as they are, but that a lambda may get a wire at the port of
    /// its variable. Wires stay as they are, but that an open wire may be
    /// closed. Where `lift` names a lambda and a duplicator, the duplicator
    /// is new and stands between the lambda and what was at the port of its
    /// variable.
    pub open spec fn step_to(self, after: NetView, lift: Option<(usize, usize)>) -> bool {
        &&& after.agent_id >= self.agent_id
        &&& forall|id: usize| #[trigger]
            self.agents.contains_key(id) ==> {
                let was = self.agents[id];
                let now = after.agents[id];
                &&& after.agents.contains_key(id)
                &&& now.kind == was.kind
                &&& now.level == was.level
                &&& now.principal == was.principal
                &&& now.first == was.first
                &&& now.second == was.second || (was.kind == AgentKind::Lambda && was.second == 0
                    && (!self.wires.contains_key(now.second) || self.wires[now.second].target
                    == 0)) || (lift matches Some((lambda, _)) && id == lambda)
            }
        &&& forall|id: usize| #[trigger]
            self.wires.contains_key(id) ==> after.wires.contains_key(id) && (after.wires[id]
                == self.wires[id] || (self.wires[id].target == 0 && after.wires[id].source
                == self.wires[id].source) || (lift matches Some((lambda, _))
                && self.agents[lambda].second == id))
        &&& lift matches Some((lambda, duplicator)) ==> {
            let previous = self.agents[lambda].second;
            let copy = after.agents[duplicator];
            &&& self.agents.contains_key(lambda)
            &&& self.agents[lambda].kind == AgentKind::Lambda
            &&& self.wires.contains_key(previous)
            &&& self.wires[previous].target != 0
            &&& self.agents[lambda].principal != previous
            &&& self.agents[lambda].first != previous
            &&& !self.agents.contains_key(duplicator)
            &&& duplicator != 0
            &&& after.agents.contains_key(duplicator)
            &&& copy.kind == AgentKind::Duplicator
            &&& copy.first == previous
            &&& copy.second != previous
            &&& !self.wires.contains_key(copy.principal)
            &&& after.wires.contains_key(copy.principal)
            &&& after.wires[copy.principal] == (Wire { source: lambda, target: duplicator })
            &&& after.agents[lambda].second == copy.principal
            &&& after.wires[previous] == (if self.wires[previous].source == lambda {
                Wire { source: duplicator, target: self.wires[previous].target }
            } else {
                Wire { source: self.wires[previous].source, target: duplicator }
            })
        }
    }

    /// What a walk along a wire read before a step, it reads after the step,
    /// with one more unit of gas where the step put a duplicator in.
    pub proof fn lemma_step_along(
        self,
        after: NetView,
        open: Set<usize>,
        lift: Option<(usize, usize)>,
        from: usize,
        wire: usize,
        one: Map<usize, usize>,
        two: Map<usize, usize>,
        gas: int,
        more: int,
        hops: nat,
        longer: nat,
    )
        requires
            self.budding(open),
            self.step_to(after, lift),
            self.agents.contains_key(from),
            self.attached(from, wire),
            !(lift matches Some((lambda, _)) && from == lambda && wire
                == self.agents[lambda].second),
            self.read_along(from, wire, one, gas, hops).tree is Some,
            agree(one, two, inserted(lift)),
            more >= gas + toll(lift),
            longer >= hops,
        ensures
            after.read_along(from, wire, two, more, longer).tree == self.read_along(
                from,
                wire,
                one,
                gas,
                hops,
            ).tree,
            agree(
                self.read_along(from, wire, one, gas, hops).oracle,
                after.read_along(from, wire, two, more, longer).oracle,
                inserted(lift),
            ),
        decreases gas, hops, 1nat,
    {
        assert(self.wire_budding(open, wire));
        let to = self.partner(from, wire);
        if self.wires[wire].target == 0 {
            assert(!self.agents.contains_key(to));
        } else if after.wires[wire] == self.wires[wire] {
            assert(self.wire_ok(wire));
            self.lemma_step_at(after, open, lift, to, wire, one, two, gas, more, hops, longer);
        } else {
            let (lambda, duplicator) = lift->0;
            let copy = after.agents[duplicator];
            assert(wire == self.agents[lambda].second);
            assert(self.agent_budding(lambda));
            assert(self.attached(lambda, wire));
            assert(self.wire_ok(wire));
            assert(to == lambda);
            assert(self.agents[lambda].port_holding(wire) == 2);
            assert(after.partner(from, wire) == duplicator);
            assert(copy.port_holding(wire) == 1);
            assert(after.partner(duplicator, copy.principal) == lambda);
            assert(after.agents[lambda].port_holding(copy.principal) == 2);
            let marked = two.insert(duplicator, 1);
            assert(after.read(lambda, copy.principal, marked, more - 1, after.patience()).tree
                == Some(Tree::Var(lambda)));
            assert(after.read_along(
                duplicator,
                copy.principal,
                marked,
                more - 1,
                after.patience(),
            ).tree == Some(Tree::Var(lambda)));
            assert(after.read(duplicator, wire, two, more, longer).tree == Some(
                Tree::Var(lambda),
            ));
        }
    }

    /// What a walk read at an agent before a step, it reads there after the
    /// step, with one more unit of gas where the step put a duplicator in.
    pub proof fn lemma_step_at(
        self,
        after: NetView,
        open: Set<usize>,
        lift: Option<(usize, usize)>,
        aid: usize,
        wid: usize,
        one: Map<usize, usize>,
        two: Map<usize, usize>,
        gas: int,
        more: int,
        hops: nat,
        longer: nat,
    )
        requires
            self.budding(open),
            self.step_to(after, lift),
            self.wires.contains_key(wid),
            self.wires[wid].target != 0,
            !(lift matches Some((lambda, _)) && aid == lambda && wid
                == self.agents[lambda].second),
            self.read(aid, wid, one, gas, hops).tree is Some,
            agree(one, two, inserted(lift)),
            more >= gas + toll(lift),
            longer >= hops,
        ensures
            after.read(aid, wid, two, more, longer).tree == self.read(
                aid,
                wid,
                one,
                gas,
                hops,
            ).tree,
            agree(
                self.read(aid, wid, one, gas, hops).oracle,
                after.read(aid, wid, two, more, longer).oracle,
                inserted(lift),
            ),
        decreases gas, hops, 0nat,
    {
        let was = self.agents[aid];
        let now = after.agents[aid];
        assert(self.agents.contains_key(aid));
        assert(self.agent_budding(aid));
        match was.kind {
            AgentKind::Root => {
                self.lemma_step_along(
                    after,
                    open,
                    lift,
                    aid,
                    was.principal,
                    one,
                    two,
                    gas,
                    more,
                    (hops - 1) as nat,
                    (longer - 1) as nat,
                );
            },
            AgentKind::Bracket | AgentKind::Croissant => {
                assert(now.port_holding(wid) == was.port_holding(wid));
                if was.port_holding(wid) == 1 {
                    self.lemma_step_along(
                        after,
                        open,
                        lift,
                        aid,
                        was.principal,
                        one,
                        two,
                        gas,
                        more,
                        (hops - 1) as nat,
                        (longer - 1) as nat,
                    );
                } else {
                    self.lemma_step_along(
                        after,
                        open,
                        lift,
                        aid,
                        was.first,
                        one,
                        two,
                        gas,
                        more,
                        (hops - 1) as nat,
                        (longer - 1) as nat,
                    );
                }
            },
            AgentKind::Application => {
                let left = self.read_along(aid, was.principal, one, gas - 1, self.patience());
                self.lemma_step_along(
                    after,
                    open,
                    lift,
                    aid,
                    was.principal,
                    one,
                    two,
                    gas - 1,
                    more - 1,
                    self.patience(),
                    after.patience(),
                );
                let left2 = after.read_along(aid, now.principal, two, more - 1, after.patience());
                self.lemma_step_along(
                    after,
                    open,
                    lift,
                    aid,
                    was.second,
                    left.oracle,
                    left2.oracle,
                    gas - 1,
                    more - 1,
                    self.patience(),
                    after.patience(),
                );
            },
            AgentKind::Lambda => {
                assert(now.port_holding(wid) == was.port_holding(wid));
                if was.port_holding(wid) == 0 {
                    self.lemma_step_along(
                        after,
                        open,
                        lift,
                        aid,
                        was.first,
                        one,
                        two,
                        gas - 1,
                        more - 1,
                        self.patience(),
                        after.patience(),
                    );
                }
            },
            AgentKind::Duplicator => {
                assert(now == was);
                if was.port_holding(wid) == 0 {
                    self.lemma_step_along(
                        after,
                        open,
                        lift,
                        aid,
                        was.port(one[aid] as int),
                        one,
                        two,
                        gas - 1,
                        more - 1,
                        self.patience(),
                        after.patience(),
                    );
                } else {
                    let port = was.port_holding(wid) as usize;
                    assert(agree(one.insert(aid, port), two.insert(aid, port), inserted(lift)));
                    self.lemma_step_along(
                        after,
                        open,
                        lift,
                        aid,
                        was.principal,
                        one.insert(aid, port),
                        two.insert(aid, port),
                        gas - 1,
                        more - 1,
                        self.patience(),
                        after.patience(),
                    );
                }
            },
            AgentKind::Eraser => {},
        }
    }

    /// Whether a walk can leave the agent `from` along `wire`: the wire is
    /// closed and ends at the agent, and is not at the port of a lambda's
    /// variable.
    pub open spec fn anchored(self, from: usize, wire: usize) -> bool {
        &&& self.agents.contains_key(from)
        &&& self.attached(from, wire)
        &&& self.wires[wire].target != 0
        &&& !(self.agents[from].kind == AgentKind::Lambda && self.agents[from].second == wire)
    }

    /// A step keeps what a walk from an anchored wire reads.
    pub proof fn lemma_reads_step(
        self,
        after: NetView,
        open: Set<usize>,
        lift: Option<(usize, usize)>,
        from: usize,
        wire: usize,
        tree: Tree,
        gas: int,
        hops: nat,
    )
        requires
            self.budding(open),
            self.step_to(after, lift),
            self.anchored(from, wire),
            self.reads(from, wire, tree, gas, hops),
        ensures
            after.anchored(from, wire),
            after.reads(from, wire, tree, gas + toll(lift), hops),
    {
        assert(self.wire_budding(open, wire));
        assert(self.agent_budding(from));
        assert(self.wires.contains_key(wire));
        assert(after.wires.contains_key(wire));
        if after.wires[wire] != self.wires[wire] {
            let (lambda, duplicator) = lift->0;
            assert(wire == self.agents[lambda].second);
            assert(self.agent_budding(lambda));
            assert(self.wire_ok(wire));
            assert(from != lambda);
        }
        assert(after.anchored(from, wire));
        assert forall|oracle: Map<usize, usize>, g: int, h: nat|
            g >= gas + toll(lift) && h >= hops implies (#[trigger] after.read_along(
            from,
            wire,
            oracle,
            g,
            h,
        )).tree == Some(tree) by {
            assert(self.read_along(from, wire, oracle, g - toll(lift), h).tree == Some(tree));
            self.lemma_step_along(
                after,
                open,
                lift,
                from,
                wire,
                oracle,
                oracle,
                g - toll(lift),
                g,
                h,
                h,
            );
        }
    }
}

} // verus!
