//! Reading a net back as a term, by a walk that starts at the root.

use vstd::prelude::*;
use std::collections::HashMap;
use crate::optimal::agent::{Agent, AgentKind};
use crate::optimal::net::{Net, NetView};
use crate::tree::Tree;

verus! {

broadcast use vstd::std_specs::hash::group_hash_axioms;

/// The number of applications, abstractions and duplicators that a walk may
/// pass on one path from the root.
pub const GAS: isize = 1000;

/// What a walk gives: the term it read, if any, and the port that it last
/// took at each duplicator it met from one of its two branches.
pub struct Reading {
    pub tree: Option<Tree>,
    pub oracle: Map<usize, usize>,
}

impl Reading {
    /// A walk that read nothing.
    pub open spec fn failed(oracle: Map<usize, usize>) -> Reading {
        Reading { tree: None, oracle }
    }
}

impl NetView {
    /// The number of control agents that a walk may pass in a row. No walk
    /// that makes progress passes more of them than ids were handed out.
    pub open spec fn patience(self) -> nat {
        self.agent_id as nat
    }

    /// What the walk reads along the wire `wire`, which it takes away from
    /// the agent `from`.
    pub open spec fn read_along(
        self,
        from: usize,
        wire: usize,
        oracle: Map<usize, usize>,
        gas: int,
        hops: nat,
    ) -> Reading
        decreases gas, hops, 1nat,
    {
        if gas <= 0 || !self.wires.contains_key(wire) {
            Reading::failed(oracle)
        } else {
            self.read(self.partner(from, wire), wire, oracle, gas, hops)
        }
    }

    /// What the walk reads at the agent `aid`, which it enters by the wire
    /// `wid`, with `gas` left for this path and `hops` control agents to
    /// pass before the next agent that costs gas.
    ///
    /// A root hands the walk on through its one port, a croissant or a
    /// bracket through the port opposite the one entered. An application is
    /// read as the application of what lies behind its principal port to
    /// what lies behind its second port. A lambda entered at the principal
    /// port is read as an abstraction, named by the agent's id, over what
    /// lies behind its first port; entered elsewhere it is a variable of
    /// that name. A duplicator entered from a branch records the branch and
    /// hands the walk on through the principal port; entered at the
    /// principal port it hands the walk on through the branch recorded. An
    /// eraser, a missing agent or wire, and a walk out of gas or out of
    /// hops read as nothing.
    pub open spec fn read(
        self,
        aid: usize,
        wid: usize,
        oracle: Map<usize, usize>,
        gas: int,
        hops: nat,
    ) -> Reading
        decreases gas, hops, 0nat,
    {
        if gas <= 0 || !self.agents.contains_key(aid) {
            Reading::failed(oracle)
        } else {
            let agent = self.agents[aid];
            match agent.kind {
                AgentKind::Root => if hops == 0 {
                    Reading::failed(oracle)
                } else {
                    self.read_along(aid, agent.principal, oracle, gas, (hops - 1) as nat)
                },
                AgentKind::Bracket | AgentKind::Croissant => if hops == 0 {
                    Reading::failed(oracle)
                } else if agent.port_holding(wid) == 1 {
                    self.read_along(aid, agent.principal, oracle, gas, (hops - 1) as nat)
                } else {
                    self.read_along(aid, agent.first, oracle, gas, (hops - 1) as nat)
                },
                AgentKind::Application => {
                    let left = self.read_along(
                        aid,
                        agent.principal,
                        oracle,
                        gas - 1,
                        self.patience(),
                    );
                    let right = self.read_along(
                        aid,
                        agent.second,
                        left.oracle,
                        gas - 1,
                        self.patience(),
                    );
                    match (left.tree, right.tree) {
                        (Some(l), Some(r)) => Reading {
                            tree: Some(Tree::App(Box::new(l), Box::new(r))),
                            oracle: right.oracle,
                        },
                        _ => Reading::failed(right.oracle),
                    }
                },
                AgentKind::Lambda => if agent.port_holding(wid) == 0 {
                    let body = self.read_along(
                        aid,
                        agent.first,
                        oracle,
                        gas - 1,
                        self.patience(),
                    );
                    match body.tree {
                        Some(b) => Reading {
                            tree: Some(Tree::Abs(aid, Box::new(b))),
                            oracle: body.oracle,
                        },
                        None => Reading::failed(body.oracle),
                    }
                } else {
                    Reading { tree: Some(Tree::Var(aid)), oracle }
                },
                AgentKind::Duplicator => if agent.port_holding(wid) == 0 {
                    if oracle.contains_key(aid) && oracle[aid] < 3 {
                        self.read_along(
                            aid,
                            agent.port(oracle[aid] as int),
                            oracle,
                            gas - 1,
                            self.patience(),
                        )
                    } else {
                        Reading::failed(oracle)
                    }
                } else {
                    self.read_along(
                        aid,
                        agent.principal,
                        oracle.insert(aid, agent.port_holding(wid) as usize),
                        gas - 1,
                        self.patience(),
                    )
                },
                AgentKind::Eraser => Reading::failed(oracle),
            }
        }
    }

    /// The term that the net stands for: what a walk from the root reads,
    /// with its variables resolved to lexical indices. The root is the agent 1.
    pub open spec fn read_back(self) -> Option<Tree> {
        if !self.agents.contains_key(1) {
            None
        } else {
            match self.read(1, self.agents[1].principal, Map::empty(), GAS as int, self.patience()).tree {
                Some(tree) => Some(tree.indexed(Seq::empty())),
                None => None,
            }
        }
    }
}

impl Net {
    fn read_along(
        &self,
        from: usize,
        wire: usize,
        oracle: &mut HashMap<usize, usize>,
        gas: isize,
        hops: usize,
    ) -> (tree: Option<Tree>)
        ensures
            (Reading { tree, oracle: final(oracle)@ }) == self@.read_along(
                from,
                wire,
                old(oracle)@,
                gas as int,
                hops as nat,
            ),
        decreases gas, hops, 1nat,
    {
        if gas <= 0 {
            return None;
        }
        match self.wire(wire) {
            Some(found) => {
                let next: usize = if from == found.source {
                    found.target
                } else {
                    found.source
                };
                self.read_from(next, wire, oracle, gas, hops)
            },
            None => None,
        }
    }

    fn read_from(
        &self,
        aid: usize,
        wid: usize,
        oracle: &mut HashMap<usize, usize>,
        gas: isize,
        hops: usize,
    ) -> (tree: Option<Tree>)
        ensures
            (Reading { tree, oracle: final(oracle)@ }) == self@.read(
                aid,
                wid,
                old(oracle)@,
                gas as int,
                hops as nat,
            ),
        decreases gas, hops, 0nat,
    {
        if gas <= 0 {
            return None;
        }
        let agent: Agent = match self.agent(aid) {
            Some(agent) => agent,
            None => {
                return None;
            },
        };
        let patience: usize = self.agent_id;
        match agent.kind {
            AgentKind::Root => {
                if hops == 0 {
                    return None;
                }
                self.read_along(aid, agent.principal, oracle, gas, hops - 1)
            },
            AgentKind::Bracket | AgentKind::Croissant => {
                if hops == 0 {
                    return None;
                }
                if agent.port_of(wid) == 1 {
                    self.read_along(aid, agent.principal, oracle, gas, hops - 1)
                } else {
                    self.read_along(aid, agent.first, oracle, gas, hops - 1)
                }
            },
            AgentKind::Application => {
                let left: Option<Tree> = self.read_along(
                    aid,
                    agent.principal,
                    oracle,
                    gas - 1,
                    patience,
                );
                let right: Option<Tree> = self.read_along(
                    aid,
                    agent.second,
                    oracle,
                    gas - 1,
                    patience,
                );
                match (left, right) {
                    (Some(l), Some(r)) => Some(Tree::App(Box::new(l), Box::new(r))),
                    _ => None,
                }
            },
            AgentKind::Lambda => {
                if agent.port_of(wid) == 0 {
                    match self.read_along(aid, agent.first, oracle, gas - 1, patience) {
                        Some(b) => Some(Tree::Abs(aid, Box::new(b))),
                        None => None,
                    }
                } else {
                    Some(Tree::Var(aid))
                }
            },
            AgentKind::Duplicator => {
                let port: usize = agent.port_of(wid);
                if port == 0 {
                    let taken: Option<usize> = match oracle.get(&aid) {
                        Some(p) => Some(*p),
                        None => None,
                    };
                    match taken {
                        Some(p) => {
                            if p < 3 {
                                self.read_along(aid, agent.get(p), oracle, gas - 1, patience)
                            } else {
                                None
                            }
                        },
                        None => None,
                    }
                } else {
                    oracle.insert(aid, port);
                    self.read_along(aid, agent.principal, oracle, gas - 1, patience)
                }
            },
            AgentKind::Eraser => None,
        }
    }

    /// Reads the part of the net that lies at the agent `aid`, entered by
    /// the wire `wid`, as a term whose binders and variables are named by
    /// the ids of the lambdas. `oracle` holds, and takes up, the branch by
    /// which each duplicator was entered.
    pub fn to_tree_helper(
        &self,
        aid: usize,
        wid: usize,
        oracle: &mut HashMap<usize, usize>,
        gas: isize,
    ) -> (tree: Option<Tree>)
        ensures
            (Reading { tree, oracle: final(oracle)@ }) == self@.read(
                aid,
                wid,
                old(oracle)@,
                gas as int,
                self@.patience(),
            ),
    {
        let patience: usize = self.agent_id;
        self.read_from(aid, wid, oracle, gas, patience)
    }

    /// Reads the whole net back as a term with lexical indices.
    pub fn to_tree(&self) -> (tree: Option<Tree>)
        ensures
            tree == self@.read_back(),
    {
        let root: Agent = match self.agent(1) {
            Some(agent) => agent,
            None => {
                return None;
            },
        };
        let mut oracle: HashMap<usize, usize> = HashMap::new();
        match self.to_tree_helper(1, root.principal, &mut oracle, GAS) {
            Some(tree) => Some(Tree::fix_indices(tree)),
            None => None,
        }
    }
}

} // verus!
