//! Agents and wires, the two kinds of node that a net is made of.

use vstd::prelude::*;
use vstd::std_specs::cmp::PartialEqSpecImpl;

verus! {

/// What an agent does. The variants are listed in the order by which a pair
/// of agents is sorted before a rule is picked for it.
#[derive(Debug, PartialEq, Eq, PartialOrd, Ord, Copy, Clone, Structural)]
pub enum AgentKind {
    Application,
    Bracket,
    Croissant,
    Duplicator,
    Eraser,
    Lambda,
    Root,
}

impl AgentKind {
    /// The position of the kind in the order of the variants.
    pub open spec fn rank(self) -> nat {
        match self {
            AgentKind::Application => 0,
            AgentKind::Bracket => 1,
            AgentKind::Croissant => 2,
            AgentKind::Duplicator => 3,
            AgentKind::Eraser => 4,
            AgentKind::Lambda => 5,
            AgentKind::Root => 6,
        }
    }

    /// The number of ports of an agent of this kind.
    pub open spec fn arity(self) -> nat {
        match self {
            AgentKind::Application | AgentKind::Lambda | AgentKind::Duplicator => 3,
            AgentKind::Eraser | AgentKind::Root => 1,
            AgentKind::Bracket | AgentKind::Croissant => 2,
        }
    }

    /// Computes the rank of the kind.
    pub fn position(self) -> (rank: u8)
        ensures
            rank == self.rank(),
    {
        match self {
            AgentKind::Application => 0,
            AgentKind::Bracket => 1,
            AgentKind::Croissant => 2,
            AgentKind::Duplicator => 3,
            AgentKind::Eraser => 4,
            AgentKind::Lambda => 5,
            AgentKind::Root => 6,
        }
    }
}

/// Sorts two kinds by rank, the lower first.
pub fn order(a: AgentKind, b: AgentKind) -> (pair: (AgentKind, AgentKind))
    ensures
        pair == (if a.rank() <= b.rank() { (a, b) } else { (b, a) }),
{
    if a.position() <= b.position() {
        (a, b)
    } else {
        (b, a)
    }
}

/// An undirected connection between two agents, named by their ids. The id 0
/// stands for an end that has not been attached yet.
#[derive(Debug, Eq, Hash, Clone, Copy)]
pub struct Wire {
    pub source: usize,
    pub target: usize,
}

impl Wire {
    /// Two wires are the same connection when they join the same two agents,
    /// in either direction.
    pub open spec fn same_ends(self, other: Wire) -> bool {
        (self.source == other.source && self.target == other.target) || (self.source
            == other.target && self.target == other.source)
    }

    /// The wire with `id` put at its first free end: the target if that is
    /// still unattached, the source otherwise.
    pub open spec fn filled(self, id: usize) -> Wire {
        if self.target == 0 {
            Wire { source: self.source, target: id }
        } else {
            Wire { source: id, target: self.target }
        }
    }

    /// The wire with its two ends exchanged.
    pub open spec fn swapped(self) -> Wire {
        Wire { source: self.target, target: self.source }
    }

    /// The end of the wire that lies opposite `agent_id`: the target seen
    /// from the source, the source seen from anywhere else.
    pub open spec fn far_end(self, agent_id: usize) -> usize {
        if agent_id == self.source {
            self.target
        } else {
            self.source
        }
    }

    /// The wire with the end that `old_id` holds handed to `new_id`: the
    /// source if `old_id` is the source, the target otherwise.
    pub open spec fn moved(self, old_id: usize, new_id: usize) -> Wire {
        if self.source == old_id {
            Wire { source: new_id, target: self.target }
        } else {
            Wire { source: self.source, target: new_id }
        }
    }

    /// A wire from `source` to `target`.
    pub fn new(source: usize, target: usize) -> (wire: Wire)
        ensures
            wire == (Wire { source, target }),
    {
        Wire { source, target }
    }

    /// Attaches `id` to the first free end of the wire.
    pub fn fill(&mut self, id: usize)
        ensures
            *final(self) == old(self).filled(id),
    {
        if self.target == 0 {
            self.target = id;
        } else {
            self.source = id;
        }
    }

    /// Exchanges the two ends of the wire.
    pub fn swap(&mut self)
        ensures
            *final(self) == old(self).swapped(),
    {
        let temp: usize = self.source;
        self.source = self.target;
        self.target = temp;
    }
}

impl PartialEq for Wire {
    fn eq(&self, other: &Wire) -> (equal: bool) {
        let (s1, t1) = (self.source, self.target);
        let (s2, t2) = (other.source, other.target);
        (s1 == s2 && t1 == t2) || (s1 == t2 && t1 == s2)
    }
}

impl PartialEqSpecImpl for Wire {
    open spec fn obeys_eq_spec() -> bool {
        true
    }

    open spec fn eq_spec(&self, other: &Wire) -> bool {
        self.same_ends(*other)
    }
}

/// A node of the net: its kind, its level, and the wire at each of its
/// ports. Port 0 is the principal port, port 1 the first port and port 2 the
/// second port; a port that the kind does not have, or that is not attached
/// yet, holds 0.
#[derive(Debug, Clone, Copy, PartialEq, Eq)]
pub struct Agent {
    pub kind: AgentKind,
    pub level: isize,
    pub principal: usize,
    pub first: usize,
    pub second: usize,
}

impl Agent {
    /// The wire at port `i`.
    pub open spec fn port(self, i: int) -> usize {
        if i == 0 {
            self.principal
        } else if i == 1 {
            self.first
        } else {
            self.second
        }
    }

    /// The agent with `wire` at port `i`.
    pub open spec fn with_port(self, i: int, wire: usize) -> Agent {
        if i == 0 {
            Agent { principal: wire, ..self }
        } else if i == 1 {
            Agent { first: wire, ..self }
        } else {
            Agent { second: wire, ..self }
        }
    }

    /// The agent with its first `count` ports taken from `wires`.
    pub open spec fn with_ports(self, wires: Seq<usize>, count: nat) -> Agent
        decreases count,
    {
        if count == 0 {
            self
        } else {
            self.with_ports(wires, (count - 1) as nat).with_port(
                count - 1,
                wires[count - 1],
            )
        }
    }

    /// The agent with every port that its kind has taken from `wires`.
    pub open spec fn updated(self, wires: Seq<usize>) -> Agent {
        self.with_ports(wires, self.kind.arity())
    }

    /// A new agent of the given kind and level with the ports in `wires`.
    pub open spec fn made(kind: AgentKind, level: isize, wires: Seq<usize>) -> Agent {
        (Agent { kind, level, principal: 0, first: 0, second: 0 }).updated(wires)
    }

    /// The highest port below `count` that holds `wire`; port 0 where none does.
    pub open spec fn port_below(self, wire: usize, count: nat) -> nat
        decreases count,
    {
        if count == 0 {
            0
        } else if self.port(count - 1) == wire {
            (count - 1) as nat
        } else {
            self.port_below(wire, (count - 1) as nat)
        }
    }

    /// The highest port of the agent, among those its kind has, that holds
    /// `wire`; port 0 where none does.
    pub open spec fn port_holding(self, wire: usize) -> nat {
        if self.kind.arity() >= 3 && self.second == wire {
            2
        } else if self.kind.arity() >= 2 && self.first == wire {
            1
        } else {
            0
        }
    }

    /// The number of ports of the agent, among those its kind has, that
    /// hold `wire`.
    pub open spec fn slots(self, wire: usize) -> nat {
        let zero: nat = if self.principal == wire {
            1
        } else {
            0
        };
        let one: nat = if self.kind.arity() >= 2 && self.first == wire {
            1
        } else {
            0
        };
        let two: nat = if self.kind.arity() >= 3 && self.second == wire {
            1
        } else {
            0
        };
        zero + one + two
    }

    /// The agent with the highest port that holds `wire` emptied.
    pub open spec fn released(self, wire: usize) -> Agent {
        self.with_port(self.port_holding(wire) as int, 0)
    }

    /// Whether none of the ports that the kind has holds a wire.
    pub open spec fn idle(self) -> bool {
        &&& self.principal == 0
        &&& self.kind.arity() >= 2 ==> self.first == 0
        &&& self.kind.arity() >= 3 ==> self.second == 0
    }

    /// Emptying the highest port that holds a wire takes one from the count
    /// of the ports that hold it, and leaves the count for every other wire.
    pub proof fn lemma_released_slots(self, wire: usize, other: usize)
        requires
            wire != 0,
            other != 0,
        ensures
            self.slots(wire) >= 1 ==> self.released(wire).slots(wire) == self.slots(wire) - 1,
            self.slots(wire) >= 1 && other != wire ==> self.released(wire).slots(other)
                == self.slots(other),
            self.released(wire).kind == self.kind,
            self.released(wire).level == self.level,
    {
    }

    /// Putting a wire at a port changes the count of ports for the wire that
    /// was there and for the wire that is there now, and for no other.
    pub proof fn lemma_with_port_slots(self, i: int, wire: usize, other: usize)
        requires
            0 <= i < self.kind.arity(),
        ensures
            other != wire && other != self.port(i) ==> self.with_port(i, wire).slots(other)
                == self.slots(other),
            self.port(i) != wire ==> self.with_port(i, wire).slots(wire) == self.slots(wire) + 1,
            self.with_port(i, wire).kind == self.kind,
    {
    }

    /// Putting a new wire where the agent held an old one moves one port
    /// from the count of the old wire to the count of the new, and changes
    /// nothing for any other wire.
    pub proof fn lemma_retargeted(self, old_wire: usize, new_wire: usize, other: usize)
        requires
            self.slots(old_wire) >= 1,
            old_wire != new_wire,
            other != old_wire,
            other != new_wire,
        ensures
            ({
                let after = self.with_port(self.port_holding(old_wire) as int, new_wire);
                &&& after.kind == self.kind
                &&& after.level == self.level
                &&& after.slots(old_wire) == self.slots(old_wire) - 1
                &&& after.slots(new_wire) == self.slots(new_wire) + 1
                &&& after.slots(other) == self.slots(other)
                &&& after.port_holding(other) == self.port_holding(other)
                &&& after.principal == self.principal || after.principal == new_wire
                &&& after.first == self.first || after.first == new_wire
                &&& after.second == self.second || after.second == new_wire
            }),
    {
    }

    /// The search for a wire from the highest port down finds the highest
    /// port that holds it.
    pub proof fn lemma_port_below(self, wire: usize)
        ensures
            self.port_below(wire, self.kind.arity()) == self.port_holding(wire),
    {
        reveal_with_fuel(Agent::port_below, 4);
    }

    /// Builds an agent whose ports are the first entries of `wires`.
    pub fn new(kind: AgentKind, level: isize, wires: Vec<usize>) -> (agent: Agent)
        requires
            wires.len() >= kind.arity(),
        ensures
            agent == Agent::made(kind, level, wires@),
    {
        let mut agent = Agent { kind, level, principal: 0, first: 0, second: 0 };
        agent.update(wires);
        agent
    }

    /// The number of ports of the agent.
    pub fn len(&self) -> (count: usize)
        ensures
            count == self.kind.arity(),
    {
        match self.kind {
            AgentKind::Application | AgentKind::Lambda | AgentKind::Duplicator => 3,
            AgentKind::Eraser | AgentKind::Root => 1,
            _ => 2,
        }
    }

    /// Reads the wire at port `i`.
    pub fn get(&self, i: usize) -> (wire: usize)
        requires
            i < 3,
        ensures
            wire == self.port(i as int),
    {
        if i == 0 {
            self.principal
        } else if i == 1 {
            self.first
        } else {
            self.second
        }
    }

    /// Puts `wire` at port `i`.
    pub fn set(&mut self, i: usize, wire: usize)
        requires
            i < 3,
        ensures
            *final(self) == old(self).with_port(i as int, wire),
    {
        if i == 0 {
            self.principal = wire;
        } else if i == 1 {
            self.first = wire;
        } else {
            self.second = wire;
        }
    }

    /// Replaces the wires at all ports of the agent by the first entries of `wires`.
    pub fn update(&mut self, wires: Vec<usize>)
        requires
            wires.len() >= old(self).kind.arity(),
        ensures
            *final(self) == old(self).updated(wires@),
    {
        let count: usize = self.len();
        let mut i: usize = 0;
        while i < count
            invariant
                i <= count,
                count == old(self).kind.arity(),
                count <= wires.len(),
                *self == old(self).with_ports(wires@, i as nat),
            decreases count - i,
        {
            self.set(i, wires[i]);
            i = i + 1;
        }
    }

    /// Finds the port at which the agent holds `wire`: the highest such
    /// port, or port 0 if there is none.
    pub fn port_of(&self, wire: usize) -> (port: usize)
        ensures
            port == self.port_holding(wire),
            port < self.kind.arity(),
    {
        let count: usize = self.len();
        let mut result: usize = 0;
        let mut i: usize = 0;
        while i < count
            invariant
                i <= count,
                count == self.kind.arity(),
                result == self.port_below(wire, i as nat),
                result < count,
            decreases count - i,
        {
            if self.get(i) == wire {
                result = i;
            }
            i = i + 1;
        }
        proof {
            self.lemma_port_below(wire);
        }
        result
    }
}

} // verus!
