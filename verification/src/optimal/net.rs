//! The net itself: two tables, one of agents and one of wires, each keyed by
//! ids that a counter hands out.

use vstd::prelude::*;
use std::collections::HashMap;
use crate::optimal::agent::{Agent, Wire};

verus! {

broadcast use vstd::std_specs::hash::group_hash_axioms;

/// An interaction net. Ids start at 1, since a port or a wire's end that
/// holds 0 is unattached.
#[derive(Debug)]
pub struct Net {
    /// The id that the next new agent gets.
    pub agent_id: usize,
    /// The id that the next new wire gets.
    pub wire_id: usize,
    pub agents: HashMap<usize, Agent>,
    pub wires: HashMap<usize, Wire>,
}

/// What a net holds, as mathematical maps.
#[verifier::ext_equal]
pub struct NetView {
    pub agent_id: usize,
    pub wire_id: usize,
    pub agents: Map<usize, Agent>,
    pub wires: Map<usize, Wire>,
}

impl View for Net {
    type V = NetView;

    open spec fn view(&self) -> NetView {
        NetView {
            agent_id: self.agent_id,
            wire_id: self.wire_id,
            agents: self.agents@,
            wires: self.wires@,
        }
    }
}

impl NetView {
    /// The net with no agent and no wire.
    pub open spec fn empty() -> NetView {
        NetView { agent_id: 1, wire_id: 1, agents: Map::empty(), wires: Map::empty() }
    }

    /// The agent with the given id, if the net has one.
    pub open spec fn agent(self, id: usize) -> Option<Agent> {
        if self.agents.contains_key(id) {
            Some(self.agents[id])
        } else {
            None
        }
    }

    /// The wire with the given id, if the net has one.
    pub open spec fn wire(self, id: usize) -> Option<Wire> {
        if self.wires.contains_key(id) {
            Some(self.wires[id])
        } else {
            None
        }
    }

    /// Every id in use lies below the counter that hands ids out, so that a
    /// new id is never one in use.
    pub open spec fn fresh(self) -> bool {
        &&& forall|id: usize| self.agents.contains_key(id) ==> id < self.agent_id
        &&& forall|id: usize| self.wires.contains_key(id) ==> id < self.wire_id
    }

    /// Whether the next `count` agent ids exist and are unused.
    pub open spec fn agents_free(self, count: nat) -> bool {
        &&& self.agent_id + count <= usize::MAX
        &&& forall|id: usize|
            self.agent_id <= id < self.agent_id + count ==> !self.agents.contains_key(id)
    }

    /// Whether the next `count` wire ids exist and are unused.
    pub open spec fn wires_free(self, count: nat) -> bool {
        &&& self.wire_id + count <= usize::MAX
        &&& forall|id: usize|
            self.wire_id <= id < self.wire_id + count ==> !self.wires.contains_key(id)
    }

    /// The net with `agent` added under the next agent id.
    pub open spec fn with_agent(self, agent: Agent) -> NetView {
        NetView {
            agent_id: (self.agent_id + 1) as usize,
            agents: self.agents.insert(self.agent_id, agent),
            ..self
        }
    }

    /// The net with `wire` added under the next wire id.
    pub open spec fn with_wire(self, wire: Wire) -> NetView {
        NetView {
            wire_id: (self.wire_id + 1) as usize,
            wires: self.wires.insert(self.wire_id, wire),
            ..self
        }
    }

    /// The net with `agent` stored under `id`, in place of any agent there.
    pub open spec fn put_agent(self, id: usize, agent: Agent) -> NetView {
        NetView { agents: self.agents.insert(id, agent), ..self }
    }

    /// The net with `wire` stored under `id`, in place of any wire there.
    pub open spec fn put_wire(self, id: usize, wire: Wire) -> NetView {
        NetView { wires: self.wires.insert(id, wire), ..self }
    }

    /// The net without the agent `id`.
    pub open spec fn drop_agent(self, id: usize) -> NetView {
        NetView { agents: self.agents.remove(id), ..self }
    }

    /// The net without the wire `id`.
    pub open spec fn drop_wire(self, id: usize) -> NetView {
        NetView { wires: self.wires.remove(id), ..self }
    }

    /// The net in which the agent `id` holds `wire` at its port `port`.
    pub open spec fn with_port(self, id: usize, port: int, wire: usize) -> NetView {
        self.put_agent(id, self.agents[id].with_port(port, wire))
    }

    /// The net in which the wire `id` starts at `agent`.
    pub open spec fn with_source(self, id: usize, agent: usize) -> NetView {
        self.put_wire(id, Wire { source: agent, target: self.wires[id].target })
    }

    /// The net in which the wire `id` ends at `agent`.
    pub open spec fn with_target(self, id: usize, agent: usize) -> NetView {
        self.put_wire(id, Wire { source: self.wires[id].source, target: agent })
    }

    /// The net in which the first free end of the wire `id` holds `agent`.
    pub open spec fn filled(self, id: usize, agent: usize) -> NetView {
        self.put_wire(id, self.wires[id].filled(agent))
    }

    /// The agent at the other end of the wire `wire_id`, seen from `agent_id`.
    pub open spec fn partner(self, agent_id: usize, wire_id: usize) -> usize {
        self.wires[wire_id].far_end(agent_id)
    }

    /// Whether the wire and the agent that `replaced` works on are there.
    pub open spec fn can_replace(self, port: int, wire_id: usize, new_id: usize) -> bool {
        &&& 0 <= port < 3
        &&& self.wires.contains_key(wire_id)
        &&& self.agents.contains_key(new_id)
    }

    /// The net in which the wire `wire_id` ends at `new_id`, on its port
    /// `port`, where it ended at `old_id` before.
    pub open spec fn replaced(self, port: int, wire_id: usize, old_id: usize, new_id: usize)
        -> NetView {
        NetView {
            wires: self.wires.insert(wire_id, self.wires[wire_id].moved(old_id, new_id)),
            agents: self.agents.insert(new_id, self.agents[new_id].with_port(port, wire_id)),
            ..self
        }
    }

    /// Whether `connected` finds what it works on: two different wires, the
    /// agents at their far ends, and an unused id for the wire that joins them.
    pub open spec fn can_connect(
        self,
        dangling1_id: usize,
        wire1_id: usize,
        dangling2_id: usize,
        wire2_id: usize,
    ) -> bool {
        &&& self.wires.contains_key(wire1_id)
        &&& self.wires.contains_key(wire2_id)
        &&& wire1_id != wire2_id
        &&& self.agents.contains_key(self.partner(dangling1_id, wire1_id))
        &&& self.agents.contains_key(self.partner(dangling2_id, wire2_id))
        &&& self.wires_free(1)
    }

    /// The net in which one new wire stands for the two wires given: it
    /// joins the agent that `wire1_id` led to from `dangling1_id` with the
    /// agent that `wire2_id` led to from `dangling2_id`, at the ports where
    /// those agents held the old wires.
    pub open spec fn connected(
        self,
        dangling1_id: usize,
        wire1_id: usize,
        dangling2_id: usize,
        wire2_id: usize,
    ) -> NetView {
        let agent1_id = self.partner(dangling1_id, wire1_id);
        let agent2_id = self.partner(dangling2_id, wire2_id);
        let port1 = self.agents[agent1_id].port_holding(wire1_id);
        let port2 = self.agents[agent2_id].port_holding(wire2_id);
        let id = self.wire_id;
        let agents = self.agents.insert(
            agent1_id,
            self.agents[agent1_id].with_port(port1 as int, id),
        );
        NetView {
            agent_id: self.agent_id,
            wire_id: (id + 1) as usize,
            agents: agents.insert(agent2_id, agents[agent2_id].with_port(port2 as int, id)),
            wires: self.wires.remove(wire1_id).remove(wire2_id).insert(
                id,
                Wire { source: agent1_id, target: agent2_id },
            ),
        }
    }
}

impl Net {
    /// A net with no agent and no wire.
    pub fn new() -> (net: Net)
        ensures
            net@ == NetView::empty(),
    {
        Net { agent_id: 1, wire_id: 1, agents: HashMap::new(), wires: HashMap::new() }
    }

    /// Looks up an agent.
    pub fn agent(&self, id: usize) -> (found: Option<Agent>)
        ensures
            found == self@.agent(id),
    {
        match self.agents.get(&id) {
            Some(agent) => Some(*agent),
            None => None,
        }
    }

    /// Looks up a wire.
    pub fn wire(&self, id: usize) -> (found: Option<Wire>)
        ensures
            found == self@.wire(id),
    {
        match self.wires.get(&id) {
            Some(wire) => Some(*wire),
            None => None,
        }
    }

    /// Tells whether the next `count` agent ids can be handed out.
    pub fn agents_free(&self, count: usize) -> (free: bool)
        ensures
            free == self@.agents_free(count as nat),
    {
        if count > usize::MAX - self.agent_id {
            return false;
        }
        let mut i: usize = 0;
        while i < count
            invariant
                i <= count,
                self.agent_id + count <= usize::MAX,
                forall|id: usize|
                    self.agent_id <= id < self.agent_id + i ==> !self@.agents.contains_key(id),
            decreases count - i,
        {
            if self.agents.contains_key(&(self.agent_id + i)) {
                assert(self@.agents.contains_key((self.agent_id + i) as usize));
                return false;
            }
            i = i + 1;
        }
        true
    }

    /// Tells whether the next `count` wire ids can be handed out.
    pub fn wires_free(&self, count: usize) -> (free: bool)
        ensures
            free == self@.wires_free(count as nat),
    {
        if count > usize::MAX - self.wire_id {
            return false;
        }
        let mut i: usize = 0;
        while i < count
            invariant
                i <= count,
                self.wire_id + count <= usize::MAX,
                forall|id: usize|
                    self.wire_id <= id < self.wire_id + i ==> !self@.wires.contains_key(id),
            decreases count - i,
        {
            if self.wires.contains_key(&(self.wire_id + i)) {
                assert(self@.wires.contains_key((self.wire_id + i) as usize));
                return false;
            }
            i = i + 1;
        }
        true
    }

    /// Adds an agent and returns its id.
    pub fn add_agent(&mut self, agent: Agent) -> (id: usize)
        requires
            old(self).agent_id < usize::MAX,
        ensures
            id == old(self).agent_id,
            final(self)@ == old(self)@.with_agent(agent),
    {
        self.agents.insert(self.agent_id, agent);
        self.agent_id = self.agent_id + 1;
        self.agent_id - 1
    }

    /// Adds a wire and returns its id.
    pub fn add_wire(&mut self, wire: Wire) -> (id: usize)
        requires
            old(self).wire_id < usize::MAX,
        ensures
            id == old(self).wire_id,
            final(self)@ == old(self)@.with_wire(wire),
    {
        self.wires.insert(self.wire_id, wire);
        self.wire_id = self.wire_id + 1;
        self.wire_id - 1
    }

    /// Stores an agent under an id of the caller's choice.
    pub fn put_agent(&mut self, id: usize, agent: Agent)
        ensures
            final(self)@ == old(self)@.put_agent(id, agent),
    {
        self.agents.insert(id, agent);
    }

    /// Stores a wire under an id of the caller's choice.
    pub fn put_wire(&mut self, id: usize, wire: Wire)
        ensures
            final(self)@ == old(self)@.put_wire(id, wire),
    {
        self.wires.insert(id, wire);
    }

    /// Removes an agent, if it is there.
    pub fn drop_agent(&mut self, id: usize)
        ensures
            final(self)@ == old(self)@.drop_agent(id),
    {
        self.agents.remove(&id);
    }

    /// Removes a wire, if it is there.
    pub fn drop_wire(&mut self, id: usize)
        ensures
            final(self)@ == old(self)@.drop_wire(id),
    {
        self.wires.remove(&id);
    }

    /// Puts a wire at a port of an agent.
    pub fn set_port(&mut self, id: usize, port: usize, wire: usize)
        requires
            old(self)@.agents.contains_key(id),
            port < 3,
        ensures
            final(self)@ == old(self)@.with_port(id, port as int, wire),
    {
        let mut agent: Agent = *self.agents.get(&id).unwrap();
        agent.set(port, wire);
        self.agents.insert(id, agent);
    }

    /// Makes a wire start at an agent.
    pub fn set_source(&mut self, id: usize, agent: usize)
        requires
            old(self)@.wires.contains_key(id),
        ensures
            final(self)@ == old(self)@.with_source(id, agent),
    {
        let mut wire: Wire = *self.wires.get(&id).unwrap();
        wire.source = agent;
        self.wires.insert(id, wire);
    }

    /// Makes a wire end at an agent.
    pub fn set_target(&mut self, id: usize, agent: usize)
        requires
            old(self)@.wires.contains_key(id),
        ensures
            final(self)@ == old(self)@.with_target(id, agent),
    {
        let mut wire: Wire = *self.wires.get(&id).unwrap();
        wire.target = agent;
        self.wires.insert(id, wire);
    }

    /// Attaches an agent to the first free end of a wire.
    pub fn fill_wire(&mut self, id: usize, agent: usize)
        requires
            old(self)@.wires.contains_key(id),
        ensures
            final(self)@ == old(self)@.filled(id, agent),
    {
        let mut wire: Wire = *self.wires.get(&id).unwrap();
        wire.fill(agent);
        self.wires.insert(id, wire);
    }

    /// The agent at the other end of a wire.
    pub fn partner(&self, agent_id: usize, wire_id: usize) -> (other: usize)
        requires
            self@.wires.contains_key(wire_id),
        ensures
            other == self@.partner(agent_id, wire_id),
    {
        let wire = self.wires.get(&wire_id).unwrap();
        if agent_id == wire.source {
            wire.target
        } else {
            wire.source
        }
    }

    /// Hands the end of a wire from one agent to another and records the
    /// wire at a port of the new agent.
    pub fn replace(&mut self, port: usize, wire_id: usize, old_id: usize, new_id: usize)
        requires
            old(self)@.can_replace(port as int, wire_id, new_id),
        ensures
            final(self)@ == old(self)@.replaced(port as int, wire_id, old_id, new_id),
    {
        let mut wire: Wire = *self.wires.get(&wire_id).unwrap();
        let mut agent: Agent = *self.agents.get(&new_id).unwrap();
        if wire.source == old_id {
            wire.source = new_id;
        } else {
            wire.target = new_id;
        }
        agent.set(port, wire_id);
        self.wires.insert(wire_id, wire);
        self.agents.insert(new_id, agent);
    }

    /// Splices two wires into one: the agents that they led to, away from
    /// the two dangling ends, are joined directly.
    pub fn connect(
        &mut self,
        dangling1_id: usize,
        wire1_id: usize,
        dangling2_id: usize,
        wire2_id: usize,
    )
        requires
            old(self)@.can_connect(dangling1_id, wire1_id, dangling2_id, wire2_id),
        ensures
            final(self)@ == old(self)@.connected(dangling1_id, wire1_id, dangling2_id, wire2_id),
    {
        let wire1: Wire = *self.wires.get(&wire1_id).unwrap();
        let wire2: Wire = *self.wires.get(&wire2_id).unwrap();
        self.wires.remove(&wire1_id);
        self.wires.remove(&wire2_id);
        let agent1_id: usize = if wire1.source == dangling1_id {
            wire1.target
        } else {
            wire1.source
        };
        let agent2_id: usize = if wire2.source == dangling2_id {
            wire2.target
        } else {
            wire2.source
        };
        let port1: usize = self.agents.get(&agent1_id).unwrap().port_of(wire1_id);
        let port2: usize = self.agents.get(&agent2_id).unwrap().port_of(wire2_id);
        let id: usize = self.add_wire(Wire::new(agent1_id, agent2_id));
        let mut agent1: Agent = *self.agents.get(&agent1_id).unwrap();
        agent1.set(port1, id);
        self.agents.insert(agent1_id, agent1);
        let mut agent2: Agent = *self.agents.get(&agent2_id).unwrap();
        agent2.set(port2, id);
        self.agents.insert(agent2_id, agent2);
    }
}

} // verus!
