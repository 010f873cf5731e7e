//! What makes a net well formed: every port in use is attached to a wire
//! that ends at its agent, and every wire joins exactly two ports.

use vstd::prelude::*;
use crate::optimal::agent::{Agent, AgentKind, Wire};
use crate::optimal::net::NetView;
use crate::optimal::rewrite::{new_eraser, Pair, Rule};

verus! {

/// The agents taken out, with the highest port of the agent `id` that holds
/// `wire` emptied.
pub open spec fn loosed(gone: Map<usize, Agent>, id: usize, wire: usize) -> Map<usize, Agent> {
    gone.insert(id, gone[id].released(wire))
}

/// The ports of a new agent `id` of the given kind that hold nothing yet:
/// all but the principal port.
pub open spec fn spare(id: usize, kind: AgentKind) -> Set<(usize, int)> {
    Set::new(|slot: (usize, int)| slot.0 == id && 1 <= slot.1 < kind.arity())
}

/// The two agents of a pair as they are taken out: the wire between them is
/// gone from their principal ports.
pub open spec fn parted(pair: Pair) -> Map<usize, Agent> {
    Map::<usize, Agent>::empty().insert(pair.aid, Agent { principal: 0, ..pair.agent }).insert(
        pair.pid,
        Agent { principal: 0, ..pair.partner },
    )
}

impl NetView {
    /// Whether the wire `wire` exists and ends at the agent `id`.
    pub open spec fn attached(self, id: usize, wire: usize) -> bool {
        self.wires.contains_key(wire) && (self.wires[wire].source == id || self.wires[wire].target
            == id)
    }

    /// Whether each port of the agent `id` is attached to a wire.
    pub open spec fn agent_ok(self, id: usize) -> bool {
        let agent = self.agents[id];
        &&& self.attached(id, agent.principal)
        &&& agent.kind.arity() >= 2 ==> self.attached(id, agent.first)
        &&& agent.kind.arity() >= 3 ==> self.attached(id, agent.second)
    }

    /// Whether the wire `id` joins two ports: one port of each of the two
    /// agents at its ends, or two ports of the one agent at both ends.
    pub open spec fn wire_ok(self, id: usize) -> bool {
        let wire = self.wires[id];
        &&& self.agents.contains_key(wire.source)
        &&& self.agents.contains_key(wire.target)
        &&& if wire.source == wire.target {
            self.agents[wire.source].slots(id) == 2
        } else {
            self.agents[wire.source].slots(id) == 1 && self.agents[wire.target].slots(id) == 1
        }
    }

    /// Whether the net is well formed: no id is 0, every id in use lies
    /// below its counter, every port in use is attached to a wire that ends
    /// at its agent, and every wire joins exactly two ports.
    pub open spec fn wf(self) -> bool {
        &&& self.fresh()
        &&& self.agent_id > 0
        &&& self.wire_id > 0
        &&& !self.agents.contains_key(0)
        &&& !self.wires.contains_key(0)
        &&& forall|id: usize| self.agents.contains_key(id) ==> #[trigger] self.agent_ok(id)
        &&& forall|id: usize| self.wires.contains_key(id) ==> #[trigger] self.wire_ok(id)
    }

    /// Whether the agent `id` is in the net or among those taken out.
    pub open spec fn known(self, gone: Map<usize, Agent>, id: usize) -> bool {
        self.agents.contains_key(id) || gone.contains_key(id)
    }

    /// The agent `id`, from the net or from among those taken out.
    pub open spec fn record(self, gone: Map<usize, Agent>, id: usize) -> Agent {
        if self.agents.contains_key(id) {
            self.agents[id]
        } else {
            gone[id]
        }
    }

    /// Whether port `i` of the agent `id` may hold `wire`: the wire ends at
    /// the agent, or the port is empty and listed as free.
    pub open spec fn slot_sound(self, free: Set<(usize, int)>, id: usize, i: int, wire: usize)
        -> bool {
        self.attached(id, wire) || (wire == 0 && free.contains((id, i)))
    }

    /// Whether each port of the agent `id` is attached or free.
    pub open spec fn agent_sound(self, free: Set<(usize, int)>, id: usize) -> bool {
        let agent = self.agents[id];
        &&& self.slot_sound(free, id, 0, agent.principal)
        &&& agent.kind.arity() >= 2 ==> self.slot_sound(free, id, 1, agent.first)
        &&& agent.kind.arity() >= 3 ==> self.slot_sound(free, id, 2, agent.second)
    }

    /// Whether each port of the agent `id`, which was taken out, is empty or
    /// holds a wire that still ends at the agent.
    pub open spec fn gone_sound(self, gone: Map<usize, Agent>, id: usize) -> bool {
        let agent = gone[id];
        &&& agent.principal == 0 || self.attached(id, agent.principal)
        &&& agent.kind.arity() >= 2 ==> agent.first == 0 || self.attached(id, agent.first)
        &&& agent.kind.arity() >= 3 ==> agent.second == 0 || self.attached(id, agent.second)
    }

    /// Whether the wire `id` joins two ports of agents in the net or among
    /// those taken out.
    pub open spec fn wire_sound(self, gone: Map<usize, Agent>, id: usize) -> bool {
        let wire = self.wires[id];
        &&& self.known(gone, wire.source)
        &&& self.known(gone, wire.target)
        &&& if wire.source == wire.target {
            self.record(gone, wire.source).slots(id) == 2
        } else {
            self.record(gone, wire.source).slots(id) == 1 && self.record(gone, wire.target).slots(
                id,
            ) == 1
        }
    }

    /// Whether the net is well formed but for what a rewrite has under way:
    /// the agents in `gone` are taken out while wires may still end at them,
    /// and the ports in `free` are empty.
    pub open spec fn sound(self, gone: Map<usize, Agent>, free: Set<(usize, int)>) -> bool {
        &&& self.fresh()
        &&& self.agent_id > 0
        &&& self.wire_id > 0
        &&& !self.agents.contains_key(0)
        &&& !self.wires.contains_key(0)
        &&& forall|id: usize| #[trigger]
            gone.contains_key(id) ==> !self.agents.contains_key(id) && id != 0 && id
                < self.agent_id && self.gone_sound(gone, id)
        &&& forall|id: usize| self.agents.contains_key(id) ==> #[trigger] self.agent_sound(free, id)
        &&& forall|id: usize| self.wires.contains_key(id) ==> #[trigger] self.wire_sound(gone, id)
    }

    /// A well-formed net is sound with nothing under way.
    pub proof fn lemma_wf_is_sound(self)
        requires
            self.wf(),
        ensures
            self.sound(Map::empty(), Set::empty()),
    {
        assert forall|id: usize| self.agents.contains_key(id) implies #[trigger] self.agent_sound(
            Set::empty(),
            id,
        ) by {
            assert(self.agent_ok(id));
        }
        assert forall|id: usize| self.wires.contains_key(id) implies #[trigger] self.wire_sound(
            Map::empty(),
            id,
        ) by {
            assert(self.wire_ok(id));
        }
    }

    /// A net that is sound with no port free, and with no wire left at the
    /// agents taken out, is well formed.
    pub proof fn lemma_sound_is_wf(self, gone: Map<usize, Agent>)
        requires
            self.sound(gone, Set::empty()),
            forall|id: usize| gone.contains_key(id) ==> (#[trigger] gone[id]).idle(),
        ensures
            self.wf(),
    {
        assert forall|id: usize| self.agents.contains_key(id) implies #[trigger] self.agent_ok(
            id,
        ) by {
            assert(self.agent_sound(Set::empty(), id));
        }
        assert forall|id: usize| self.wires.contains_key(id) implies #[trigger] self.wire_ok(
            id,
        ) by {
            assert(self.wire_sound(gone, id));
            let wire = self.wires[id];
            if gone.contains_key(wire.source) {
                assert(gone[wire.source].idle());
            }
            if gone.contains_key(wire.target) {
                assert(gone[wire.target].idle());
            }
        }
    }

    /// Taking an agent out keeps the net sound.
    pub proof fn lemma_kill_sound(self, gone: Map<usize, Agent>, free: Set<(usize, int)>, id: usize)
        requires
            self.sound(gone, free),
            self.agents.contains_key(id),
            self.agents[id].principal != 0,
            self.agents[id].kind.arity() >= 2 ==> self.agents[id].first != 0,
            self.agents[id].kind.arity() >= 3 ==> self.agents[id].second != 0,
        ensures
            self.drop_agent(id).sound(gone.insert(id, self.agents[id]), free),
    {
        let after = self.drop_agent(id);
        let gone2 = gone.insert(id, self.agents[id]);
        assert(self.agent_sound(free, id));
        assert forall|x: usize| #[trigger] gone2.contains_key(x) implies !after.agents.contains_key(
            x,
        ) && x != 0 && x < after.agent_id && after.gone_sound(gone2, x) by {
            if x != id {
                assert(gone.contains_key(x));
                assert(self.gone_sound(gone, x));
            }
        }
        assert forall|x: usize| after.agents.contains_key(x) implies #[trigger] after.agent_sound(
            free,
            x,
        ) by {
            assert(self.agent_sound(free, x));
        }
        assert forall|w: usize| after.wires.contains_key(w) implies #[trigger] after.wire_sound(
            gone2,
            w,
        ) by {
            assert(self.wire_sound(gone, w));
        }
    }

    /// A wire whose two ends are at agents taken out can go.
    pub proof fn lemma_drop_sound(
        self,
        gone: Map<usize, Agent>,
        free: Set<(usize, int)>,
        wire: usize,
    )
        requires
            self.sound(gone, free),
            self.wires.contains_key(wire),
            gone.contains_key(self.wires[wire].source),
            gone.contains_key(self.wires[wire].target),
        ensures
            self.drop_wire(wire).sound(
                loosed(loosed(gone, self.wires[wire].source, wire), self.wires[wire].target, wire),
                free,
            ),
    {
        let s = self.wires[wire].source;
        let t = self.wires[wire].target;
        let after = self.drop_wire(wire);
        let gone1 = loosed(gone, s, wire);
        let gone2 = loosed(gone1, t, wire);
        assert(self.wire_sound(gone, wire));
        assert forall|x: usize| #[trigger] gone2.contains_key(x) implies !after.agents.contains_key(
            x,
        ) && x != 0 && x < after.agent_id && after.gone_sound(gone2, x) by {
            assert(gone.contains_key(x));
            assert(self.gone_sound(gone, x));
            gone[x].lemma_released_slots(wire, 1);
            gone1[x].lemma_released_slots(wire, 1);
        }
        assert forall|x: usize| after.agents.contains_key(x) implies #[trigger] after.agent_sound(
            free,
            x,
        ) by {
            assert(self.agent_sound(free, x));
        }
        assert forall|w: usize| after.wires.contains_key(w) implies #[trigger] after.wire_sound(
            gone2,
            w,
        ) by {
            assert(self.wire_sound(gone, w));
            gone[s].lemma_released_slots(wire, w);
            gone1[t].lemma_released_slots(wire, w);
            gone[t].lemma_released_slots(wire, w);
        }
    }

    /// An agent taken out, with no wire left at its ports, can be forgotten.
    pub proof fn lemma_forget_sound(
        self,
        gone: Map<usize, Agent>,
        free: Set<(usize, int)>,
        id: usize,
    )
        requires
            self.sound(gone, free),
            gone.contains_key(id),
            gone[id].idle(),
        ensures
            self.sound(gone.remove(id), free),
            !self.known(gone.remove(id), id),
    {
        let gone2 = gone.remove(id);
        assert forall|x: usize| #[trigger] gone2.contains_key(x) implies !self.agents.contains_key(
            x,
        ) && x != 0 && x < self.agent_id && self.gone_sound(gone2, x) by {
            assert(gone.contains_key(x));
            assert(self.gone_sound(gone, x));
        }
        assert forall|w: usize| self.wires.contains_key(w) implies #[trigger] self.wire_sound(
            gone2,
            w,
        ) by {
            assert(self.wire_sound(gone, w));
        }
    }

    /// A new agent that takes over the end of a wire from an agent taken out
    /// keeps the net sound; its other two ports are free.
    pub proof fn lemma_spawned_sound(
        self,
        gone: Map<usize, Agent>,
        free: Set<(usize, int)>,
        record: Agent,
        wire: usize,
        from: usize,
    )
        requires
            self.sound(gone, free),
            self.agent_id < usize::MAX,
            wire != 0,
            gone.contains_key(from),
            gone[from].slots(wire) >= 1,
            record.first == 0,
            record.second == 0,
        ensures
            self.wires.contains_key(wire),
            self.spawned(record, wire, from).sound(
                loosed(gone, from, wire),
                free + spare(self.agent_id, record.kind),
            ),
    {
        let n = self.agent_id;
        let after = self.spawned(record, wire, from);
        let gone2 = loosed(gone, from, wire);
        let free2 = free + spare(n, record.kind);
        assert(self.gone_sound(gone, from));
        assert(self.attached(from, wire));
        self.lemma_spawned_fresh(record, wire, from);
        assert(self.wire_sound(gone, wire));
        assert(!self.known(gone, n));
        assert forall|x: usize| #[trigger] gone2.contains_key(x) implies !after.agents.contains_key(
            x,
        ) && x != 0 && x < after.agent_id && after.gone_sound(gone2, x) by {
            assert(gone.contains_key(x));
            assert(self.gone_sound(gone, x));
            gone[x].lemma_released_slots(wire, 1);
        }
        assert forall|x: usize| after.agents.contains_key(x) implies #[trigger] after.agent_sound(
            free2,
            x,
        ) by {
            if x != n {
                assert(self.agent_sound(free, x));
            }
        }
        assert forall|w: usize| after.wires.contains_key(w) implies #[trigger] after.wire_sound(
            gone2,
            w,
        ) by {
            assert(self.wire_sound(gone, w));
            gone[from].lemma_released_slots(wire, w);
        }
    }

    /// An agent put back under its id, where it takes over the end of a wire
    /// from an agent taken out, keeps the net sound; its other two ports
    /// are free.
    pub proof fn lemma_revived_sound(
        self,
        gone: Map<usize, Agent>,
        free: Set<(usize, int)>,
        id: usize,
        record: Agent,
        wire: usize,
        from: usize,
    )
        requires
            self.sound(gone, free),
            !self.known(gone, id),
            id != 0,
            id < self.agent_id,
            wire != 0,
            gone.contains_key(from),
            gone[from].slots(wire) >= 1,
            record.first == 0,
            record.second == 0,
        ensures
            self.wires.contains_key(wire),
            self.revived(id, record, wire, from).sound(
                loosed(gone, from, wire),
                free + spare(id, record.kind),
            ),
    {
        let after = self.revived(id, record, wire, from);
        let gone2 = loosed(gone, from, wire);
        let free2 = free + spare(id, record.kind);
        assert(self.gone_sound(gone, from));
        assert(self.attached(from, wire));
        self.lemma_revived_fresh(id, record, wire, from);
        assert(self.wire_sound(gone, wire));
        assert forall|x: usize| #[trigger] gone2.contains_key(x) implies !after.agents.contains_key(
            x,
        ) && x != 0 && x < after.agent_id && after.gone_sound(gone2, x) by {
            assert(gone.contains_key(x));
            assert(self.gone_sound(gone, x));
            gone[x].lemma_released_slots(wire, 1);
        }
        assert forall|x: usize| after.agents.contains_key(x) implies #[trigger] after.agent_sound(
            free2,
            x,
        ) by {
            if x != id {
                assert(self.agent_sound(free, x));
            }
        }
        assert forall|w: usize| after.wires.contains_key(w) implies #[trigger] after.wire_sound(
            gone2,
            w,
        ) by {
            assert(self.wire_sound(gone, w));
            gone[from].lemma_released_slots(wire, w);
        }
    }

    /// A new wire between two free ports keeps the net sound.
    pub proof fn lemma_linked_sound(
        self,
        gone: Map<usize, Agent>,
        free: Set<(usize, int)>,
        x: usize,
        i: int,
        y: usize,
        j: int,
    )
        requires
            self.sound(gone, free),
            self.wire_id < usize::MAX,
            self.agents.contains_key(x),
            self.agents.contains_key(y),
            0 <= i < self.agents[x].kind.arity(),
            0 <= j < self.agents[y].kind.arity(),
            self.agents[x].port(i) == 0,
            self.agents[y].port(j) == 0,
            x != y || i != j,
        ensures
            self.linked(x, i, y, j).sound(gone, free.remove((x, i)).remove((y, j))),
    {
        let after = self.linked(x, i, y, j);
        let free2 = free.remove((x, i)).remove((y, j));
        let id = self.wire_id;
        self.lemma_linked_fresh(x, i, y, j);
        assert forall|a: usize| #[trigger] gone.contains_key(a) implies !after.agents.contains_key(
            a,
        ) && a != 0 && a < after.agent_id && after.gone_sound(gone, a) by {
            assert(self.gone_sound(gone, a));
        }
        assert forall|a: usize| after.agents.contains_key(a) implies #[trigger] after.agent_sound(
            free2,
            a,
        ) by {
            assert(self.agent_sound(free, a));
        }
        assert(self.agent_sound(free, x));
        assert(self.agent_sound(free, y));
        let first = self.agents[x].with_port(i, id);
        let agents1 = self.agents.insert(x, first);
        let second = agents1[y].with_port(j, id);
        assert(after.agents == agents1.insert(y, second));
        assert(after.wires == self.wires.insert(id, Wire { source: x, target: y }));
        assert(self.agents[x].slots(id) == 0);
        assert(self.agents[y].slots(id) == 0);
        assert forall|w: usize| after.wires.contains_key(w) implies #[trigger] after.wire_sound(
            gone,
            w,
        ) by {
            self.agents[x].lemma_with_port_slots(i, id, w);
            agents1[y].lemma_with_port_slots(j, id, w);
            if w != id {
                assert(self.wire_sound(gone, w));
            }
        }
    }

    /// What splicing two wires does to the agents: the two agents at the far
    /// ends hold the new wire where they held the old ones.
    #[verifier::rlimit(60)]
    pub proof fn lemma_connected_agents(
        self,
        gone: Map<usize, Agent>,
        free: Set<(usize, int)>,
        end1: usize,
        wire1: usize,
        end2: usize,
        wire2: usize,
    )
        requires
            self.sound(gone, free),
            self.can_connect(end1, wire1, end2, wire2),
            gone.contains_key(end1),
            gone.contains_key(end2),
            self.wires[wire1].source == end1 || self.wires[wire1].target == end1,
            self.wires[wire2].source == end2 || self.wires[wire2].target == end2,
        ensures
            ({
                let after = self.connected(end1, wire1, end2, wire2);
                let f = self.partner(end1, wire1);
                let g = self.partner(end2, wire2);
                let id = self.wire_id;
                &&& after.wires == self.wires.remove(wire1).remove(wire2).insert(
                    id,
                    Wire { source: f, target: g },
                )
                &&& after.agents.dom() == self.agents.dom()
                &&& forall|x: usize| #[trigger]
                    self.agents.contains_key(x) ==> {
                        let was = self.agents[x];
                        let now = after.agents[x];
                        &&& now.kind == was.kind
                        &&& now.level == was.level
                        &&& was.slots(id) == 0
                        &&& now.slots(wire1) == 0
                        &&& now.slots(wire2) == 0
                        &&& now.slots(id) == (if x == f {
                            1int
                        } else {
                            0int
                        }) + (if x == g {
                            1int
                        } else {
                            0int
                        })
                        &&& now.principal == was.principal || (now.principal == id && (was.principal
                            == wire1 || was.principal == wire2))
                        &&& now.first == was.first || (now.first == id && (was.first == wire1
                            || was.first == wire2))
                        &&& now.second == was.second || (now.second == id && (was.second == wire1
                            || was.second == wire2))
                    }
            }),
    {
        let after = self.connected(end1, wire1, end2, wire2);
        let f = self.partner(end1, wire1);
        let g = self.partner(end2, wire2);
        let id = self.wire_id;
        assert(self.wire_sound(gone, wire1));
        assert(self.wire_sound(gone, wire2));
        let first = self.agents[f].with_port(self.agents[f].port_holding(wire1) as int, id);
        let agents1 = self.agents.insert(f, first);
        let second = agents1[g].with_port(self.agents[g].port_holding(wire2) as int, id);
        assert(after.agents == agents1.insert(g, second));
        assert(after.agents.dom() =~= self.agents.dom());
        assert forall|x: usize| #[trigger] self.agents.contains_key(x) implies {
            let was = self.agents[x];
            let now = after.agents[x];
            &&& now.kind == was.kind
            &&& now.level == was.level
            &&& was.slots(id) == 0
            &&& now.slots(wire1) == 0
            &&& now.slots(wire2) == 0
            &&& now.slots(id) == (if x == f {
                1int
            } else {
                0int
            }) + (if x == g {
                1int
            } else {
                0int
            })
            &&& now.principal == was.principal || (now.principal == id && (was.principal == wire1
                || was.principal == wire2))
            &&& now.first == was.first || (now.first == id && (was.first == wire1 || was.first
                == wire2))
            &&& now.second == was.second || (now.second == id && (was.second == wire1
                || was.second == wire2))
        } by {
            assert(self.agent_sound(free, x));
            let was = self.agents[x];
            assert(was.slots(id) == 0);
            if was.slots(wire1) > 0 {
                assert(self.attached(x, wire1));
                assert(x == f);
            }
            if was.slots(wire2) > 0 {
                assert(self.attached(x, wire2));
                assert(x == g);
            }
        }
    }

    /// After two wires are spliced, an agent taken out is still sound.
    pub proof fn lemma_connected_gone_at(
        self,
        gone: Map<usize, Agent>,
        free: Set<(usize, int)>,
        end1: usize,
        wire1: usize,
        end2: usize,
        wire2: usize,
        x: usize,
    )
        requires
            self.sound(gone, free),
            self.can_connect(end1, wire1, end2, wire2),
            gone.contains_key(end1),
            gone.contains_key(end2),
            self.wires[wire1].source == end1 || self.wires[wire1].target == end1,
            self.wires[wire2].source == end2 || self.wires[wire2].target == end2,
            loosed(loosed(gone, end1, wire1), end2, wire2).contains_key(x),
        ensures
            gone.contains_key(x),
            self.connected(end1, wire1, end2, wire2).gone_sound(
                loosed(loosed(gone, end1, wire1), end2, wire2),
                x,
            ),
    {
        let gone1 = loosed(gone, end1, wire1);
        assert(gone.contains_key(x));
        assert(self.gone_sound(gone, x));
        assert(self.wire_sound(gone, wire1));
        assert(self.wire_sound(gone, wire2));
        gone[x].lemma_released_slots(wire1, wire2);
        gone[x].lemma_released_slots(wire2, wire1);
        gone1[x].lemma_released_slots(wire2, wire1);
    }

    /// After two wires are spliced, an agent of the net is still sound.
    #[verifier::rlimit(60)]
    pub proof fn lemma_connected_agent_at(
        self,
        gone: Map<usize, Agent>,
        free: Set<(usize, int)>,
        end1: usize,
        wire1: usize,
        end2: usize,
        wire2: usize,
        x: usize,
    )
        requires
            self.sound(gone, free),
            self.can_connect(end1, wire1, end2, wire2),
            gone.contains_key(end1),
            gone.contains_key(end2),
            self.wires[wire1].source == end1 || self.wires[wire1].target == end1,
            self.wires[wire2].source == end2 || self.wires[wire2].target == end2,
            self.agents.contains_key(x),
        ensures
            self.connected(end1, wire1, end2, wire2).agent_sound(free, x),
    {
        self.lemma_connected_agents(gone, free, end1, wire1, end2, wire2);
        let after = self.connected(end1, wire1, end2, wire2);
        let f = self.partner(end1, wire1);
        let g = self.partner(end2, wire2);
        let id = self.wire_id;
        let was = self.agents[x];
        let now = after.agents[x];
        assert(self.agent_sound(free, x));
        assert(self.agents.contains_key(f));
        assert(self.agents.contains_key(g));
        assert(after.wires[id] == (Wire { source: f, target: g }));
        assert(now.slots(id) >= 1 ==> x == f || x == g);
        assert(after.slot_sound(free, x, 0, now.principal)) by {
            if now.principal != id {
                assert(now.principal == was.principal);
                assert(self.slot_sound(free, x, 0, was.principal));
            }
        }
        if now.kind.arity() >= 2 {
            assert(after.slot_sound(free, x, 1, now.first)) by {
                if now.first != id {
                    assert(now.first == was.first);
                    assert(self.slot_sound(free, x, 1, was.first));
                }
            }
        }
        if now.kind.arity() >= 3 {
            assert(after.slot_sound(free, x, 2, now.second)) by {
                if now.second != id {
                    assert(now.second == was.second);
                    assert(self.slot_sound(free, x, 2, was.second));
                }
            }
        }
    }

    /// After two wires are spliced, every agent holds any other wire at as
    /// many ports as before.
    pub proof fn lemma_connected_record(
        self,
        gone: Map<usize, Agent>,
        free: Set<(usize, int)>,
        end1: usize,
        wire1: usize,
        end2: usize,
        wire2: usize,
        e: usize,
        w: usize,
    )
        requires
            self.sound(gone, free),
            self.can_connect(end1, wire1, end2, wire2),
            gone.contains_key(end1),
            gone.contains_key(end2),
            self.wires[wire1].source == end1 || self.wires[wire1].target == end1,
            self.wires[wire2].source == end2 || self.wires[wire2].target == end2,
            self.known(gone, e),
            w != 0,
            w != wire1,
            w != wire2,
            w != self.wire_id,
        ensures
            self.connected(end1, wire1, end2, wire2).known(
                loosed(loosed(gone, end1, wire1), end2, wire2),
                e,
            ),
            self.connected(end1, wire1, end2, wire2).record(
                loosed(loosed(gone, end1, wire1), end2, wire2),
                e,
            ).slots(w) == self.record(gone, e).slots(w),
    {
        let gone1 = loosed(gone, end1, wire1);
        self.lemma_connected_agents(gone, free, end1, wire1, end2, wire2);
        if self.agents.contains_key(e) {
            self.lemma_connected_other(gone, free, end1, wire1, end2, wire2, e, w);
        } else {
            assert(self.wire_sound(gone, wire1));
            assert(self.wire_sound(gone, wire2));
            gone[e].lemma_released_slots(wire1, w);
            gone[e].lemma_released_slots(wire2, w);
            gone1[e].lemma_released_slots(wire2, w);
        }
    }

    /// After two wires are spliced, a wire of the net is still sound.
    #[verifier::rlimit(60)]
    pub proof fn lemma_connected_wire_at(
        self,
        gone: Map<usize, Agent>,
        free: Set<(usize, int)>,
        end1: usize,
        wire1: usize,
        end2: usize,
        wire2: usize,
        w: usize,
    )
        requires
            self.sound(gone, free),
            self.can_connect(end1, wire1, end2, wire2),
            gone.contains_key(end1),
            gone.contains_key(end2),
            self.wires[wire1].source == end1 || self.wires[wire1].target == end1,
            self.wires[wire2].source == end2 || self.wires[wire2].target == end2,
            self.connected(end1, wire1, end2, wire2).wires.contains_key(w),
        ensures
            self.connected(end1, wire1, end2, wire2).wire_sound(
                loosed(loosed(gone, end1, wire1), end2, wire2),
                w,
            ),
    {
        let after = self.connected(end1, wire1, end2, wire2);
        let f = self.partner(end1, wire1);
        let g = self.partner(end2, wire2);
        let id = self.wire_id;
        self.lemma_connected_agents(gone, free, end1, wire1, end2, wire2);
        if w != id {
            assert(self.wires.contains_key(w));
            assert(self.wire_sound(gone, w));
            assert(after.wires[w] == self.wires[w]);
            self.lemma_connected_record(
                gone,
                free,
                end1,
                wire1,
                end2,
                wire2,
                self.wires[w].source,
                w,
            );
            self.lemma_connected_record(
                gone,
                free,
                end1,
                wire1,
                end2,
                wire2,
                self.wires[w].target,
                w,
            );
        } else {
            assert(self.agents.contains_key(f));
            assert(self.agents.contains_key(g));
            assert(after.wires[w] == (Wire { source: f, target: g }));
        }
    }

    /// Splicing two wires that each end at an agent taken out keeps the net
    /// sound.
    pub proof fn lemma_connected_sound(
        self,
        gone: Map<usize, Agent>,
        free: Set<(usize, int)>,
        end1: usize,
        wire1: usize,
        end2: usize,
        wire2: usize,
    )
        requires
            self.sound(gone, free),
            self.can_connect(end1, wire1, end2, wire2),
            gone.contains_key(end1),
            gone.contains_key(end2),
            self.wires[wire1].source == end1 || self.wires[wire1].target == end1,
            self.wires[wire2].source == end2 || self.wires[wire2].target == end2,
        ensures
            self.connected(end1, wire1, end2, wire2).sound(
                loosed(loosed(gone, end1, wire1), end2, wire2),
                free,
            ),
    {
        let after = self.connected(end1, wire1, end2, wire2);
        let gone2 = loosed(loosed(gone, end1, wire1), end2, wire2);
        self.lemma_connected_fresh(end1, wire1, end2, wire2);
        self.lemma_connected_agents(gone, free, end1, wire1, end2, wire2);
        assert forall|x: usize| #[trigger] gone2.contains_key(x) implies !after.agents.contains_key(
            x,
        ) && x != 0 && x < after.agent_id && after.gone_sound(gone2, x) by {
            self.lemma_connected_gone_at(gone, free, end1, wire1, end2, wire2, x);
        }
        assert forall|x: usize| after.agents.contains_key(x) implies #[trigger] after.agent_sound(
            free,
            x,
        ) by {
            self.lemma_connected_agent_at(gone, free, end1, wire1, end2, wire2, x);
        }
        assert forall|w: usize| after.wires.contains_key(w) implies #[trigger] after.wire_sound(
            gone2,
            w,
        ) by {
            self.lemma_connected_wire_at(gone, free, end1, wire1, end2, wire2, w);
        }
    }

    /// Splicing two wires leaves the count of an agent's ports for any
    /// other wire as it was.
    #[verifier::rlimit(60)]
    pub proof fn lemma_connected_other(
        self,
        gone: Map<usize, Agent>,
        free: Set<(usize, int)>,
        end1: usize,
        wire1: usize,
        end2: usize,
        wire2: usize,
        x: usize,
        w: usize,
    )
        requires
            self.sound(gone, free),
            self.can_connect(end1, wire1, end2, wire2),
            gone.contains_key(end1),
            gone.contains_key(end2),
            self.wires[wire1].source == end1 || self.wires[wire1].target == end1,
            self.wires[wire2].source == end2 || self.wires[wire2].target == end2,
            self.agents.contains_key(x),
            w != wire1,
            w != wire2,
            w != self.wire_id,
        ensures
            self.connected(end1, wire1, end2, wire2).agents[x].slots(w) == self.agents[x].slots(w),
    {
        self.lemma_connected_agents(gone, free, end1, wire1, end2, wire2);
        let f = self.partner(end1, wire1);
        let g = self.partner(end2, wire2);
        let id = self.wire_id;
        assert(self.wire_sound(gone, wire1));
        assert(self.wire_sound(gone, wire2));
        let first = self.agents[f].with_port(self.agents[f].port_holding(wire1) as int, id);
        let agents1 = self.agents.insert(f, first);
        let second = agents1[g].with_port(self.agents[g].port_holding(wire2) as int, id);
        assert(self.connected(end1, wire1, end2, wire2).agents == agents1.insert(g, second));
        self.agents[f].lemma_retargeted(wire1, id, w);
        self.agents[f].lemma_retargeted(wire1, id, wire2);
        agents1[g].lemma_retargeted(wire2, id, w);
    }

    /// A new agent on an old wire keeps every id in use below the counters.
    pub proof fn lemma_spawned_fresh(self, record: Agent, wire: usize, from: usize)
        requires
            self.fresh(),
            self.agent_id < usize::MAX,
            self.wires.contains_key(wire),
        ensures
            self.spawned(record, wire, from).fresh(),
            self.spawned(record, wire, from).agent_id == self.agent_id + 1,
            self.spawned(record, wire, from).wire_id == self.wire_id,
            self.spawned(record, wire, from).wires.dom() =~= self.wires.dom(),
            self.spawned(record, wire, from).agents.dom() =~= self.agents.dom().insert(
                self.agent_id,
            ),
    {
    }

    /// An agent put back under an id below the counter keeps every id in
    /// use below the counters.
    pub proof fn lemma_revived_fresh(self, id: usize, record: Agent, wire: usize, from: usize)
        requires
            self.fresh(),
            id < self.agent_id,
            self.wires.contains_key(wire),
        ensures
            self.revived(id, record, wire, from).fresh(),
            self.revived(id, record, wire, from).agent_id == self.agent_id,
            self.revived(id, record, wire, from).wire_id == self.wire_id,
            self.revived(id, record, wire, from).wires.dom() =~= self.wires.dom(),
            self.revived(id, record, wire, from).agents.dom() =~= self.agents.dom().insert(id),
    {
    }

    /// A new wire between two agents keeps every id in use below the counters.
    pub proof fn lemma_linked_fresh(self, x: usize, i: int, y: usize, j: int)
        requires
            self.fresh(),
            self.wire_id < usize::MAX,
            self.agents.contains_key(x),
            self.agents.contains_key(y),
        ensures
            self.linked(x, i, y, j).fresh(),
            self.linked(x, i, y, j).agent_id == self.agent_id,
            self.linked(x, i, y, j).wire_id == self.wire_id + 1,
            self.linked(x, i, y, j).agents.dom() =~= self.agents.dom(),
            self.linked(x, i, y, j).wires.dom() =~= self.wires.dom().insert(self.wire_id),
    {
    }

    /// Splicing two wires keeps every id in use below the counters.
    pub proof fn lemma_connected_fresh(self, end1: usize, wire1: usize, end2: usize, wire2: usize)
        requires
            self.fresh(),
            self.can_connect(end1, wire1, end2, wire2),
        ensures
            self.connected(end1, wire1, end2, wire2).fresh(),
            self.connected(end1, wire1, end2, wire2).agent_id == self.agent_id,
            self.connected(end1, wire1, end2, wire2).wire_id == self.wire_id + 1,
            self.connected(end1, wire1, end2, wire2).agents.dom() =~= self.agents.dom(),
            self.connected(end1, wire1, end2, wire2).wires.dom() =~= self.wires.dom().remove(
                wire1,
            ).remove(wire2).insert(self.wire_id),
    {
    }

    /// Joining two wires keeps every id in use below the counters.
    pub proof fn lemma_joined_fresh(self, end1: usize, wire1: usize, end2: usize, wire2: usize)
        requires
            self.fresh(),
            self.can_join(end1, wire1, end2, wire2),
        ensures
            self.joined(end1, wire1, end2, wire2).fresh(),
    {
        if wire1 != wire2 {
            self.lemma_connected_fresh(end1, wire1, end2, wire2);
        }
    }

    /// The work of an eraser keeps every id in use below the counters.
    pub proof fn lemma_erased_fresh(self, pair: Pair)
        requires
            self.fresh(),
            self.can_erase(pair),
        ensures
            self.erased(pair).fresh(),
    {
        let arity = pair.subject().kind.arity();
        if arity >= 2 {
            self.lemma_spawned_fresh(new_eraser(), pair.subject().first, pair.subject_id());
            let one = self.spawned(new_eraser(), pair.subject().first, pair.subject_id());
            if arity >= 3 {
                one.lemma_spawned_fresh(new_eraser(), pair.subject().second, pair.subject_id());
            }
        }
    }

    /// Annihilation keeps every id in use below the counters.
    pub proof fn lemma_annihilated_fresh(self, pair: Pair)
        requires
            self.fresh(),
            self.can_annihilate(pair),
        ensures
            self.annihilated(pair).fresh(),
    {
        let a1 = pair.agent.first;
        let a2 = pair.agent.second;
        let b1 = pair.partner.first;
        let b2 = pair.partner.second;
        if a1 == a2 {
            self.drop_wire(a1).lemma_joined_fresh(pair.pid, b1, pair.pid, b2);
        } else if b1 == b2 {
            self.drop_wire(b1).lemma_joined_fresh(pair.aid, a1, pair.aid, a2);
        } else if a1 == b1 {
            self.drop_wire(a1).lemma_joined_fresh(pair.aid, a2, pair.pid, b2);
        } else if a2 == b2 {
            self.drop_wire(a2).lemma_joined_fresh(pair.aid, a1, pair.pid, b1);
        } else if a1 == b2 {
            self.drop_wire(a1).lemma_joined_fresh(pair.pid, b1, pair.aid, a2);
        } else if a2 == b1 {
            self.drop_wire(a2).lemma_joined_fresh(pair.aid, a1, pair.pid, b2);
        } else {
            self.lemma_connected_fresh(pair.aid, a1, pair.pid, b1);
            let one = self.connected(pair.aid, a1, pair.pid, b1);
            assert(one.can_connect(pair.aid, a2, pair.pid, b2));
            one.lemma_connected_fresh(pair.aid, a2, pair.pid, b2);
        }
    }

    /// Two agents passing through one another keep every id in use below
    /// the counters.
    pub proof fn lemma_duplicated_fresh(self, pair: Pair)
        requires
            self.fresh(),
            self.can_duplicate(pair),
        ensures
            self.duplicated(pair).fresh(),
    {
        let n = self.agent_id;
        let agent = Agent { first: 0, second: 0, ..pair.agent };
        let partner = Agent { first: 0, second: 0, ..pair.partner };
        self.lemma_spawned_fresh(agent, pair.partner.first, pair.pid);
        let one = self.spawned(agent, pair.partner.first, pair.pid);
        one.lemma_spawned_fresh(agent, pair.partner.second, pair.pid);
        let two = one.spawned(agent, pair.partner.second, pair.pid);
        two.lemma_spawned_fresh(partner, pair.agent.first, pair.aid);
        let three = two.spawned(partner, pair.agent.first, pair.aid);
        three.lemma_spawned_fresh(partner, pair.agent.second, pair.aid);
        let four = three.spawned(partner, pair.agent.second, pair.aid);
        four.lemma_linked_fresh(n, 2, (n + 3) as usize, 1);
        let five = four.linked(n, 2, (n + 3) as usize, 1);
        five.lemma_linked_fresh((n + 1) as usize, 1, (n + 2) as usize, 2);
        let six = five.linked((n + 1) as usize, 1, (n + 2) as usize, 2);
        six.lemma_linked_fresh(n, 1, (n + 2) as usize, 1);
        let seven = six.linked(n, 1, (n + 2) as usize, 1);
        seven.lemma_linked_fresh((n + 1) as usize, 2, (n + 3) as usize, 2);
    }

    /// A control agent passing through another agent keeps every id in use
    /// below the counters, if the other agent's id lay below the counter.
    pub proof fn lemma_passed_fresh(self, pair: Pair)
        requires
            self.fresh(),
            self.can_pass(pair),
            pair.aid < self.agent_id,
            pair.pid < self.agent_id,
        ensures
            self.passed(pair).fresh(),
    {
        let n = self.agent_id;
        let control = Agent { first: 0, second: 0, ..pair.actor() };
        let subject = Agent {
            level: (pair.subject().level + pair.shift()) as isize,
            first: 0,
            second: 0,
            ..pair.subject()
        };
        self.lemma_spawned_fresh(control, pair.subject().first, pair.subject_id());
        let one = self.spawned(control, pair.subject().first, pair.subject_id());
        one.lemma_spawned_fresh(control, pair.subject().second, pair.subject_id());
        let two = one.spawned(control, pair.subject().second, pair.subject_id());
        two.lemma_revived_fresh(pair.subject_id(), subject, pair.actor().first, pair.actor_id());
        let three = two.revived(pair.subject_id(), subject, pair.actor().first, pair.actor_id());
        three.lemma_linked_fresh(pair.subject_id(), 1, n, 1);
        let four = three.linked(pair.subject_id(), 1, n, 1);
        four.lemma_linked_fresh(pair.subject_id(), 2, (n + 1) as usize, 1);
    }
}

} // verus!
