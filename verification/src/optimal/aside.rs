//! A beta step aside of the walk leaves what is read back as it was.
//!
//! Where the walk that reads a net back never comes to either agent of a
//! redex, contracting the redex changes nothing that the walk sees.

use vstd::prelude::*;
use crate::optimal::agent::{Agent, AgentKind};
use crate::optimal::net::NetView;
use crate::optimal::readback::GAS;
use crate::optimal::rewrite::{Pair, Rule};
use crate::optimal::wellformed::{loosed, parted};

verus! {

impl NetView {
    /// Whether the wire `id` ends at one of the agents `one` and `two`.
    pub open spec fn touches(self, id: usize, one: usize, two: usize) -> bool {
        self.wires.contains_key(id) && (self.wires[id].source == one || self.wires[id].target
            == one || self.wires[id].source == two || self.wires[id].target == two)
    }

    /// Whether the walk that leaves the agent `from` along `wire` never
    /// comes to the agent `one` or to the agent `two`.
    pub open spec fn clear_along(
        self,
        from: usize,
        wire: usize,
        oracle: Map<usize, usize>,
        gas: int,
        hops: nat,
        one: usize,
        two: usize,
    ) -> bool
        decreases gas, hops, 1nat,
    {
        if gas <= 0 || !self.wires.contains_key(wire) {
            true
        } else {
            self.clear_at(self.partner(from, wire), wire, oracle, gas, hops, one, two)
        }
    }

    /// Whether the walk that enters the agent `aid` by the wire `wid` never
    /// comes to the agent `one` or to the agent `two`.
    pub open spec fn clear_at(
        self,
        aid: usize,
        wid: usize,
        oracle: Map<usize, usize>,
        gas: int,
        hops: nat,
        one: usize,
        two: usize,
    ) -> bool
        decreases gas, hops, 0nat,
    {
        if gas <= 0 || !self.agents.contains_key(aid) {
            true
        } else if aid == one || aid == two {
            false
        } else {
            let agent = self.agents[aid];
            match agent.kind {
                AgentKind::Root => hops == 0 || self.clear_along(
                    aid,
                    agent.principal,
                    oracle,
                    gas,
                    (hops - 1) as nat,
                    one,
                    two,
                ),
                AgentKind::Bracket | AgentKind::Croissant => hops == 0 || self.clear_along(
                    aid,
                    if agent.port_holding(wid) == 1 {
                        agent.principal
                    } else {
                        agent.first
                    },
                    oracle,
                    gas,
                    (hops - 1) as nat,
                    one,
                    two,
                ),
                AgentKind::Application => self.clear_along(
                    aid,
                    agent.principal,
                    oracle,
                    gas - 1,
                    self.patience(),
                    one,
                    two,
                ) && self.clear_along(
                    aid,
                    agent.second,
                    self.read_along(aid, agent.principal, oracle, gas - 1, self.patience()).oracle,
                    gas - 1,
                    self.patience(),
                    one,
                    two,
                ),
                AgentKind::Lambda => agent.port_holding(wid) != 0 || self.clear_along(
                    aid,
                    agent.first,
                    oracle,
                    gas - 1,
                    self.patience(),
                    one,
                    two,
                ),
                AgentKind::Duplicator => if agent.port_holding(wid) == 0 {
                    !(oracle.contains_key(aid) && oracle[aid] < 3) || self.clear_along(
                        aid,
                        agent.port(oracle[aid] as int),
                        oracle,
                        gas - 1,
                        self.patience(),
                        one,
                        two,
                    )
                } else {
                    self.clear_along(
                        aid,
                        agent.principal,
                        oracle.insert(aid, agent.port_holding(wid) as usize),
                        gas - 1,
                        self.patience(),
                        one,
                        two,
                    )
                },
                AgentKind::Eraser => true,
            }
        }
    }

    /// Whether `after` is this net but for the agents `one` and `two` and
    /// the wires that end at them: every other agent is there with its kind
    /// and level, and with the wires at its ports but for new wires where
    /// wires to `one` and `two` were; every other wire is as it was.
    pub open spec fn apart(self, after: NetView, one: usize, two: usize) -> bool {
        &&& after.agent_id == self.agent_id
        &&& forall|id: usize| #[trigger]
            self.agents.contains_key(id) && id != one && id != two ==> {
                let was = self.agents[id];
                let now = after.agents[id];
                &&& after.agents.contains_key(id)
                &&& now.kind == was.kind
                &&& now.level == was.level
                &&& now.principal == was.principal || (self.touches(was.principal, one, two)
                    && !self.wires.contains_key(now.principal))
                &&& now.first == was.first || (self.touches(was.first, one, two)
                    && !self.wires.contains_key(now.first))
                &&& now.second == was.second || (self.touches(was.second, one, two)
                    && !self.wires.contains_key(now.second))
            }
        &&& forall|id: usize| #[trigger]
            self.wires.contains_key(id) && !self.touches(id, one, two) ==> after.wires.contains_key(
                id,
            ) && after.wires[id] == self.wires[id]
    }

    /// What a walk reads at an agent in a net, it reads there in a net that
    /// differs only at two agents that the walk never comes to.
    pub proof fn lemma_apart_at(
        self,
        after: NetView,
        one: usize,
        two: usize,
        aid: usize,
        wid: usize,
        oracle: Map<usize, usize>,
        gas: int,
        hops: nat,
    )
        requires
            self.wf(),
            self.apart(after, one, two),
            self.wires.contains_key(wid),
            !self.touches(wid, one, two),
            self.clear_at(aid, wid, oracle, gas, hops, one, two),
            self.agents.contains_key(aid),
        ensures
            after.read(aid, wid, oracle, gas, hops) == self.read(aid, wid, oracle, gas, hops),
        decreases gas, hops, 0nat,
    {
        if gas > 0 {
            let was = self.agents[aid];
            let now = after.agents[aid];
            assert(aid != one && aid != two);
            assert(self.agent_ok(aid));
            assert(now.port_holding(wid) == was.port_holding(wid));
            match was.kind {
                AgentKind::Root => {
                    if hops > 0 {
                        self.lemma_apart_port(after, one, two, aid, 0, oracle, gas, (hops - 1) as nat);
                    }
                },
                AgentKind::Bracket | AgentKind::Croissant => {
                    if hops > 0 {
                        if was.port_holding(wid) == 1 {
                            self.lemma_apart_port(
                                after,
                                one,
                                two,
                                aid,
                                0,
                                oracle,
                                gas,
                                (hops - 1) as nat,
                            );
                        } else {
                            self.lemma_apart_port(
                                after,
                                one,
                                two,
                                aid,
                                1,
                                oracle,
                                gas,
                                (hops - 1) as nat,
                            );
                        }
                    }
                },
                AgentKind::Application => {
                    self.lemma_apart_port(after, one, two, aid, 0, oracle, gas - 1, self.patience());
                    let left = self.read_along(
                        aid,
                        was.principal,
                        oracle,
                        gas - 1,
                        self.patience(),
                    );
                    self.lemma_apart_port(
                        after,
                        one,
                        two,
                        aid,
                        2,
                        left.oracle,
                        gas - 1,
                        self.patience(),
                    );
                },
                AgentKind::Lambda => {
                    if was.port_holding(wid) == 0 {
                        self.lemma_apart_port(
                            after,
                            one,
                            two,
                            aid,
                            1,
                            oracle,
                            gas - 1,
                            self.patience(),
                        );
                    }
                },
                AgentKind::Duplicator => {
                    if was.port_holding(wid) == 0 {
                        if oracle.contains_key(aid) && oracle[aid] < 3 {
                            self.lemma_apart_port(
                                after,
                                one,
                                two,
                                aid,
                                oracle[aid] as int,
                                oracle,
                                gas - 1,
                                self.patience(),
                            );
                        }
                    } else {
                        self.lemma_apart_port(
                            after,
                            one,
                            two,
                            aid,
                            0,
                            oracle.insert(aid, was.port_holding(wid) as usize),
                            gas - 1,
                            self.patience(),
                        );
                    }
                },
                AgentKind::Eraser => {},
            }
        }
    }

    /// What a walk reads when it leaves an agent by one of its ports in a
    /// net, it reads in a net that differs only at two agents that the walk
    /// never comes to.
    pub proof fn lemma_apart_port(
        self,
        after: NetView,
        one: usize,
        two: usize,
        aid: usize,
        port: int,
        oracle: Map<usize, usize>,
        gas: int,
        hops: nat,
    )
        requires
            self.wf(),
            self.apart(after, one, two),
            self.agents.contains_key(aid),
            aid != one,
            aid != two,
            0 <= port < self.agents[aid].kind.arity(),
            self.clear_along(aid, self.agents[aid].port(port), oracle, gas, hops, one, two),
        ensures
            after.read_along(aid, after.agents[aid].port(port), oracle, gas, hops)
                == self.read_along(aid, self.agents[aid].port(port), oracle, gas, hops),
        decreases gas, hops, 1nat,
    {
        if gas > 0 {
            let wire = self.agents[aid].port(port);
            assert(self.agent_ok(aid));
            assert(self.attached(aid, wire));
            assert(self.wire_ok(wire));
            let to = self.partner(aid, wire);
            assert(!self.touches(wire, one, two)) by {
                if self.touches(wire, one, two) {
                    assert(to == one || to == two);
                }
            }
            assert(after.agents[aid].port(port) == wire);
            self.lemma_apart_at(after, one, two, to, wire, oracle, gas, hops);
        }
    }

    /// Whether `after` is this net with two wires joined: every agent is
    /// there with its kind and level, and with the wires at its ports but
    /// for the new wire where the two wires were; every other wire is as it
    /// was.
    pub open spec fn spliced(self, after: NetView, wire1: usize, wire2: usize) -> bool {
        &&& after.agent_id == self.agent_id
        &&& after.wire_id >= self.wire_id
        &&& after.agents.dom() == self.agents.dom()
        &&& forall|id: usize| #[trigger]
            self.agents.contains_key(id) ==> {
                let was = self.agents[id];
                let now = after.agents[id];
                &&& now.kind == was.kind
                &&& now.level == was.level
                &&& now.principal == was.principal || (now.principal == self.wire_id && (
                was.principal == wire1 || was.principal == wire2))
                &&& now.first == was.first || (now.first == self.wire_id && (was.first == wire1
                    || was.first == wire2))
                &&& now.second == was.second || (now.second == self.wire_id && (was.second
                    == wire1 || was.second == wire2))
            }
        &&& forall|id: usize| #[trigger]
            self.wires.contains_key(id) && id != wire1 && id != wire2 ==> after.wires.contains_key(
                id,
            ) && after.wires[id] == self.wires[id]
        &&& forall|id: usize| #[trigger]
            after.wires.contains_key(id) ==> self.wires.contains_key(id) || id == self.wire_id
    }

    /// Joining two wires that each end at an agent taken out changes no
    /// agent but at the ports where the two wires were, and no other wire.
    pub proof fn lemma_joined_spliced(
        self,
        gone: Map<usize, Agent>,
        free: Set<(usize, int)>,
        end1: usize,
        wire1: usize,
        end2: usize,
        wire2: usize,
    )
        requires
            self.sound(gone, free),
            self.can_join(end1, wire1, end2, wire2),
            gone.contains_key(end1),
            gone.contains_key(end2),
            gone[end1].slots(wire1) >= 1,
            gone[end2].slots(wire2) >= 1,
        ensures
            self.spliced(self.joined(end1, wire1, end2, wire2), wire1, wire2),
    {
        assert(self.gone_sound(gone, end1));
        assert(self.gone_sound(gone, end2));
        assert(self.attached(end1, wire1));
        assert(self.attached(end2, wire2));
        if wire1 != wire2 {
            self.lemma_connected_agents(gone, free, end1, wire1, end2, wire2);
            self.lemma_connected_fresh(end1, wire1, end2, wire2);
        }
    }

    /// Annihilation changes nothing but at the two agents of the pair and
    /// at the wires that end at them.
    pub proof fn lemma_annihilated_apart(self, id: usize)
        requires
            self.wf(),
            self.fires(id),
            self.pair_at(id)->0.rule() == Some(Rule::Annihilate),
        ensures
            self.apart(
                self.stepped(id),
                self.pair_at(id)->0.aid,
                self.pair_at(id)->0.pid,
            ),
            forall|x: usize| #[trigger]
                self.stepped(id).agents.contains_key(x) ==> self.agents.contains_key(x),
    {
        let pair = self.pair_at(id)->0;
        let base = self.without_pair(pair);
        let gone = parted(pair);
        let free = Set::<(usize, int)>::empty();
        let a1 = pair.agent.first;
        let a2 = pair.agent.second;
        let b1 = pair.partner.first;
        let b2 = pair.partner.second;
        let aid = pair.aid;
        let pid = pair.pid;
        self.lemma_pair_out(id);
        assert(self.agent_ok(aid));
        assert(self.agent_ok(pid));
        assert(gone.contains_key(aid) && gone.contains_key(pid));
        if a1 == a2 {
            base.lemma_two_spliced(self, pair, gone, aid, a1, aid, a2, pid, b1, pid, b2);
        } else if b1 == b2 {
            base.lemma_two_spliced(self, pair, gone, pid, b1, pid, b2, aid, a1, aid, a2);
        } else if a1 == b1 {
            base.lemma_two_spliced(self, pair, gone, aid, a1, pid, b1, aid, a2, pid, b2);
        } else if a2 == b2 {
            base.lemma_two_spliced(self, pair, gone, aid, a2, pid, b2, aid, a1, pid, b1);
        } else if a1 == b2 {
            base.lemma_two_spliced(self, pair, gone, aid, a1, pid, b2, pid, b1, aid, a2);
        } else if a2 == b1 {
            base.lemma_two_spliced(self, pair, gone, aid, a2, pid, b1, aid, a1, pid, b2);
        } else {
            base.lemma_connected_agents(gone, free, aid, a1, pid, b1);
            base.lemma_connected_fresh(aid, a1, pid, b1);
            let one = base.connected(aid, a1, pid, b1);
            assert(one.can_join(aid, a2, pid, b2));
            base.lemma_two_spliced(self, pair, gone, aid, a1, pid, b1, aid, a2, pid, b2);
        }
    }

    /// Two joins on the net without a pair change nothing of the whole net
    /// but at the two agents of the pair and at the wires that end at them.
    pub proof fn lemma_two_spliced(
        self,
        whole: NetView,
        pair: Pair,
        gone: Map<usize, Agent>,
        end1: usize,
        wire1: usize,
        end2: usize,
        wire2: usize,
        end3: usize,
        wire3: usize,
        end4: usize,
        wire4: usize,
    )
        requires
            whole.wf(),
            self == whole.without_pair(pair),
            whole.agents.contains_key(pair.aid),
            whole.agents.contains_key(pair.pid),
            whole.wires.contains_key(pair.wire),
            whole.touches(pair.wire, pair.aid, pair.pid),
            whole.touches(wire1, pair.aid, pair.pid),
            whole.touches(wire2, pair.aid, pair.pid),
            whole.touches(wire3, pair.aid, pair.pid),
            whole.touches(wire4, pair.aid, pair.pid),
            self.sound(gone, Set::empty()),
            self.can_join(end1, wire1, end2, wire2),
            self.joined(end1, wire1, end2, wire2).can_join(end3, wire3, end4, wire4),
            gone.contains_key(end1),
            gone.contains_key(end2),
            gone.contains_key(end3),
            gone.contains_key(end4),
            gone[end1].slots(wire1) >= 1,
            gone[end2].slots(wire2) >= 1,
            wire1 == wire2 && end1 == end2 ==> gone[end1].slots(wire1) >= 2,
            ({
                let left = loosed(loosed(gone, end1, wire1), end2, wire2);
                &&& left[end3].slots(wire3) >= 1
                &&& left[end4].slots(wire4) >= 1
            }),
        ensures
            whole.apart(
                self.joined(end1, wire1, end2, wire2).joined(end3, wire3, end4, wire4),
                pair.aid,
                pair.pid,
            ),
            forall|x: usize| #[trigger]
                self.joined(end1, wire1, end2, wire2).joined(
                    end3,
                    wire3,
                    end4,
                    wire4,
                ).agents.contains_key(x) ==> whole.agents.contains_key(x),
    {
        let free = Set::<(usize, int)>::empty();
        let one = self.joined(end1, wire1, end2, wire2);
        let left = loosed(loosed(gone, end1, wire1), end2, wire2);
        let two = one.joined(end3, wire3, end4, wire4);
        self.lemma_joined_spliced(gone, free, end1, wire1, end2, wire2);
        self.lemma_joined_sound(gone, free, end1, wire1, end2, wire2);
        one.lemma_joined_spliced(left, free, end3, wire3, end4, wire4);
        assert(self.spliced(one, wire1, wire2));
        assert(one.spliced(two, wire3, wire4));
        assert forall|id: usize| #[trigger]
            whole.agents.contains_key(id) && id != pair.aid && id != pair.pid implies {
            let was = whole.agents[id];
            let now = two.agents[id];
            &&& two.agents.contains_key(id)
            &&& now.kind == was.kind
            &&& now.level == was.level
            &&& now.principal == was.principal || (whole.touches(was.principal, pair.aid, pair.pid)
                && !whole.wires.contains_key(now.principal))
            &&& now.first == was.first || (whole.touches(was.first, pair.aid, pair.pid)
                && !whole.wires.contains_key(now.first))
            &&& now.second == was.second || (whole.touches(was.second, pair.aid, pair.pid)
                && !whole.wires.contains_key(now.second))
        } by {
            assert(self.agents.contains_key(id));
            assert(one.agents.contains_key(id));
            assert(self.agents[id] == whole.agents[id]);
        }
        assert forall|id: usize| #[trigger]
            whole.wires.contains_key(id) && !whole.touches(
                id,
                pair.aid,
                pair.pid,
            ) implies two.wires.contains_key(id) && two.wires[id] == whole.wires[id] by {
            assert(self.wires.contains_key(id));
            assert(one.wires.contains_key(id));
        }
    }

    /// A beta step aside of the walk leaves what is read back as it was:
    /// where the walk from the root of a well-formed net comes to neither
    /// agent of the pair, the net reads back after the rewrite as before.
    pub proof fn lemma_beta_aside(self, id: usize)
        requires
            self.wf(),
            self.fires(id),
            self.pair_at(id)->0.rule() == Some(Rule::Annihilate),
            self.agents.contains_key(1) ==> self.agents[1].kind == AgentKind::Root
                && self.clear_at(
                1,
                self.agents[1].principal,
                Map::empty(),
                GAS as int,
                self.patience(),
                self.pair_at(id)->0.aid,
                self.pair_at(id)->0.pid,
            ),
        ensures
            self.stepped(id).read_back() == self.read_back(),
    {
        let pair = self.pair_at(id)->0;
        let after = self.stepped(id);
        self.lemma_annihilated_apart(id);
        if self.agents.contains_key(1) {
            let wire = self.agents[1].principal;
            assert(self.agent_ok(1));
            assert(self.wire_ok(wire));
            assert(1 != pair.aid && 1 != pair.pid);
            assert(self.patience() >= 1);
            let to = self.partner(1, wire);
            assert(self.clear_along(
                1,
                wire,
                Map::empty(),
                GAS as int,
                (self.patience() - 1) as nat,
                pair.aid,
                pair.pid,
            ));
            assert(self.clear_at(
                to,
                wire,
                Map::empty(),
                GAS as int,
                (self.patience() - 1) as nat,
                pair.aid,
                pair.pid,
            ));
            assert(to != pair.aid && to != pair.pid);
            assert(!self.touches(wire, pair.aid, pair.pid));
            assert(after.agents[1].principal == wire);
            self.lemma_apart_at(
                after,
                pair.aid,
                pair.pid,
                1,
                wire,
                Map::empty(),
                GAS as int,
                self.patience(),
            );
        } else {
            assert(!after.agents.contains_key(1));
        }
    }
}

} // verus!
