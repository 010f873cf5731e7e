//! Every rewrite keeps a well-formed net well formed.

use vstd::prelude::*;
use crate::optimal::agent::{Agent, AgentKind};
use crate::optimal::net::NetView;
use crate::optimal::rewrite::{new_eraser, Pair, Rule};
use crate::optimal::wellformed::{loosed, parted, spare};

verus! {

impl NetView {
    /// Joining two wires that each end at an agent taken out keeps the net
    /// sound. Where the two are one wire, it goes.
    pub proof fn lemma_joined_sound(
        self,
        gone: Map<usize, Agent>,
        free: Set<(usize, int)>,
        end1: usize,
        wire1: usize,
        end2: usize,
        wire2: usize,
    )
        requires
            self.sound(gone, free),
            self.can_join(end1, wire1, end2, wire2),
            gone.contains_key(end1),
            gone.contains_key(end2),
            gone[end1].slots(wire1) >= 1,
            gone[end2].slots(wire2) >= 1,
            wire1 == wire2 && end1 == end2 ==> gone[end1].slots(wire1) >= 2,
        ensures
            self.joined(end1, wire1, end2, wire2).sound(
                loosed(loosed(gone, end1, wire1), end2, wire2),
                free,
            ),
    {
        assert(self.gone_sound(gone, end1));
        assert(self.gone_sound(gone, end2));
        assert(self.attached(end1, wire1));
        assert(self.attached(end2, wire2));
        if wire1 == wire2 {
            assert(self.wire_sound(gone, wire1));
            self.lemma_drop_sound(gone, free, wire1);
            let s = self.wires[wire1].source;
            let t = self.wires[wire1].target;
            assert(loosed(loosed(gone, s, wire1), t, wire1) =~= loosed(
                loosed(gone, end1, wire1),
                end2,
                wire2,
            ));
        } else {
            self.lemma_connected_sound(gone, free, end1, wire1, end2, wire2);
        }
    }

    /// Annihilation keeps a net well formed.
    pub proof fn lemma_annihilated_wf(self, pair: Pair)
        requires
            self.sound(parted(pair), Set::empty()),
            pair.aid != pair.pid,
            pair.agent.kind.arity() == 3,
            pair.partner.kind.arity() == 3,
            self.can_annihilate(pair),
        ensures
            self.annihilated(pair).wf(),
    {
        let gone = parted(pair);
        let free = Set::<(usize, int)>::empty();
        let a1 = pair.agent.first;
        let a2 = pair.agent.second;
        let b1 = pair.partner.first;
        let b2 = pair.partner.second;
        let aid = pair.aid;
        let pid = pair.pid;
        assert(gone.contains_key(aid) && gone.contains_key(pid));
        assert(self.gone_sound(gone, aid));
        assert(self.gone_sound(gone, pid));
        if a1 == a2 {
            self.lemma_two_joins(gone, aid, a1, aid, a2, pid, b1, pid, b2);
        } else if b1 == b2 {
            self.lemma_two_joins(gone, pid, b1, pid, b2, aid, a1, aid, a2);
        } else if a1 == b1 {
            self.lemma_two_joins(gone, aid, a1, pid, b1, aid, a2, pid, b2);
        } else if a2 == b2 {
            self.lemma_two_joins(gone, aid, a2, pid, b2, aid, a1, pid, b1);
        } else if a1 == b2 {
            self.lemma_two_joins(gone, aid, a1, pid, b2, pid, b1, aid, a2);
        } else if a2 == b1 {
            self.lemma_two_joins(gone, aid, a2, pid, b1, aid, a1, pid, b2);
        } else {
            self.lemma_connected_agents(gone, free, aid, a1, pid, b1);
            self.lemma_connected_fresh(aid, a1, pid, b1);
            let one = self.connected(aid, a1, pid, b1);
            assert(one.can_join(aid, a2, pid, b2));
            self.lemma_two_joins(gone, aid, a1, pid, b1, aid, a2, pid, b2);
        }
    }

    /// Two joins that between them take every wire from two agents taken
    /// out leave a well-formed net.
    pub proof fn lemma_two_joins(
        self,
        gone: Map<usize, Agent>,
        end1: usize,
        wire1: usize,
        end2: usize,
        wire2: usize,
        end3: usize,
        wire3: usize,
        end4: usize,
        wire4: usize,
    )
        requires
            self.sound(gone, Set::empty()),
            self.can_join(end1, wire1, end2, wire2),
            self.joined(end1, wire1, end2, wire2).can_join(end3, wire3, end4, wire4),
            gone.contains_key(end1),
            gone.contains_key(end2),
            gone.contains_key(end3),
            gone.contains_key(end4),
            gone[end1].slots(wire1) >= 1,
            gone[end2].slots(wire2) >= 1,
            wire1 == wire2 && end1 == end2 ==> gone[end1].slots(wire1) >= 2,
            ({
                let left = loosed(loosed(gone, end1, wire1), end2, wire2);
                let rest = loosed(loosed(left, end3, wire3), end4, wire4);
                &&& left[end3].slots(wire3) >= 1
                &&& left[end4].slots(wire4) >= 1
                &&& wire3 == wire4 && end3 == end4 ==> left[end3].slots(wire3) >= 2
                &&& forall|x: usize| rest.contains_key(x) ==> (#[trigger] rest[x]).idle()
            }),
        ensures
            self.joined(end1, wire1, end2, wire2).joined(end3, wire3, end4, wire4).wf(),
    {
        let free = Set::<(usize, int)>::empty();
        self.lemma_joined_sound(gone, free, end1, wire1, end2, wire2);
        let one = self.joined(end1, wire1, end2, wire2);
        let left = loosed(loosed(gone, end1, wire1), end2, wire2);
        one.lemma_joined_sound(left, free, end3, wire3, end4, wire4);
        let rest = loosed(loosed(left, end3, wire3), end4, wire4);
        one.joined(end3, wire3, end4, wire4).lemma_sound_is_wf(rest);
    }

    /// Taking a pair out of a well-formed net leaves a sound net: the two
    /// agents are gone, and the wires at their other ports still end at them.
    pub proof fn lemma_pair_out(self, id: usize)
        requires
            self.wf(),
            self.pair_at(id) is Some,
        ensures
            self.without_pair(self.pair_at(id)->0).sound(
                parted(self.pair_at(id)->0),
                Set::empty(),
            ),
            self.pair_at(id)->0.aid != self.pair_at(id)->0.pid,
            self.pair_at(id)->0.aid < self.agent_id,
            self.pair_at(id)->0.pid < self.agent_id,
    {
        let pair = self.pair_at(id)->0;
        let nothing = Map::<usize, Agent>::empty();
        let free = Set::<(usize, int)>::empty();
        self.lemma_wf_is_sound();
        assert(self.agent_ok(pair.aid));
        assert(self.agent_ok(pair.pid));
        assert(self.wire_ok(pair.wire));
        self.lemma_kill_sound(nothing, free, pair.aid);
        let one = self.drop_agent(pair.aid);
        let gone1 = nothing.insert(pair.aid, pair.agent);
        one.lemma_kill_sound(gone1, free, pair.pid);
        let two = one.drop_agent(pair.pid);
        let gone2 = gone1.insert(pair.pid, pair.partner);
        two.lemma_drop_sound(gone2, free, pair.wire);
        let s = self.wires[pair.wire].source;
        let t = self.wires[pair.wire].target;
        assert(two.drop_wire(pair.wire) =~= self.without_pair(pair));
        assert(loosed(loosed(gone2, s, pair.wire), t, pair.wire) =~= parted(pair));
    }

    /// Cancelling keeps a net well formed.
    pub proof fn lemma_cancelled_wf(self, pair: Pair)
        requires
            self.sound(parted(pair), Set::empty()),
            pair.aid != pair.pid,
            pair.agent.kind.arity() == 2,
            pair.partner.kind.arity() == 2,
            self.can_cancel(pair),
        ensures
            self.cancelled(pair).wf(),
    {
        let gone = parted(pair);
        let free = Set::<(usize, int)>::empty();
        let a1 = pair.agent.first;
        let b1 = pair.partner.first;
        assert(gone.contains_key(pair.aid) && gone.contains_key(pair.pid));
        assert(self.gone_sound(gone, pair.aid));
        assert(self.gone_sound(gone, pair.pid));
        if a1 == b1 {
            assert(self.wire_sound(gone, a1));
            self.lemma_drop_sound(gone, free, a1);
            let s = self.wires[a1].source;
            let t = self.wires[a1].target;
            let rest = loosed(loosed(gone, s, a1), t, a1);
            assert forall|x: usize| rest.contains_key(x) implies (#[trigger] rest[x]).idle() by {}
            self.drop_wire(a1).lemma_sound_is_wf(rest);
        } else {
            self.lemma_connected_sound(gone, free, pair.aid, a1, pair.pid, b1);
            let rest = loosed(loosed(gone, pair.aid, a1), pair.pid, b1);
            assert forall|x: usize| rest.contains_key(x) implies (#[trigger] rest[x]).idle() by {}
            self.connected(pair.aid, a1, pair.pid, b1).lemma_sound_is_wf(rest);
        }
    }

    /// The work of an eraser keeps a net well formed.
    pub proof fn lemma_erased_wf(self, pair: Pair)
        requires
            self.sound(parted(pair), Set::empty()),
            pair.aid != pair.pid,
            pair.actor().kind == AgentKind::Eraser,
            self.can_erase(pair),
        ensures
            self.erased(pair).wf(),
    {
        let gone = parted(pair);
        let free = Set::<(usize, int)>::empty();
        let subject = pair.subject();
        let sid = pair.subject_id();
        let arity = subject.kind.arity();
        assert(gone.contains_key(sid));
        assert(gone[sid] == (Agent { principal: 0, ..subject }));
        if arity >= 2 {
            self.lemma_spawned_sound(gone, free, new_eraser(), subject.first, sid);
            self.lemma_spawned_fresh(new_eraser(), subject.first, sid);
            let one = self.spawned(new_eraser(), subject.first, sid);
            let gone1 = loosed(gone, sid, subject.first);
            assert(free + spare(self.agent_id, AgentKind::Eraser) =~= free);
            if arity >= 3 {
                one.lemma_spawned_sound(gone1, free, new_eraser(), subject.second, sid);
                let two = one.spawned(new_eraser(), subject.second, sid);
                let gone2 = loosed(gone1, sid, subject.second);
                assert(free + spare(one.agent_id, AgentKind::Eraser) =~= free);
                assert forall|x: usize| gone2.contains_key(x) implies (#[trigger] gone2[x]).idle() by {}
                two.lemma_sound_is_wf(gone2);
            } else {
                assert forall|x: usize| gone1.contains_key(x) implies (#[trigger] gone1[x]).idle() by {}
                one.lemma_sound_is_wf(gone1);
            }
        } else {
            assert forall|x: usize| gone.contains_key(x) implies (#[trigger] gone[x]).idle() by {}
            self.lemma_sound_is_wf(gone);
        }
    }

    /// Two agents passing through one another keep a net well formed.
    pub proof fn lemma_duplicated_wf(self, pair: Pair)
        requires
            self.sound(parted(pair), Set::empty()),
            pair.aid != pair.pid,
            pair.agent.kind.arity() == 3,
            pair.partner.kind.arity() == 3,
            self.can_duplicate(pair),
        ensures
            self.duplicated(pair).wf(),
    {
        let gone = parted(pair);
        let free = Set::<(usize, int)>::empty();
        let n = self.agent_id;
        let agent = Agent { first: 0, second: 0, ..pair.agent };
        let partner = Agent { first: 0, second: 0, ..pair.partner };
        let (a1, a2, b1, b2) = (
            pair.agent.first,
            pair.agent.second,
            pair.partner.first,
            pair.partner.second,
        );
        assert(gone.contains_key(pair.aid) && gone.contains_key(pair.pid));
        self.lemma_spawned_sound(gone, free, agent, b1, pair.pid);
        self.lemma_spawned_fresh(agent, b1, pair.pid);
        let one = self.spawned(agent, b1, pair.pid);
        let gone1 = loosed(gone, pair.pid, b1);
        let free1 = free + spare(n, agent.kind);
        one.lemma_spawned_sound(gone1, free1, agent, b2, pair.pid);
        one.lemma_spawned_fresh(agent, b2, pair.pid);
        let two = one.spawned(agent, b2, pair.pid);
        let gone2 = loosed(gone1, pair.pid, b2);
        let free2 = free1 + spare((n + 1) as usize, agent.kind);
        two.lemma_spawned_sound(gone2, free2, partner, a1, pair.aid);
        two.lemma_spawned_fresh(partner, a1, pair.aid);
        let three = two.spawned(partner, a1, pair.aid);
        let gone3 = loosed(gone2, pair.aid, a1);
        let free3 = free2 + spare((n + 2) as usize, partner.kind);
        three.lemma_spawned_sound(gone3, free3, partner, a2, pair.aid);
        three.lemma_spawned_fresh(partner, a2, pair.aid);
        let four = three.spawned(partner, a2, pair.aid);
        let gone4 = loosed(gone3, pair.aid, a2);
        let free4 = free3 + spare((n + 3) as usize, partner.kind);
        assert(four.agents[n] == (Agent { principal: b1, ..agent }));
        assert(four.agents[(n + 1) as usize] == (Agent { principal: b2, ..agent }));
        assert(four.agents[(n + 2) as usize] == (Agent { principal: a1, ..partner }));
        assert(four.agents[(n + 3) as usize] == (Agent { principal: a2, ..partner }));
        four.lemma_linked_sound(gone4, free4, n, 2, (n + 3) as usize, 1);
        four.lemma_linked_fresh(n, 2, (n + 3) as usize, 1);
        let five = four.linked(n, 2, (n + 3) as usize, 1);
        let free5 = free4.remove((n, 2)).remove(((n + 3) as usize, 1));
        five.lemma_linked_sound(gone4, free5, (n + 1) as usize, 1, (n + 2) as usize, 2);
        five.lemma_linked_fresh((n + 1) as usize, 1, (n + 2) as usize, 2);
        let six = five.linked((n + 1) as usize, 1, (n + 2) as usize, 2);
        let free6 = free5.remove(((n + 1) as usize, 1)).remove(((n + 2) as usize, 2));
        six.lemma_linked_sound(gone4, free6, n, 1, (n + 2) as usize, 1);
        six.lemma_linked_fresh(n, 1, (n + 2) as usize, 1);
        let seven = six.linked(n, 1, (n + 2) as usize, 1);
        let free7 = free6.remove((n, 1)).remove(((n + 2) as usize, 1));
        seven.lemma_linked_sound(gone4, free7, (n + 1) as usize, 2, (n + 3) as usize, 2);
        let eight = seven.linked((n + 1) as usize, 2, (n + 3) as usize, 2);
        let free8 = free7.remove(((n + 1) as usize, 2)).remove(((n + 3) as usize, 2));
        assert(free8 =~= Set::<(usize, int)>::empty());
        assert forall|x: usize| gone4.contains_key(x) implies (#[trigger] gone4[x]).idle() by {}
        eight.lemma_sound_is_wf(gone4);
    }

    /// A control agent passing through another agent keeps a net well formed.
    pub proof fn lemma_passed_wf(self, pair: Pair)
        requires
            self.sound(parted(pair), Set::empty()),
            pair.aid != pair.pid,
            pair.aid < self.agent_id,
            pair.pid < self.agent_id,
            pair.actor().kind.arity() == 2,
            pair.subject().kind.arity() == 3,
            self.can_pass(pair),
        ensures
            self.passed(pair).wf(),
    {
        let gone = parted(pair);
        let free = Set::<(usize, int)>::empty();
        let n = self.agent_id;
        let sid = pair.subject_id();
        let cid = pair.actor_id();
        let control = Agent { first: 0, second: 0, ..pair.actor() };
        let subject = Agent {
            level: (pair.subject().level + pair.shift()) as isize,
            first: 0,
            second: 0,
            ..pair.subject()
        };
        let (s1, s2, c1) = (pair.subject().first, pair.subject().second, pair.actor().first);
        assert(gone.contains_key(sid) && gone.contains_key(cid));
        assert(gone[sid] == (Agent { principal: 0, ..pair.subject() }));
        assert(gone[cid] == (Agent { principal: 0, ..pair.actor() }));
        self.lemma_spawned_sound(gone, free, control, s1, sid);
        self.lemma_spawned_fresh(control, s1, sid);
        let one = self.spawned(control, s1, sid);
        let gone1 = loosed(gone, sid, s1);
        let free1 = free + spare(n, control.kind);
        one.lemma_spawned_sound(gone1, free1, control, s2, sid);
        one.lemma_spawned_fresh(control, s2, sid);
        let two = one.spawned(control, s2, sid);
        let gone2 = loosed(gone1, sid, s2);
        let free2 = free1 + spare((n + 1) as usize, control.kind);
        assert(gone2[sid].idle());
        two.lemma_forget_sound(gone2, free2, sid);
        let gone3 = gone2.remove(sid);
        two.lemma_revived_sound(gone3, free2, sid, subject, c1, cid);
        two.lemma_revived_fresh(sid, subject, c1, cid);
        let three = two.revived(sid, subject, c1, cid);
        let gone4 = loosed(gone3, cid, c1);
        let free3 = free2 + spare(sid, subject.kind);
        assert(three.agents[sid] == (Agent { principal: c1, ..subject }));
        assert(three.agents[n] == (Agent { principal: s1, ..control }));
        assert(three.agents[(n + 1) as usize] == (Agent { principal: s2, ..control }));
        three.lemma_linked_sound(gone4, free3, sid, 1, n, 1);
        three.lemma_linked_fresh(sid, 1, n, 1);
        let four = three.linked(sid, 1, n, 1);
        let free4 = free3.remove((sid, 1)).remove((n, 1));
        four.lemma_linked_sound(gone4, free4, sid, 2, (n + 1) as usize, 1);
        let five = four.linked(sid, 2, (n + 1) as usize, 1);
        let free5 = free4.remove((sid, 2)).remove(((n + 1) as usize, 1));
        assert(free5 =~= Set::<(usize, int)>::empty());
        assert forall|x: usize| gone4.contains_key(x) implies (#[trigger] gone4[x]).idle() by {}
        five.lemma_sound_is_wf(gone4);
    }

    /// A rewrite keeps a well-formed net well formed: every port stays
    /// attached to a wire that ends at its agent, and every wire goes on
    /// joining exactly two ports.
    pub proof fn lemma_step_keeps_wf(self, id: usize)
        requires
            self.wf(),
        ensures
            self.stepped(id).wf(),
    {
        if self.fires(id) {
            let pair = self.pair_at(id)->0;
            let base = self.without_pair(pair);
            self.lemma_pair_out(id);
            match pair.rule()->0 {
                Rule::Erase => base.lemma_erased_wf(pair),
                Rule::Annihilate => base.lemma_annihilated_wf(pair),
                Rule::Cancel => base.lemma_cancelled_wf(pair),
                Rule::Duplicate => base.lemma_duplicated_wf(pair),
                Rule::Pass => base.lemma_passed_wf(pair),
            }
        }
    }
}

} // verus!
