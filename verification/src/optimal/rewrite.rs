//! The rewrite rules. A rule fires on two agents that face each other on
//! their principal ports; which rule it is depends on their kinds and on
//! whether their levels agree.

use vstd::prelude::*;
use crate::optimal::agent::{Agent, AgentKind, Wire};
use crate::optimal::net::{Net, NetView};

verus! {

broadcast use vstd::std_specs::hash::group_hash_axioms;

/// Two agents joined principal port to principal port, the one of lower
/// rank first, and the wire between them.
#[derive(Debug, Clone, Copy)]
pub struct Pair {
    pub wire: usize,
    pub aid: usize,
    pub agent: Agent,
    pub pid: usize,
    pub partner: Agent,
}

/// The rewrite rules of the net.
#[derive(Debug, Clone, Copy, PartialEq, Eq, Structural)]
pub enum Rule {
    /// An eraser deletes the agent it faces and spreads to its other ports.
    Erase,
    /// Two agents with three ports each vanish; their other ports are joined
    /// pairwise. Beta reduction is this rule on an application and a lambda.
    Annihilate,
    /// Two control agents of one kind vanish; their other ports are joined.
    Cancel,
    /// Two agents with three ports each pass through one another, each
    /// leaving two copies of itself.
    Duplicate,
    /// A control agent passes through an agent with three ports, leaving a
    /// copy of itself on each of its other ports and shifting its level.
    Pass,
}

impl Pair {
    /// The rule that applies to the pair, if there is one.
    pub open spec fn rule(self) -> Option<Rule> {
        let same = self.agent.level == self.partner.level;
        let a = self.agent.kind;
        let p = self.partner.kind;
        if same && (a == AgentKind::Eraser || p == AgentKind::Eraser) {
            Some(Rule::Erase)
        } else if same && ((a == AgentKind::Application && p == AgentKind::Lambda) || (a
            == AgentKind::Duplicator && p == AgentKind::Duplicator)) {
            Some(Rule::Annihilate)
        } else if same && ((a == AgentKind::Croissant && p == AgentKind::Croissant) || (a
            == AgentKind::Bracket && p == AgentKind::Bracket)) {
            Some(Rule::Cancel)
        } else if !same && ((a == AgentKind::Duplicator && p == AgentKind::Lambda) || (a
            == AgentKind::Application && p == AgentKind::Duplicator) || (a
            == AgentKind::Duplicator && p == AgentKind::Duplicator)) {
            Some(Rule::Duplicate)
        } else if !same && ((a == AgentKind::Croissant || a == AgentKind::Bracket) && (p
            == AgentKind::Lambda || p == AgentKind::Duplicator) || (a == AgentKind::Application
            && (p == AgentKind::Croissant || p == AgentKind::Bracket))) {
            Some(Rule::Pass)
        } else {
            None
        }
    }

    /// Whether the first agent of the pair is the one that survives or is
    /// copied under `Erase` and `Pass`: the one that is no eraser, the one
    /// that is no control agent.
    pub open spec fn first_is_subject(self) -> bool {
        match self.rule() {
            Some(Rule::Erase) => self.agent.kind != AgentKind::Eraser,
            _ => self.agent.kind != AgentKind::Croissant && self.agent.kind
                != AgentKind::Bracket,
        }
    }

    /// The id of the agent that an eraser deletes, or that a control agent
    /// passes through.
    pub open spec fn subject_id(self) -> usize {
        if self.first_is_subject() {
            self.aid
        } else {
            self.pid
        }
    }

    /// The agent that an eraser deletes, or that a control agent passes through.
    pub open spec fn subject(self) -> Agent {
        if self.first_is_subject() {
            self.agent
        } else {
            self.partner
        }
    }

    /// The id of the eraser or of the control agent.
    pub open spec fn actor_id(self) -> usize {
        if self.first_is_subject() {
            self.pid
        } else {
            self.aid
        }
    }

    /// The eraser or the control agent.
    pub open spec fn actor(self) -> Agent {
        if self.first_is_subject() {
            self.partner
        } else {
            self.agent
        }
    }

    /// By how much a control agent shifts the level of the agent that it
    /// passes through: a croissant lowers it by one, a bracket raises it by one.
    pub open spec fn shift(self) -> int {
        if self.actor().kind == AgentKind::Croissant {
            -1
        } else {
            1
        }
    }

    /// Picks the rule for the pair.
    pub fn find_rule(&self) -> (rule: Option<Rule>)
        ensures
            rule == self.rule(),
    {
        let same: bool = self.agent.level == self.partner.level;
        let a: AgentKind = self.agent.kind;
        let p: AgentKind = self.partner.kind;
        if same && (a == AgentKind::Eraser || p == AgentKind::Eraser) {
            Some(Rule::Erase)
        } else if same && ((a == AgentKind::Application && p == AgentKind::Lambda) || (a
            == AgentKind::Duplicator && p == AgentKind::Duplicator)) {
            Some(Rule::Annihilate)
        } else if same && ((a == AgentKind::Croissant && p == AgentKind::Croissant) || (a
            == AgentKind::Bracket && p == AgentKind::Bracket)) {
            Some(Rule::Cancel)
        } else if !same && ((a == AgentKind::Duplicator && p == AgentKind::Lambda) || (a
            == AgentKind::Application && p == AgentKind::Duplicator) || (a
            == AgentKind::Duplicator && p == AgentKind::Duplicator)) {
            Some(Rule::Duplicate)
        } else if !same && ((a == AgentKind::Croissant || a == AgentKind::Bracket) && (p
            == AgentKind::Lambda || p == AgentKind::Duplicator) || (a == AgentKind::Application
            && (p == AgentKind::Croissant || p == AgentKind::Bracket))) {
            Some(Rule::Pass)
        } else {
            None
        }
    }
}

/// An eraser that is about to take the end of `wire`.
pub open spec fn new_eraser() -> Agent {
    Agent { kind: AgentKind::Eraser, level: 0, principal: 0, first: 0, second: 0 }
}

impl NetView {
    /// The pair that the agent `id` forms with the agent at the other end of
    /// its principal wire. There is none unless the wire and both agents
    /// exist, the agents differ, `id` is one of them, and the wire is at the
    /// principal port of both.
    pub open spec fn pair_at(self, id: usize) -> Option<Pair> {
        if !self.agents.contains_key(id) {
            None
        } else {
            let w = self.agents[id].principal;
            if !self.wires.contains_key(w) {
                None
            } else {
                let s = self.wires[w].source;
                let t = self.wires[w].target;
                if s == t || (id != s && id != t) || !self.agents.contains_key(s)
                    || !self.agents.contains_key(t) || self.agents[s].principal != w
                    || self.agents[t].principal != w {
                    None
                } else if self.agents[s].kind.rank() <= self.agents[t].kind.rank() {
                    Some(
                        Pair {
                            wire: w,
                            aid: s,
                            agent: self.agents[s],
                            pid: t,
                            partner: self.agents[t],
                        },
                    )
                } else {
                    Some(
                        Pair {
                            wire: w,
                            aid: t,
                            agent: self.agents[t],
                            pid: s,
                            partner: self.agents[s],
                        },
                    )
                }
            }
        }
    }

    /// The net without the two agents of the pair and the wire between them.
    pub open spec fn without_pair(self, pair: Pair) -> NetView {
        self.drop_wire(pair.wire).drop_agent(pair.aid).drop_agent(pair.pid)
    }

    /// Whether the two wires can be joined: both exist and, unless they are
    /// one and the same, `connected` finds what it needs.
    pub open spec fn can_join(self, end1: usize, wire1: usize, end2: usize, wire2: usize)
        -> bool {
        &&& self.wires.contains_key(wire1)
        &&& self.wires.contains_key(wire2)
        &&& wire1 == wire2 || self.can_connect(end1, wire1, end2, wire2)
    }

    /// The net with the two wires joined into one. Where they are one and
    /// the same wire, both of its ends were on agents that are gone, and the
    /// wire goes too.
    pub open spec fn joined(self, end1: usize, wire1: usize, end2: usize, wire2: usize)
        -> NetView {
        if wire1 == wire2 {
            self.drop_wire(wire1)
        } else {
            self.connected(end1, wire1, end2, wire2)
        }
    }

    /// The net with a new agent that takes over the end of `wire` that
    /// `from` held: the agent is `record` with the wire at its principal port.
    pub open spec fn spawned(self, record: Agent, wire: usize, from: usize) -> NetView {
        self.with_agent(Agent { principal: wire, ..record }).replaced(
            0,
            wire,
            from,
            self.agent_id,
        )
    }

    /// The net with the agent `record` put under `id`, where it takes over
    /// the end of `wire` that `from` held.
    pub open spec fn revived(self, id: usize, record: Agent, wire: usize, from: usize)
        -> NetView {
        self.put_agent(id, Agent { principal: wire, ..record }).replaced(0, wire, from, id)
    }

    /// The net with a new wire between port `i` of the agent `x` and port
    /// `j` of the agent `y`.
    pub open spec fn linked(self, x: usize, i: int, y: usize, j: int) -> NetView {
        self.with_wire(Wire { source: x, target: y }).with_port(x, i, self.wire_id).with_port(
            y,
            j,
            self.wire_id,
        )
    }

    /// Whether the net, the pair already taken out, has what `erased` needs:
    /// the wires at the other ports of the deleted agent, and an unused id
    /// for each new eraser.
    pub open spec fn can_erase(self, pair: Pair) -> bool {
        let arity = pair.subject().kind.arity();
        &&& arity >= 2 ==> self.wires.contains_key(pair.subject().first)
        &&& arity >= 3 ==> self.wires.contains_key(pair.subject().second)
        &&& self.agents_free((arity - 1) as nat)
    }

    /// The net, the pair already taken out, after the eraser has done its
    /// work: each wire that led to another port of the deleted agent now
    /// ends in a new eraser.
    pub open spec fn erased(self, pair: Pair) -> NetView {
        let arity = pair.subject().kind.arity();
        let one = if arity >= 2 {
            self.spawned(new_eraser(), pair.subject().first, pair.subject_id())
        } else {
            self
        };
        if arity >= 3 {
            one.spawned(new_eraser(), pair.subject().second, pair.subject_id())
        } else {
            one
        }
    }

    /// Whether the net, the pair already taken out, has what `annihilated`
    /// needs: the wires at the other four ports, the agents at their far
    /// ends, and unused ids for the wires that join them.
    pub open spec fn can_annihilate(self, pair: Pair) -> bool {
        let a1 = pair.agent.first;
        let a2 = pair.agent.second;
        let b1 = pair.partner.first;
        let b2 = pair.partner.second;
        &&& self.wires.contains_key(a1)
        &&& self.wires.contains_key(a2)
        &&& self.wires.contains_key(b1)
        &&& self.wires.contains_key(b2)
        &&& if a1 == a2 {
            self.drop_wire(a1).can_join(pair.pid, b1, pair.pid, b2)
        } else if b1 == b2 {
            self.drop_wire(b1).can_join(pair.aid, a1, pair.aid, a2)
        } else if a1 == b1 {
            self.drop_wire(a1).can_join(pair.aid, a2, pair.pid, b2)
        } else if a2 == b2 {
            self.drop_wire(a2).can_join(pair.aid, a1, pair.pid, b1)
        } else if a1 == b2 {
            self.drop_wire(a1).can_join(pair.pid, b1, pair.aid, a2)
        } else if a2 == b1 {
            self.drop_wire(a2).can_join(pair.aid, a1, pair.pid, b2)
        } else {
            &&& self.agents.contains_key(self.partner(pair.aid, a1))
            &&& self.agents.contains_key(self.partner(pair.aid, a2))
            &&& self.agents.contains_key(self.partner(pair.pid, b1))
            &&& self.agents.contains_key(self.partner(pair.pid, b2))
            &&& self.wires_free(2)
        }
    }

    /// The net, the pair already taken out, with the first ports of the two
    /// agents joined and their second ports joined. A wire that ran between
    /// two of the four ports is shorted: it goes, and what it linked is
    /// joined through it.
    pub open spec fn annihilated(self, pair: Pair) -> NetView {
        let a1 = pair.agent.first;
        let a2 = pair.agent.second;
        let b1 = pair.partner.first;
        let b2 = pair.partner.second;
        if a1 == a2 {
            self.drop_wire(a1).joined(pair.pid, b1, pair.pid, b2)
        } else if b1 == b2 {
            self.drop_wire(b1).joined(pair.aid, a1, pair.aid, a2)
        } else if a1 == b1 {
            self.drop_wire(a1).joined(pair.aid, a2, pair.pid, b2)
        } else if a2 == b2 {
            self.drop_wire(a2).joined(pair.aid, a1, pair.pid, b1)
        } else if a1 == b2 {
            self.drop_wire(a1).joined(pair.pid, b1, pair.aid, a2)
        } else if a2 == b1 {
            self.drop_wire(a2).joined(pair.aid, a1, pair.pid, b2)
        } else {
            self.connected(pair.aid, a1, pair.pid, b1).connected(pair.aid, a2, pair.pid, b2)
        }
    }

    /// Whether the net, the pair already taken out, has what `cancelled` needs.
    pub open spec fn can_cancel(self, pair: Pair) -> bool {
        self.can_join(pair.aid, pair.agent.first, pair.pid, pair.partner.first)
    }

    /// The net, the pair already taken out, with the first ports of the two
    /// control agents joined.
    pub open spec fn cancelled(self, pair: Pair) -> NetView {
        self.joined(pair.aid, pair.agent.first, pair.pid, pair.partner.first)
    }

    /// Whether the net, the pair already taken out, has what `duplicated`
    /// needs: the wires at the other four ports, and unused ids for four
    /// agents and four wires.
    pub open spec fn can_duplicate(self, pair: Pair) -> bool {
        &&& self.wires.contains_key(pair.agent.first)
        &&& self.wires.contains_key(pair.agent.second)
        &&& self.wires.contains_key(pair.partner.first)
        &&& self.wires.contains_key(pair.partner.second)
        &&& self.agents_free(4)
        &&& self.wires_free(4)
    }

    /// The net, the pair already taken out, after the two agents have passed
    /// through one another. Two copies of the first agent now face the wires
    /// that the second held at its other ports, two copies of the second
    /// face the wires that the first held, and four new wires join each copy
    /// of the one with each copy of the other.
    pub open spec fn duplicated(self, pair: Pair) -> NetView {
        let n = self.agent_id;
        let agent = Agent { first: 0, second: 0, ..pair.agent };
        let partner = Agent { first: 0, second: 0, ..pair.partner };
        self.spawned(agent, pair.partner.first, pair.pid).spawned(
            agent,
            pair.partner.second,
            pair.pid,
        ).spawned(partner, pair.agent.first, pair.aid).spawned(
            partner,
            pair.agent.second,
            pair.aid,
        ).linked(n, 2, (n + 3) as usize, 1).linked((n + 1) as usize, 1, (n + 2) as usize, 2).linked(
            n,
            1,
            (n + 2) as usize,
            1,
        ).linked((n + 1) as usize, 2, (n + 3) as usize, 2)
    }

    /// Whether the net, the pair already taken out, has what `passed` needs:
    /// the wires at the other three ports, unused ids for two agents and two
    /// wires, and room for the shifted level.
    pub open spec fn can_pass(self, pair: Pair) -> bool {
        &&& self.wires.contains_key(pair.actor().first)
        &&& self.wires.contains_key(pair.subject().first)
        &&& self.wires.contains_key(pair.subject().second)
        &&& self.agents_free(2)
        &&& self.wires_free(2)
        &&& isize::MIN <= pair.subject().level + pair.shift() <= isize::MAX
    }

    /// The net, the pair already taken out, after the control agent has
    /// passed through the other agent. That agent keeps its id, has its
    /// level shifted, and faces the wire that the control agent held at its
    /// first port. A copy of the control agent faces each wire that the
    /// agent held at its other ports, and a new wire joins each copy to it.
    pub open spec fn passed(self, pair: Pair) -> NetView {
        let n = self.agent_id;
        let control = Agent { first: 0, second: 0, ..pair.actor() };
        let subject = Agent {
            level: (pair.subject().level + pair.shift()) as isize,
            first: 0,
            second: 0,
            ..pair.subject()
        };
        self.spawned(control, pair.subject().first, pair.subject_id()).spawned(
            control,
            pair.subject().second,
            pair.subject_id(),
        ).revived(pair.subject_id(), subject, pair.actor().first, pair.actor_id()).linked(
            pair.subject_id(),
            1,
            n,
            1,
        ).linked(pair.subject_id(), 2, (n + 1) as usize, 1)
    }

    /// Whether the net, the pair already taken out, has what the rule needs.
    pub open spec fn can_apply(self, pair: Pair, rule: Rule) -> bool {
        match rule {
            Rule::Erase => self.can_erase(pair),
            Rule::Annihilate => self.can_annihilate(pair),
            Rule::Cancel => self.can_cancel(pair),
            Rule::Duplicate => self.can_duplicate(pair),
            Rule::Pass => self.can_pass(pair),
        }
    }

    /// The net, the pair already taken out, after the rule.
    pub open spec fn applied(self, pair: Pair, rule: Rule) -> NetView {
        match rule {
            Rule::Erase => self.erased(pair),
            Rule::Annihilate => self.annihilated(pair),
            Rule::Cancel => self.cancelled(pair),
            Rule::Duplicate => self.duplicated(pair),
            Rule::Pass => self.passed(pair),
        }
    }

    /// Whether a rewrite fires at the agent `id`: it forms a pair, a rule
    /// applies to the pair, and the net has what the rule needs.
    pub open spec fn fires(self, id: usize) -> bool {
        match self.pair_at(id) {
            Some(pair) => match pair.rule() {
                Some(rule) => self.without_pair(pair).can_apply(pair, rule),
                None => false,
            },
            None => false,
        }
    }

    /// The net after one rewrite at the agent `id`; the net itself where
    /// none fires.
    pub open spec fn stepped(self, id: usize) -> NetView {
        if self.fires(id) {
            let pair = self.pair_at(id)->0;
            self.without_pair(pair).applied(pair, pair.rule()->0)
        } else {
            self
        }
    }
}

impl Net {
    /// Finds the pair that the agent `id` forms on its principal wire.
    pub fn pair_at(&self, id: usize) -> (pair: Option<Pair>)
        ensures
            pair == self@.pair_at(id),
    {
        let agent: Agent = match self.agent(id) {
            Some(agent) => agent,
            None => {
                return None;
            },
        };
        let w: usize = agent.principal;
        let wire: Wire = match self.wire(w) {
            Some(wire) => wire,
            None => {
                return None;
            },
        };
        let s: usize = wire.source;
        let t: usize = wire.target;
        if s == t || (id != s && id != t) {
            return None;
        }
        let source: Agent = match self.agent(s) {
            Some(agent) => agent,
            None => {
                return None;
            },
        };
        let target: Agent = match self.agent(t) {
            Some(agent) => agent,
            None => {
                return None;
            },
        };
        if source.principal != w || target.principal != w {
            return None;
        }
        if source.kind.position() <= target.kind.position() {
            Some(Pair { wire: w, aid: s, agent: source, pid: t, partner: target })
        } else {
            Some(Pair { wire: w, aid: t, agent: target, pid: s, partner: source })
        }
    }

    fn join(&mut self, end1: usize, wire1: usize, end2: usize, wire2: usize) -> (done: bool)
        ensures
            done == old(self)@.can_join(end1, wire1, end2, wire2),
            done ==> final(self)@ == old(self)@.joined(end1, wire1, end2, wire2),
            !done ==> final(self)@ == old(self)@,
    {
        let one: Wire = match self.wire(wire1) {
            Some(wire) => wire,
            None => {
                return false;
            },
        };
        let two: Wire = match self.wire(wire2) {
            Some(wire) => wire,
            None => {
                return false;
            },
        };
        if wire1 == wire2 {
            self.drop_wire(wire1);
            return true;
        }
        let far1: usize = if end1 == one.source {
            one.target
        } else {
            one.source
        };
        let far2: usize = if end2 == two.source {
            two.target
        } else {
            two.source
        };
        if self.agent(far1).is_none() || self.agent(far2).is_none() || !self.wires_free(1) {
            return false;
        }
        self.connect(end1, wire1, end2, wire2);
        true
    }

    fn spawn(&mut self, record: Agent, wire: usize, from: usize) -> (id: usize)
        requires
            old(self).agent_id < usize::MAX,
            old(self)@.wires.contains_key(wire),
        ensures
            id == old(self).agent_id,
            final(self)@ == old(self)@.spawned(record, wire, from),
    {
        let id: usize = self.add_agent(Agent { principal: wire, ..record });
        self.replace(0, wire, from, id);
        id
    }

    fn revive(&mut self, id: usize, record: Agent, wire: usize, from: usize)
        requires
            old(self)@.wires.contains_key(wire),
        ensures
            final(self)@ == old(self)@.revived(id, record, wire, from),
    {
        self.put_agent(id, Agent { principal: wire, ..record });
        self.replace(0, wire, from, id);
    }

    fn link(&mut self, x: usize, i: usize, y: usize, j: usize)
        requires
            old(self).wire_id < usize::MAX,
            old(self)@.agents.contains_key(x),
            old(self)@.agents.contains_key(y),
            i < 3,
            j < 3,
        ensures
            final(self)@ == old(self)@.linked(x, i as int, y, j as int),
    {
        let id: usize = self.add_wire(Wire::new(x, y));
        self.set_port(x, i, id);
        self.set_port(y, j, id);
    }

    fn erase(&mut self, pair: &Pair) -> (done: bool)
        requires
            pair.rule() == Some(Rule::Erase),
        ensures
            done == old(self)@.can_erase(*pair),
            done ==> final(self)@ == old(self)@.erased(*pair),
            !done ==> final(self)@ == old(self)@,
    {
        let (subject, subject_id): (Agent, usize) = if pair.agent.kind == AgentKind::Eraser {
            (pair.partner, pair.pid)
        } else {
            (pair.agent, pair.aid)
        };
        let arity: usize = subject.len();
        if arity >= 2 && self.wire(subject.first).is_none() {
            return false;
        }
        if arity >= 3 && self.wire(subject.second).is_none() {
            return false;
        }
        if !self.agents_free(arity - 1) {
            return false;
        }
        let eraser = Agent {
            kind: AgentKind::Eraser,
            level: 0,
            principal: 0,
            first: 0,
            second: 0,
        };
        if arity >= 2 {
            self.spawn(eraser, subject.first, subject_id);
        }
        if arity >= 3 {
            self.spawn(eraser, subject.second, subject_id);
        }
        true
    }

    fn short(&mut self, gone: usize, end1: usize, wire1: usize, end2: usize, wire2: usize)
        -> (done: bool)
        requires
            old(self)@.wires.contains_key(gone),
        ensures
            done == old(self)@.drop_wire(gone).can_join(end1, wire1, end2, wire2),
            done ==> final(self)@ == old(self)@.drop_wire(gone).joined(end1, wire1, end2, wire2),
            !done ==> final(self)@ == old(self)@,
    {
        let kept: Wire = self.wire(gone).unwrap();
        self.drop_wire(gone);
        let done: bool = self.join(end1, wire1, end2, wire2);
        if !done {
            self.put_wire(gone, kept);
            assert(self@ =~= old(self)@);
        }
        done
    }

    fn annihilate(&mut self, pair: &Pair) -> (done: bool)
        ensures
            done == old(self)@.can_annihilate(*pair),
            done ==> final(self)@ == old(self)@.annihilated(*pair),
            !done ==> final(self)@ == old(self)@,
    {
        let a1: usize = pair.agent.first;
        let a2: usize = pair.agent.second;
        let b1: usize = pair.partner.first;
        let b2: usize = pair.partner.second;
        let (one, two, three, four) = (self.wire(a1), self.wire(a2), self.wire(b1), self.wire(b2));
        if one.is_none() || two.is_none() || three.is_none() || four.is_none() {
            return false;
        }
        if a1 == a2 {
            self.short(a1, pair.pid, b1, pair.pid, b2)
        } else if b1 == b2 {
            self.short(b1, pair.aid, a1, pair.aid, a2)
        } else if a1 == b1 {
            self.short(a1, pair.aid, a2, pair.pid, b2)
        } else if a2 == b2 {
            self.short(a2, pair.aid, a1, pair.pid, b1)
        } else if a1 == b2 {
            self.short(a1, pair.pid, b1, pair.aid, a2)
        } else if a2 == b1 {
            self.short(a2, pair.aid, a1, pair.pid, b2)
        } else {
            let far1: usize = self.partner(pair.aid, a1);
            let far2: usize = self.partner(pair.aid, a2);
            let far3: usize = self.partner(pair.pid, b1);
            let far4: usize = self.partner(pair.pid, b2);
            if self.agent(far1).is_none() || self.agent(far2).is_none() || self.agent(
                far3,
            ).is_none() || self.agent(far4).is_none() || !self.wires_free(2) {
                return false;
            }
            self.connect(pair.aid, a1, pair.pid, b1);
            self.connect(pair.aid, a2, pair.pid, b2);
            true
        }
    }

    fn cancel(&mut self, pair: &Pair) -> (done: bool)
        ensures
            done == old(self)@.can_cancel(*pair),
            done ==> final(self)@ == old(self)@.cancelled(*pair),
            !done ==> final(self)@ == old(self)@,
    {
        self.join(pair.aid, pair.agent.first, pair.pid, pair.partner.first)
    }

    fn duplicate(&mut self, pair: &Pair) -> (done: bool)
        ensures
            done == old(self)@.can_duplicate(*pair),
            done ==> final(self)@ == old(self)@.duplicated(*pair),
            !done ==> final(self)@ == old(self)@,
    {
        let a1: usize = pair.agent.first;
        let a2: usize = pair.agent.second;
        let b1: usize = pair.partner.first;
        let b2: usize = pair.partner.second;
        if self.wire(a1).is_none() || self.wire(a2).is_none() || self.wire(b1).is_none()
            || self.wire(b2).is_none() || !self.agents_free(4) || !self.wires_free(4) {
            return false;
        }
        let agent = Agent { first: 0, second: 0, ..pair.agent };
        let partner = Agent { first: 0, second: 0, ..pair.partner };
        let agent1: usize = self.spawn(agent, b1, pair.pid);
        let agent2: usize = self.spawn(agent, b2, pair.pid);
        let partner1: usize = self.spawn(partner, a1, pair.aid);
        let partner2: usize = self.spawn(partner, a2, pair.aid);
        self.link(agent1, 2, partner2, 1);
        self.link(agent2, 1, partner1, 2);
        self.link(agent1, 1, partner1, 1);
        self.link(agent2, 2, partner2, 2);
        true
    }

    fn pass(&mut self, pair: &Pair) -> (done: bool)
        requires
            pair.rule() == Some(Rule::Pass),
        ensures
            done == old(self)@.can_pass(*pair),
            done ==> final(self)@ == old(self)@.passed(*pair),
            !done ==> final(self)@ == old(self)@,
    {
        let first_is_subject: bool = pair.agent.kind != AgentKind::Croissant && pair.agent.kind
            != AgentKind::Bracket;
        let (actor, actor_id, subject, subject_id): (Agent, usize, Agent, usize) =
            if first_is_subject {
            (pair.partner, pair.pid, pair.agent, pair.aid)
        } else {
            (pair.agent, pair.aid, pair.partner, pair.pid)
        };
        let lowers: bool = actor.kind == AgentKind::Croissant;
        if self.wire(actor.first).is_none() || self.wire(subject.first).is_none() || self.wire(
            subject.second,
        ).is_none() || !self.agents_free(2) || !self.wires_free(2) {
            return false;
        }
        if lowers && subject.level == isize::MIN {
            return false;
        }
        if !lowers && subject.level == isize::MAX {
            return false;
        }
        let level: isize = if lowers {
            subject.level - 1
        } else {
            subject.level + 1
        };
        let control = Agent { first: 0, second: 0, ..actor };
        let moved = Agent { level, first: 0, second: 0, ..subject };
        let control1: usize = self.spawn(control, subject.first, subject_id);
        let control2: usize = self.spawn(control, subject.second, subject_id);
        self.revive(subject_id, moved, actor.first, actor_id);
        self.link(subject_id, 1, control1, 1);
        self.link(subject_id, 2, control2, 1);
        true
    }

    /// Performs one rewrite at the agent `id`, if one fires there, and tells
    /// whether it did. A net in which none fires is left as it was.
    pub fn reduction_step(&mut self, id: usize) -> (fired: bool)
        ensures
            fired == old(self)@.fires(id),
            final(self)@ == old(self)@.stepped(id),
            old(self)@.wf() ==> final(self)@.wf(),
    {
        proof {
            if old(self)@.wf() {
                old(self)@.lemma_step_keeps_wf(id);
            }
        }
        let pair: Pair = match self.pair_at(id) {
            Some(pair) => pair,
            None => {
                return false;
            },
        };
        let rule: Rule = match pair.find_rule() {
            Some(rule) => rule,
            None => {
                return false;
            },
        };
        let wire: Wire = self.wire(pair.wire).unwrap();
        self.drop_wire(pair.wire);
        self.drop_agent(pair.aid);
        self.drop_agent(pair.pid);
        let fired: bool = match rule {
            Rule::Erase => self.erase(&pair),
            Rule::Annihilate => self.annihilate(&pair),
            Rule::Cancel => self.cancel(&pair),
            Rule::Duplicate => self.duplicate(&pair),
            Rule::Pass => self.pass(&pair),
        };
        if !fired {
            self.put_wire(pair.wire, wire);
            self.put_agent(pair.aid, pair.agent);
            self.put_agent(pair.pid, pair.partner);
            assert(self@ =~= old(self)@);
        }
        fired
    }
}

} // verus!
