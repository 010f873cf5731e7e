//! Normalising a net: rewrites are made from a queue of candidates until no
//! application faces a lambda of its own level any more.

use vstd::prelude::*;
use std::collections::VecDeque;
use crate::optimal::agent::{Agent, AgentKind};
use crate::optimal::net::{Net, NetView};
use crate::optimal::rewrite::{Pair, Rule};
use crate::strategy::{Strategy, STEP_LIMIT};
use crate::tree::Tree;
use vstd::string::StringExecFns;

verus! {

broadcast use vstd::std_specs::hash::group_hash_axioms;

impl NetView {
    /// Whether the agent `id` is one of the two agents of a beta redex: an
    /// application and a lambda of one level, joined principal port to
    /// principal port.
    pub open spec fn beta_at(self, id: usize) -> bool {
        match self.pair_at(id) {
            Some(pair) => pair.agent.kind == AgentKind::Application && pair.partner.kind
                == AgentKind::Lambda && pair.agent.level == pair.partner.level,
            None => false,
        }
    }

    /// The ids below `end` of the agents of beta redexes, in rising order.
    pub open spec fn betas_below(self, end: nat) -> Seq<usize>
        decreases end,
    {
        if end == 0 {
            Seq::empty()
        } else {
            let rest = self.betas_below((end - 1) as nat);
            if end - 1 <= usize::MAX && self.beta_at((end - 1) as usize) {
                rest.push((end - 1) as usize)
            } else {
                rest
            }
        }
    }

    /// The agents that the agent `id` reaches through its ports other than
    /// the principal one, in the order of the ports. A port whose wire is
    /// missing gives none.
    pub open spec fn branches(self, id: usize) -> Seq<usize> {
        if !self.agents.contains_key(id) {
            Seq::empty()
        } else {
            let agent = self.agents[id];
            let one = if agent.kind.arity() >= 2 && self.wires.contains_key(agent.first) {
                seq![self.partner(id, agent.first)]
            } else {
                Seq::empty()
            };
            if agent.kind.arity() >= 3 && self.wires.contains_key(agent.second) {
                one.push(self.partner(id, agent.second))
            } else {
                one
            }
        }
    }

    /// The net after the candidates in `queue` have been worked off, and
    /// whether the work was finished within `fuel` turns.
    ///
    /// A turn takes the first candidate from the queue. If a rewrite fires
    /// at it, the rewrite is made and the agents that the candidate reached
    /// through its other ports join the end of the queue. When the queue is
    /// empty, the agents of all beta redexes form the next queue; the work
    /// is finished when there are none.
    pub open spec fn drained(self, queue: Seq<usize>, fuel: nat) -> (NetView, bool)
        decreases fuel,
    {
        if queue.len() == 0 {
            let found = self.betas_below(self.agent_id as nat);
            if found.len() == 0 {
                (self, true)
            } else if fuel == 0 {
                (self, false)
            } else {
                self.drained(found, (fuel - 1) as nat)
            }
        } else if fuel == 0 {
            (self, false)
        } else if self.fires(queue[0]) {
            self.stepped(queue[0]).drained(
                queue.drop_first() + self.branches(queue[0]),
                (fuel - 1) as nat,
            )
        } else {
            self.drained(queue.drop_first(), (fuel - 1) as nat)
        }
    }

    /// The net after normalisation, and whether it was finished within
    /// `fuel` turns.
    pub open spec fn reduced(self, fuel: nat) -> (NetView, bool) {
        self.drained(Seq::empty(), fuel)
    }

    /// Where the list of the agents of beta redexes below `end` is empty, no
    /// agent below `end` is one.
    pub proof fn lemma_no_betas_listed(self, end: nat, id: usize)
        requires
            self.betas_below(end).len() == 0,
            id < end,
        ensures
            !self.beta_at(id),
        decreases end,
    {
        if id < end - 1 {
            self.lemma_no_betas_listed((end - 1) as nat, id);
        }
    }

    /// A rewrite leaves every id in use below the counters.
    pub proof fn lemma_step_keeps_fresh(self, id: usize)
        requires
            self.fresh(),
        ensures
            self.stepped(id).fresh(),
    {
        if self.fires(id) {
            let pair = self.pair_at(id)->0;
            let base = self.without_pair(pair);
            assert(base.fresh());
            match pair.rule()->0 {
                Rule::Erase => base.lemma_erased_fresh(pair),
                Rule::Annihilate => base.lemma_annihilated_fresh(pair),
                Rule::Cancel => base.lemma_joined_fresh(
                    pair.aid,
                    pair.agent.first,
                    pair.pid,
                    pair.partner.first,
                ),
                Rule::Duplicate => base.lemma_duplicated_fresh(pair),
                Rule::Pass => base.lemma_passed_fresh(pair),
            }
        }
    }

    /// Working off a queue leaves every id in use below the counters.
    pub proof fn lemma_drained_keeps_fresh(self, queue: Seq<usize>, fuel: nat)
        requires
            self.fresh(),
        ensures
            self.drained(queue, fuel).0.fresh(),
        decreases fuel,
    {
        if queue.len() == 0 {
            let found = self.betas_below(self.agent_id as nat);
            if found.len() != 0 && fuel != 0 {
                self.lemma_drained_keeps_fresh(found, (fuel - 1) as nat);
            }
        } else if fuel != 0 {
            if self.fires(queue[0]) {
                self.lemma_step_keeps_fresh(queue[0]);
                self.stepped(queue[0]).lemma_drained_keeps_fresh(
                    queue.drop_first() + self.branches(queue[0]),
                    (fuel - 1) as nat,
                );
            } else {
                self.lemma_drained_keeps_fresh(queue.drop_first(), (fuel - 1) as nat);
            }
        }
    }

    /// Working off a queue keeps a well-formed net well formed.
    pub proof fn lemma_drained_keeps_wf(self, queue: Seq<usize>, fuel: nat)
        requires
            self.wf(),
        ensures
            self.drained(queue, fuel).0.wf(),
        decreases fuel,
    {
        if queue.len() == 0 {
            let found = self.betas_below(self.agent_id as nat);
            if found.len() != 0 && fuel != 0 {
                self.lemma_drained_keeps_wf(found, (fuel - 1) as nat);
            }
        } else if fuel != 0 {
            if self.fires(queue[0]) {
                self.lemma_step_keeps_wf(queue[0]);
                self.stepped(queue[0]).lemma_drained_keeps_wf(
                    queue.drop_first() + self.branches(queue[0]),
                    (fuel - 1) as nat,
                );
            } else {
                self.lemma_drained_keeps_wf(queue.drop_first(), (fuel - 1) as nat);
            }
        }
    }

    /// In a net whose work was finished, no application faces a lambda of
    /// its own level on the principal ports of both.
    pub proof fn lemma_drained_has_no_beta(self, queue: Seq<usize>, fuel: nat, id: usize)
        requires
            self.fresh(),
            self.drained(queue, fuel).1,
        ensures
            !self.drained(queue, fuel).0.beta_at(id),
        decreases fuel,
    {
        if queue.len() == 0 {
            let found = self.betas_below(self.agent_id as nat);
            if found.len() == 0 {
                if id < self.agent_id {
                    self.lemma_no_betas_listed(self.agent_id as nat, id);
                }
            } else if fuel != 0 {
                self.lemma_drained_has_no_beta(found, (fuel - 1) as nat, id);
            }
        } else if fuel != 0 {
            if self.fires(queue[0]) {
                self.lemma_step_keeps_fresh(queue[0]);
                self.stepped(queue[0]).lemma_drained_has_no_beta(
                    queue.drop_first() + self.branches(queue[0]),
                    (fuel - 1) as nat,
                    id,
                );
            } else {
                self.lemma_drained_has_no_beta(queue.drop_first(), (fuel - 1) as nat, id);
            }
        }
    }

    /// After a normalisation that was finished, no beta redex is left.
    pub proof fn lemma_reduced_has_no_beta(self, fuel: nat, id: usize)
        requires
            self.fresh(),
            self.reduced(fuel).1,
        ensures
            !self.reduced(fuel).0.beta_at(id),
    {
        self.lemma_drained_has_no_beta(Seq::empty(), fuel, id);
    }
}

impl Net {
    /// Tells whether the agent `id` is one of the two agents of a beta redex.
    pub fn beta_at(&self, id: usize) -> (found: bool)
        ensures
            found == self@.beta_at(id),
    {
        match self.pair_at(id) {
            Some(pair) => pair.agent.kind == AgentKind::Application && pair.partner.kind
                == AgentKind::Lambda && pair.agent.level == pair.partner.level,
            None => false,
        }
    }

    /// Lists the agents of all beta redexes, by rising id.
    pub fn find_beta_pairs(&self) -> (found: VecDeque<usize>)
        ensures
            found@ == self@.betas_below(self.agent_id as nat),
    {
        let mut found: VecDeque<usize> = VecDeque::new();
        let mut id: usize = 0;
        while id < self.agent_id
            invariant
                id <= self.agent_id,
                found@ == self@.betas_below(id as nat),
            decreases self.agent_id - id,
        {
            if self.beta_at(id) {
                found.push_back(id);
            }
            id = id + 1;
        }
        found
    }

    /// Lists the agents that the agent `id` reaches through its ports other
    /// than the principal one.
    pub fn branches(&self, id: usize) -> (reached: Vec<usize>)
        ensures
            reached@ == self@.branches(id),
    {
        let mut reached: Vec<usize> = Vec::new();
        let agent: Agent = match self.agent(id) {
            Some(agent) => agent,
            None => {
                return reached;
            },
        };
        let arity: usize = agent.len();
        if arity >= 2 {
            if let Some(wire) = self.wire(agent.first) {
                reached.push(if id == wire.source { wire.target } else { wire.source });
            }
        }
        if arity >= 3 {
            if let Some(wire) = self.wire(agent.second) {
                reached.push(if id == wire.source { wire.target } else { wire.source });
            }
        }
        reached
    }

    /// Normalises the net in at most `limit` turns and tells whether the
    /// work was finished.
    pub fn reduce_within(&mut self, limit: u64) -> (finished: bool)
        ensures
            (final(self)@, finished) == old(self)@.reduced(limit as nat),
            old(self)@.wf() ==> final(self)@.wf(),
            old(self)@.wf() && finished ==> forall|id: usize| !final(self)@.beta_at(id),
    {
        proof {
            if old(self)@.wf() {
                old(self)@.lemma_drained_keeps_wf(Seq::empty(), limit as nat);
                if old(self)@.reduced(limit as nat).1 {
                    assert forall|id: usize| !old(self)@.reduced(limit as nat).0.beta_at(id) by {
                        old(self)@.lemma_reduced_has_no_beta(limit as nat, id);
                    }
                }
            }
        }
        let mut queue: VecDeque<usize> = VecDeque::new();
        let mut left: u64 = limit;
        loop
            invariant
                self@.drained(queue@, left as nat) == old(self)@.reduced(limit as nat),
                old(self)@.wf() ==> old(self)@.reduced(limit as nat).0.wf(),
                old(self)@.wf() && old(self)@.reduced(limit as nat).1 ==> forall|id: usize|
                    !old(self)@.reduced(limit as nat).0.beta_at(id),
            decreases left,
        {
            match queue.pop_front() {
                None => {
                    queue = self.find_beta_pairs();
                    if queue.len() == 0 {
                        return true;
                    }
                    if left == 0 {
                        return false;
                    }
                },
                Some(id) => {
                    if left == 0 {
                        return false;
                    }
                    let reached: Vec<usize> = self.branches(id);
                    if self.reduction_step(id) {
                        let ghost before = queue@;
                        let mut i: usize = 0;
                        while i < reached.len()
                            invariant
                                i <= reached.len(),
                                queue@ == before + reached@.take(i as int),
                            decreases reached.len() - i,
                        {
                            queue.push_back(reached[i]);
                            assert(reached@.take(i + 1) == reached@.take(i as int).push(
                                reached@[i as int],
                            ));
                            i = i + 1;
                        }
                        assert(reached@.take(reached.len() as int) == reached@);
                    }
                },
            }
            left = left - 1;
        }
    }
}

impl NetView {
    /// The net that the engine holds once it is loaded with `tree`: the net
    /// of the term, or the empty net where the term has none.
    pub open spec fn loaded(tree: Tree) -> NetView {
        match NetView::built(tree) {
            Some(net) => net,
            None => NetView::empty(),
        }
    }

    /// The state that the engine has after `tree` is loaded into it,
    /// whatever state `self` it had before.
    pub open spec fn rebuilt(self, tree: Tree) -> NetView {
        NetView::loaded(tree)
    }

    /// Loading a term leaves nothing of the state that the engine had
    /// before: what it then gives depends on the term alone.
    pub proof fn lemma_build_forgets(self, other: NetView, tree: Tree, fuel: nat)
        ensures
            self.rebuilt(tree) == other.rebuilt(tree),
            self.rebuilt(tree).outcome(fuel) == other.rebuilt(tree).outcome(fuel),
    {
    }

    /// Loading and normalising the same term a second time, on the engine
    /// that has normalised it before, gives the same number.
    pub proof fn lemma_rerun_repeats(self, tree: Tree, fuel: nat)
        ensures
            self.rebuilt(tree).finished(fuel).rebuilt(tree).outcome(fuel) == self.rebuilt(
                tree,
            ).outcome(fuel),
    {
    }

    /// A net without a beta redex is left as it is.
    pub proof fn lemma_reduce_keeps_normal_form(self, fuel: nat)
        requires
            self.betas_below(self.agent_id as nat).len() == 0,
        ensures
            self.reduced(fuel) == (self, true),
    {
    }

    /// The net after normalisation in at most `fuel` turns.
    pub open spec fn finished(self, fuel: nat) -> NetView {
        self.reduced(fuel).0
    }

    /// The number that the net gives once it is normalised: the readout of
    /// the term read back, or nothing where the work was not finished, the
    /// net reads back as no term, or the term is no Church numeral.
    pub open spec fn outcome(self, fuel: nat) -> Option<u64> {
        if !self.reduced(fuel).1 {
            None
        } else {
            match self.reduced(fuel).0.read_back() {
                Some(tree) => match tree.church_value() {
                    Some(n) if n <= u64::MAX => Some(n as u64),
                    _ => None,
                },
                None => None,
            }
        }
    }
}

impl Strategy for Net {
    open spec fn loaded_with(&self, tree: Tree) -> bool {
        self@ == NetView::loaded(tree)
    }

    open spec fn result(&self) -> Option<u64> {
        self@.outcome(STEP_LIMIT as nat)
    }

    /// Loads the net of the term; the empty net where the term has none.
    fn build(&mut self, tree: &Tree)
        ensures
            final(self)@ == old(self)@.rebuilt(*tree),
    {
        match Net::checked_from_tree(tree) {
            Some(net) => {
                *self = net;
            },
            None => {
                *self = Net::new();
            },
        }
    }

    /// Normalises the net and reads the result.
    fn reduce(&mut self) -> (value: Option<u64>)
        ensures
            value == old(self)@.outcome(STEP_LIMIT as nat),
            final(self)@ == old(self)@.finished(STEP_LIMIT as nat),
    {
        if !self.reduce_within(STEP_LIMIT) {
            return None;
        }
        match self.to_tree() {
            Some(tree) => tree.convert(),
            None => None,
        }
    }

    fn name(&self) -> (name: String)
        ensures
            name@ == "optimal"@,
    {
        String::from_str("optimal")
    }
}

} // verus!
