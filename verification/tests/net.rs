use lambda_reducers::optimal::AgentKind::{
    Application, Bracket, Croissant, Duplicator, Eraser, Lambda, Root,
};
use lambda_reducers::optimal::{order, Agent, AgentKind, Net, Pair, Rule, Wire, GAS};
use lambda_reducers::strategy::Strategy;
use lambda_reducers::tree::Tree;
use std::collections::HashMap;

fn xv(x: usize) -> Tree {
    Tree::Var(x)
}

fn xl(x: usize, body: Tree) -> Tree {
    Tree::Abs(x, Box::new(body))
}

fn xa(f: Tree, x: Tree) -> Tree {
    Tree::App(Box::new(f), Box::new(x))
}

fn x_numeral(n: u64, f: usize, x: usize) -> Tree {
    let mut body = xv(x);
    for _ in 0..n {
        body = xa(xv(f), body);
    }
    xl(f, xl(x, body))
}

fn agent(kind: AgentKind, level: isize, ports: [usize; 3]) -> Agent {
    Agent { kind, level, principal: ports[0], first: ports[1], second: ports[2] }
}

fn ends(net: &Net, id: usize) -> (usize, usize) {
    let w = net.wires[&id];
    (w.source, w.target)
}

/// A net of the given agents and wires, with the counters just above them.
fn net_of(agents: Vec<(usize, Agent)>, wires: Vec<(usize, (usize, usize))>) -> Net {
    let mut net = Net::new();
    for (id, a) in agents {
        net.put_agent(id, a);
        net.agent_id = net.agent_id.max(id + 1);
    }
    for (id, (s, t)) in wires {
        net.put_wire(id, Wire::new(s, t));
        net.wire_id = net.wire_id.max(id + 1);
    }
    net
}

fn stub(wire: usize) -> Agent {
    agent(AgentKind::Root, 0, [wire, 0, 0])
}

#[test]
fn kinds_are_ordered_as_listed() {
    let all = [Application, Bracket, Croissant, Duplicator, Eraser, Lambda, Root];
    for (i, k) in all.iter().enumerate() {
        assert_eq!(k.position() as usize, i);
    }
    assert!(Application < Lambda);
    assert_eq!(order(Lambda, Application), (Application, Lambda));
    assert_eq!(order(Application, Lambda), (Application, Lambda));
    assert_eq!(order(Eraser, Eraser), (Eraser, Eraser));
    assert_eq!(order(Root, Bracket), (Bracket, Root));
}

#[test]
fn wire_new_fill_and_swap() {
    let mut w = Wire::new(3, 0);
    assert_eq!((w.source, w.target), (3, 0));
    w.fill(5);
    assert_eq!((w.source, w.target), (3, 5));
    w.fill(7);
    assert_eq!((w.source, w.target), (7, 5));
    w.swap();
    assert_eq!((w.source, w.target), (5, 7));
}

#[test]
fn wire_equality_ignores_direction() {
    assert_eq!(Wire::new(1, 2), Wire::new(2, 1));
    assert_eq!(Wire::new(1, 2), Wire::new(1, 2));
    assert_ne!(Wire::new(1, 2), Wire::new(1, 3));
    assert_eq!(Wire::new(4, 4), Wire::new(4, 4));
}

#[test]
fn agent_arity_goes_by_kind() {
    for (kind, arity) in [
        (Application, 3),
        (Lambda, 3),
        (Duplicator, 3),
        (Bracket, 2),
        (Croissant, 2),
        (Eraser, 1),
        (Root, 1),
    ] {
        assert_eq!(agent(kind, 0, [0, 0, 0]).len(), arity);
    }
}

#[test]
fn agent_new_takes_as_many_ports_as_the_kind_has() {
    let l = Agent::new(AgentKind::Lambda, 2, vec![4, 5, 6]);
    assert_eq!(l, agent(AgentKind::Lambda, 2, [4, 5, 6]));
    let c = Agent::new(AgentKind::Croissant, -1, vec![4, 5, 6]);
    assert_eq!(c, agent(AgentKind::Croissant, -1, [4, 5, 0]));
    let e = Agent::new(AgentKind::Eraser, 0, vec![9]);
    assert_eq!(e, agent(AgentKind::Eraser, 0, [9, 0, 0]));
}

#[test]
fn agent_update_get_and_set() {
    let mut a = agent(AgentKind::Bracket, 0, [1, 2, 3]);
    a.update(vec![7, 8, 9]);
    assert_eq!(a, agent(AgentKind::Bracket, 0, [7, 8, 3]));
    a.set(2, 11);
    assert_eq!((a.get(0), a.get(1), a.get(2)), (7, 8, 11));
}

#[test]
fn agent_port_of_finds_the_highest_port() {
    let a = agent(AgentKind::Lambda, 0, [4, 5, 4]);
    assert_eq!(a.port_of(4), 2);
    assert_eq!(a.port_of(5), 1);
    assert_eq!(a.port_of(6), 0);
    let c = agent(AgentKind::Croissant, 0, [4, 5, 6]);
    assert_eq!(c.port_of(6), 0);
    assert_eq!(c.port_of(5), 1);
}

#[test]
fn new_net_counts_from_one() {
    let mut net = Net::new();
    assert_eq!((net.agent_id, net.wire_id), (1, 1));
    assert!(net.agents.is_empty() && net.wires.is_empty());
    assert_eq!(net.add_agent(stub(0)), 1);
    assert_eq!(net.add_agent(stub(0)), 2);
    assert_eq!(net.add_wire(Wire::new(1, 2)), 1);
    assert_eq!(net.agent(2), Some(stub(0)));
    assert_eq!(net.agent(3), None);
    assert_eq!(net.wire(1), Some(Wire::new(1, 2)));
    assert_eq!(net.wire(2), None);
    assert!(net.agents_free(5));
    assert!(net.wires_free(1));
    net.put_agent(5, stub(0));
    assert!(net.agents_free(2));
    assert!(!net.agents_free(3));
    net.agent_id = usize::MAX - 1;
    assert!(net.agents_free(1));
    assert!(!net.agents_free(2));
}

#[test]
fn partner_is_the_other_end() {
    let net = net_of(vec![], vec![(1, (3, 4)), (2, (5, 5))]);
    assert_eq!(net.partner(3, 1), 4);
    assert_eq!(net.partner(4, 1), 3);
    assert_eq!(net.partner(9, 1), 3);
    assert_eq!(net.partner(5, 2), 5);
}

#[test]
fn replace_moves_one_end_of_a_wire() {
    let mut net = net_of(vec![(1, stub(0)), (2, stub(0)), (3, stub(0))], vec![(1, (1, 2))]);
    net.replace(0, 1, 1, 3);
    assert_eq!(ends(&net, 1), (3, 2));
    assert_eq!(net.agents[&3].principal, 1);
    net.replace(2, 1, 2, 1);
    assert_eq!(ends(&net, 1), (3, 1));
    assert_eq!(net.agents[&1].second, 1);
}

#[test]
fn connect_splices_two_wires() {
    let mut net = net_of(
        vec![
            (1, agent(AgentKind::Lambda, 0, [9, 1, 8])),
            (2, agent(AgentKind::Application, 0, [7, 6, 2])),
        ],
        vec![(1, (5, 1)), (2, (2, 5))],
    );
    net.connect(5, 1, 5, 2);
    assert_eq!(net.wires.len(), 1);
    assert_eq!(ends(&net, 3), (1, 2));
    assert_eq!(net.agents[&1], agent(AgentKind::Lambda, 0, [9, 3, 8]));
    assert_eq!(net.agents[&2], agent(AgentKind::Application, 0, [7, 6, 3]));
    assert_eq!(net.wire_id, 4);
}

#[test]
fn net_of_the_identity() {
    let net = Net::from_tree(&xl(7, xv(7)));
    assert_eq!(net.agents.len(), 3);
    assert_eq!(net.agents[&1], agent(AgentKind::Root, 0, [1, 0, 0]));
    assert_eq!(net.agents[&2], agent(AgentKind::Lambda, 0, [1, 2, 3]));
    assert_eq!(net.agents[&3], agent(AgentKind::Croissant, 0, [3, 2, 0]));
    assert_eq!(ends(&net, 1), (1, 2));
    assert_eq!(ends(&net, 2), (2, 3));
    assert_eq!(ends(&net, 3), (3, 2));
    assert_eq!((net.agent_id, net.wire_id), (4, 4));
}

#[test]
fn net_caps_an_unused_binder_with_an_eraser() {
    // \x. \y. x
    let net = Net::from_tree(&xl(1, xl(2, xv(1))));
    assert_eq!(net.agents[&2], agent(AgentKind::Lambda, 0, [1, 2, 4]));
    assert_eq!(net.agents[&3], agent(AgentKind::Lambda, 0, [2, 3, 5]));
    assert_eq!(net.agents[&4], agent(AgentKind::Croissant, 0, [4, 3, 0]));
    assert_eq!(net.agents[&5], agent(AgentKind::Eraser, 0, [5, 0, 0]));
    assert_eq!(ends(&net, 5), (3, 5));
    assert_eq!(ends(&net, 4), (4, 2));
}

#[test]
fn net_wraps_an_argument_in_brackets_by_level() {
    // \x. x x: the second occurrence is one level up and shares the binder.
    let net = Net::from_tree(&xl(1, xa(xv(1), xv(1))));
    assert_eq!(net.agents[&3], agent(AgentKind::Application, 0, [3, 2, 4]));
    assert_eq!(net.agents[&4], agent(AgentKind::Croissant, 0, [5, 3, 0]));
    assert_eq!(net.agents[&5], agent(AgentKind::Croissant, 1, [6, 4, 0]));
    assert_eq!(net.agents[&6], agent(AgentKind::Bracket, 0, [7, 6, 0]));
    assert_eq!(net.agents[&7], agent(AgentKind::Duplicator, 1, [8, 5, 7]));
    assert_eq!(net.agents[&2], agent(AgentKind::Lambda, 0, [1, 2, 8]));
    assert_eq!(ends(&net, 5), (4, 7));
    assert_eq!(ends(&net, 6), (5, 6));
    assert_eq!(ends(&net, 7), (6, 7));
    assert_eq!(ends(&net, 8), (2, 7));
}

#[test]
fn net_of_an_open_term_is_refused() {
    assert!(Net::checked_from_tree(&xv(1)).is_none());
    assert!(Net::checked_from_tree(&xa(xl(1, xv(1)), xv(2))).is_none());
    assert!(Net::checked_from_tree(&xl(1, xv(1))).is_some());
    let mut engine = Net::new();
    engine.build(&xv(1));
    assert!(engine.agents.is_empty());
    assert_eq!(engine.reduce(), None);
}

#[test]
fn net_binds_a_variable_to_the_binder_seen_last() {
    // A binder stays known after its body ends.
    assert!(Net::checked_from_tree(&xa(xl(1, xv(1)), xl(2, xv(1)))).is_some());
}

#[test]
fn read_back_without_a_rewrite_gives_the_term() {
    let terms = vec![
        xl(1, xv(1)),
        xl(1, xl(2, xv(1))),
        xl(1, xl(2, xv(2))),
        xl(1, xa(xv(1), xv(1))),
        x_numeral(3, 1, 2),
        xa(xl(3, xv(3)), x_numeral(2, 1, 2)),
        xl(1, xl(2, xa(xa(xv(2), xl(3, xa(xv(1), xa(xv(3), xv(2))))), xv(1)))),
    ];
    for t in terms {
        let net = Net::from_tree(&t);
        let read = net.to_tree().unwrap();
        assert_eq!(read.to_indexed_string(), Tree::fix_indices(t).to_indexed_string());
    }
}

#[test]
fn read_back_names_binders_by_their_lambdas() {
    let net = Net::from_tree(&xl(9, xl(8, xv(9))));
    let mut oracle = HashMap::new();
    let raw = net.to_tree_helper(1, 1, &mut oracle, GAS).unwrap();
    assert_eq!(raw, xl(2, xl(3, xv(2))));
    assert!(oracle.is_empty());
}

#[test]
fn read_back_records_the_branch_of_a_duplicator() {
    let net = Net::from_tree(&xl(1, xa(xv(1), xv(1))));
    let mut oracle = HashMap::new();
    let raw = net.to_tree_helper(1, 1, &mut oracle, GAS).unwrap();
    assert_eq!(raw, xl(2, xa(xv(2), xv(2))));
    assert_eq!(oracle.get(&7), Some(&2));
}

#[test]
fn read_back_runs_out_of_gas() {
    let net = Net::from_tree(&xl(1, xl(2, xv(1))));
    let mut oracle = HashMap::new();
    assert!(net.to_tree_helper(1, 1, &mut oracle, 3).is_some());
    assert!(net.to_tree_helper(1, 1, &mut oracle, 2).is_none());
    assert!(net.to_tree_helper(1, 1, &mut oracle, 1).is_none());
    assert!(net.to_tree_helper(1, 1, &mut oracle, 0).is_none());
    assert!(net.to_tree_helper(1, 1, &mut oracle, -3).is_none());
    let deep = x_numeral(1200, 1, 2);
    assert_eq!(GAS, 1000);
    assert!(Net::from_tree(&deep).to_tree().is_none());
}

#[test]
fn read_back_of_a_broken_net_is_nothing() {
    assert!(Net::new().to_tree().is_none());
    let eraser = net_of(vec![(1, stub(1)), (2, agent(AgentKind::Eraser, 0, [1, 0, 0]))], vec![(1, (1, 2))]);
    assert!(eraser.to_tree().is_none());
    let dangling = net_of(vec![(1, stub(1))], vec![(1, (1, 5))]);
    assert!(dangling.to_tree().is_none());
    let no_wire = net_of(vec![(1, stub(4))], vec![]);
    assert!(no_wire.to_tree().is_none());
    // Two control agents that hand the walk to one another.
    let looped = net_of(
        vec![
            (1, stub(1)),
            (2, agent(AgentKind::Croissant, 0, [2, 1, 0])),
            (3, agent(AgentKind::Bracket, 0, [2, 2, 0])),
        ],
        vec![(1, (1, 2)), (2, (2, 3))],
    );
    assert!(looped.to_tree().is_none());
}

#[test]
fn pair_needs_two_agents_on_their_principal_ports() {
    let net = net_of(
        vec![
            (1, agent(AgentKind::Lambda, 0, [1, 2, 3])),
            (2, agent(AgentKind::Application, 0, [1, 4, 5])),
            (3, agent(AgentKind::Application, 0, [6, 2, 7])),
        ],
        vec![(1, (1, 2)), (2, (1, 3))],
    );
    let pair: Pair = net.pair_at(1).unwrap();
    assert_eq!((pair.wire, pair.aid, pair.pid), (1, 2, 1));
    assert_eq!(pair.agent.kind, AgentKind::Application);
    assert_eq!(pair.find_rule(), Some(Rule::Annihilate));
    assert!(net.pair_at(2).is_some());
    assert!(net.pair_at(3).is_none());
    assert!(net.pair_at(4).is_none());
    assert!(net.beta_at(1) && net.beta_at(2) && !net.beta_at(3));
}

#[test]
fn rules_go_by_kinds_and_levels() {
    let rule = |a: AgentKind, la: isize, p: AgentKind, lp: isize| {
        Pair { wire: 1, aid: 1, agent: agent(a, la, [1, 0, 0]), pid: 2, partner: agent(p, lp, [1, 0, 0]) }
            .find_rule()
    };
    assert_eq!(rule(Application, 0, Eraser, 0), Some(Rule::Erase));
    assert_eq!(rule(Eraser, 1, Root, 1), Some(Rule::Erase));
    assert_eq!(rule(Eraser, 0, Lambda, 1), None);
    assert_eq!(rule(Application, 2, Lambda, 2), Some(Rule::Annihilate));
    assert_eq!(rule(Application, 2, Lambda, 3), None);
    assert_eq!(rule(Duplicator, 1, Duplicator, 1), Some(Rule::Annihilate));
    assert_eq!(rule(Duplicator, 1, Duplicator, 2), Some(Rule::Duplicate));
    assert_eq!(rule(Duplicator, 1, Lambda, 2), Some(Rule::Duplicate));
    assert_eq!(rule(Duplicator, 1, Lambda, 1), None);
    assert_eq!(rule(Application, 1, Duplicator, 0), Some(Rule::Duplicate));
    assert_eq!(rule(Croissant, 0, Croissant, 0), Some(Rule::Cancel));
    assert_eq!(rule(Bracket, 0, Bracket, 0), Some(Rule::Cancel));
    assert_eq!(rule(Bracket, 0, Bracket, 1), None);
    assert_eq!(rule(Bracket, 0, Croissant, 0), None);
    assert_eq!(rule(Croissant, 0, Lambda, 1), Some(Rule::Pass));
    assert_eq!(rule(Application, 0, Croissant, 1), Some(Rule::Pass));
    assert_eq!(rule(Application, 0, Bracket, 1), Some(Rule::Pass));
    assert_eq!(rule(Bracket, 0, Duplicator, 1), Some(Rule::Pass));
    assert_eq!(rule(Croissant, 1, Lambda, 1), None);
    assert_eq!(rule(Lambda, 0, Lambda, 0), None);
    assert_eq!(rule(Application, 0, Application, 1), None);
    assert_eq!(rule(Lambda, 0, Root, 0), None);
}

#[test]
fn eraser_spreads_to_the_other_ports() {
    let mut net = net_of(
        vec![
            (1, agent(AgentKind::Lambda, 0, [1, 2, 3])),
            (2, agent(AgentKind::Eraser, 0, [1, 0, 0])),
            (3, stub(2)),
            (4, stub(3)),
        ],
        vec![(1, (1, 2)), (2, (1, 3)), (3, (4, 1))],
    );
    assert!(net.reduction_step(2));
    assert_eq!(net.agents.len(), 4);
    assert!(net.agent(1).is_none() && net.agent(2).is_none() && net.wire(1).is_none());
    assert_eq!(net.agents[&5], agent(AgentKind::Eraser, 0, [2, 0, 0]));
    assert_eq!(net.agents[&6], agent(AgentKind::Eraser, 0, [3, 0, 0]));
    assert_eq!(ends(&net, 2), (5, 3));
    assert_eq!(ends(&net, 3), (4, 6));
    assert_eq!(net.agent_id, 7);
}

#[test]
fn eraser_on_a_control_agent_leaves_one_eraser() {
    let mut net = net_of(
        vec![
            (1, agent(AgentKind::Bracket, 0, [1, 2, 0])),
            (2, agent(AgentKind::Eraser, 0, [1, 0, 0])),
            (3, stub(2)),
        ],
        vec![(1, (2, 1)), (2, (3, 1))],
    );
    assert!(net.reduction_step(1));
    assert_eq!(net.agents.len(), 2);
    assert_eq!(net.agents[&4], agent(AgentKind::Eraser, 0, [2, 0, 0]));
    assert_eq!(ends(&net, 2), (3, 4));
}

#[test]
fn two_erasers_vanish() {
    let mut net = net_of(
        vec![(1, agent(AgentKind::Eraser, 0, [1, 0, 0])), (2, agent(AgentKind::Eraser, 0, [1, 0, 0]))],
        vec![(1, (1, 2))],
    );
    assert!(net.reduction_step(1));
    assert!(net.agents.is_empty() && net.wires.is_empty());
}

#[test]
fn beta_joins_parent_to_body_and_argument_to_binder() {
    let mut net = net_of(
        vec![
            (1, agent(AgentKind::Application, 0, [1, 2, 3])),
            (2, agent(AgentKind::Lambda, 0, [1, 4, 5])),
            (3, stub(2)),
            (4, stub(3)),
            (5, stub(4)),
            (6, stub(5)),
        ],
        vec![(1, (1, 2)), (2, (3, 1)), (3, (1, 4)), (4, (2, 5)), (5, (6, 2))],
    );
    assert!(net.reduction_step(1));
    assert_eq!(net.agents.len(), 4);
    assert_eq!(net.wires.len(), 2);
    assert_eq!(ends(&net, 6), (3, 5));
    assert_eq!(ends(&net, 7), (4, 6));
    assert_eq!(net.agents[&3].principal, 6);
    assert_eq!(net.agents[&5].principal, 6);
    assert_eq!(net.agents[&4].principal, 7);
    assert_eq!(net.agents[&6].principal, 7);
}

#[test]
fn beta_shorts_a_wire_from_body_to_binder() {
    // The identity: the lambda's body port and binder port share a wire.
    let mut net = net_of(
        vec![
            (1, agent(AgentKind::Application, 0, [1, 2, 3])),
            (2, agent(AgentKind::Lambda, 0, [1, 4, 4])),
            (3, stub(2)),
            (4, stub(3)),
        ],
        vec![(1, (1, 2)), (2, (3, 1)), (3, (1, 4)), (4, (2, 2))],
    );
    assert!(net.reduction_step(2));
    assert_eq!(net.wires.len(), 1);
    assert_eq!(ends(&net, 5), (3, 4));
}

#[test]
fn beta_shorts_a_wire_across_the_pair() {
    // The application's parent port is wired to the lambda's binder port.
    let mut net = net_of(
        vec![
            (1, agent(AgentKind::Application, 0, [1, 2, 3])),
            (2, agent(AgentKind::Lambda, 0, [1, 4, 2])),
            (3, stub(3)),
            (4, stub(4)),
        ],
        vec![(1, (1, 2)), (2, (1, 2)), (3, (1, 3)), (4, (2, 4))],
    );
    assert!(net.reduction_step(1));
    assert_eq!(net.wires.len(), 1);
    assert_eq!(ends(&net, 5), (4, 3));
    assert_eq!(net.agents[&3].principal, 5);
    assert_eq!(net.agents[&4].principal, 5);
}

#[test]
fn beta_drops_closed_loops() {
    let mut net = net_of(
        vec![
            (1, agent(AgentKind::Application, 0, [1, 2, 2])),
            (2, agent(AgentKind::Lambda, 0, [1, 3, 3])),
        ],
        vec![(1, (1, 2)), (2, (1, 1)), (3, (2, 2))],
    );
    assert!(net.reduction_step(1));
    assert!(net.agents.is_empty() && net.wires.is_empty());
}

#[test]
fn control_agents_of_one_kind_cancel() {
    let mut net = net_of(
        vec![
            (1, agent(AgentKind::Croissant, 2, [1, 2, 0])),
            (2, agent(AgentKind::Croissant, 2, [1, 3, 0])),
            (3, stub(2)),
            (4, stub(3)),
        ],
        vec![(1, (1, 2)), (2, (1, 3)), (3, (4, 2))],
    );
    assert!(net.reduction_step(1));
    assert_eq!(net.agents.len(), 2);
    assert_eq!(ends(&net, 4), (3, 4));
}

#[test]
fn agents_of_different_levels_pass_through_one_another() {
    let mut net = net_of(
        vec![
            (1, agent(AgentKind::Duplicator, 1, [1, 2, 3])),
            (2, agent(AgentKind::Lambda, 0, [1, 4, 5])),
            (3, stub(2)),
            (4, stub(3)),
            (5, stub(4)),
            (6, stub(5)),
        ],
        vec![(1, (1, 2)), (2, (1, 3)), (3, (1, 4)), (4, (2, 5)), (5, (2, 6))],
    );
    assert!(net.reduction_step(1));
    assert_eq!(net.agents.len(), 8);
    assert_eq!(net.wires.len(), 8);
    assert_eq!(net.agents[&7], agent(AgentKind::Duplicator, 1, [4, 8, 6]));
    assert_eq!(net.agents[&8], agent(AgentKind::Duplicator, 1, [5, 7, 9]));
    assert_eq!(net.agents[&9], agent(AgentKind::Lambda, 0, [2, 8, 7]));
    assert_eq!(net.agents[&10], agent(AgentKind::Lambda, 0, [3, 6, 9]));
    assert_eq!(ends(&net, 6), (7, 10));
    assert_eq!(ends(&net, 7), (8, 9));
    assert_eq!(ends(&net, 8), (7, 9));
    assert_eq!(ends(&net, 9), (8, 10));
    assert_eq!(ends(&net, 2), (9, 3));
    assert_eq!(ends(&net, 3), (10, 4));
    assert_eq!(ends(&net, 4), (7, 5));
    assert_eq!(ends(&net, 5), (8, 6));
}

#[test]
fn croissant_passes_through_and_lowers_the_level() {
    let mut net = net_of(
        vec![
            (1, agent(AgentKind::Croissant, 0, [1, 2, 0])),
            (2, agent(AgentKind::Lambda, 1, [1, 3, 4])),
            (3, stub(2)),
            (4, stub(3)),
            (5, stub(4)),
        ],
        vec![(1, (1, 2)), (2, (1, 3)), (3, (2, 4)), (4, (5, 2))],
    );
    assert!(net.reduction_step(2));
    assert_eq!(net.agents.len(), 6);
    assert!(net.agent(1).is_none());
    assert_eq!(net.agents[&2], agent(AgentKind::Lambda, 0, [2, 5, 6]));
    assert_eq!(net.agents[&6], agent(AgentKind::Croissant, 0, [3, 5, 0]));
    assert_eq!(net.agents[&7], agent(AgentKind::Croissant, 0, [4, 6, 0]));
    assert_eq!(ends(&net, 2), (2, 3));
    assert_eq!(ends(&net, 3), (6, 4));
    assert_eq!(ends(&net, 4), (5, 7));
    assert_eq!(ends(&net, 5), (2, 6));
    assert_eq!(ends(&net, 6), (2, 7));
}

#[test]
fn bracket_passes_through_and_raises_the_level() {
    let mut net = net_of(
        vec![
            (1, agent(AgentKind::Application, 3, [1, 3, 4])),
            (2, agent(AgentKind::Bracket, 0, [1, 2, 0])),
            (3, stub(2)),
            (4, stub(3)),
            (5, stub(4)),
        ],
        vec![(1, (2, 1)), (2, (2, 3)), (3, (1, 4)), (4, (1, 5))],
    );
    assert!(net.reduction_step(1));
    assert_eq!(net.agents[&1], agent(AgentKind::Application, 4, [2, 5, 6]));
    assert_eq!(net.agents[&6], agent(AgentKind::Bracket, 0, [3, 5, 0]));
    assert_eq!(net.agents[&7], agent(AgentKind::Bracket, 0, [4, 6, 0]));
    assert_eq!(ends(&net, 2), (1, 3));
}

#[test]
fn pass_is_refused_at_the_end_of_the_levels() {
    let mut net = net_of(
        vec![
            (1, agent(AgentKind::Croissant, 0, [1, 2, 0])),
            (2, agent(AgentKind::Lambda, isize::MIN, [1, 3, 4])),
            (3, stub(2)),
            (4, stub(3)),
            (5, stub(4)),
        ],
        vec![(1, (1, 2)), (2, (1, 3)), (3, (2, 4)), (4, (5, 2))],
    );
    let before = (net.agents.clone(), net.wires.clone());
    assert!(!net.reduction_step(1));
    assert_eq!((net.agents.clone(), net.wires.clone()), before);
}

#[test]
fn step_without_a_rule_changes_nothing() {
    let mut net = net_of(
        vec![
            (1, agent(AgentKind::Lambda, 0, [1, 2, 3])),
            (2, agent(AgentKind::Lambda, 0, [1, 4, 5])),
        ],
        vec![(1, (1, 2))],
    );
    let before = (net.agents.clone(), net.wires.clone());
    assert!(!net.reduction_step(1));
    assert!(!net.reduction_step(7));
    assert_eq!((net.agents.clone(), net.wires.clone()), before);
}

#[test]
fn step_with_a_missing_wire_changes_nothing() {
    // The lambda's body wire does not exist.
    let mut net = net_of(
        vec![
            (1, agent(AgentKind::Application, 0, [1, 2, 3])),
            (2, agent(AgentKind::Lambda, 0, [1, 4, 5])),
            (3, stub(2)),
            (4, stub(3)),
            (6, stub(5)),
        ],
        vec![(1, (1, 2)), (2, (3, 1)), (3, (1, 4)), (5, (6, 2))],
    );
    let before = (net.agents.clone(), net.wires.clone(), net.agent_id, net.wire_id);
    assert!(!net.reduction_step(1));
    assert_eq!((net.agents.clone(), net.wires.clone(), net.agent_id, net.wire_id), before);
}

#[test]
fn step_with_a_missing_neighbour_changes_nothing() {
    // The wire at the application's parent port leads to no agent.
    let mut net = net_of(
        vec![
            (1, agent(AgentKind::Application, 0, [1, 2, 3])),
            (2, agent(AgentKind::Lambda, 0, [1, 4, 5])),
            (4, stub(3)),
            (5, stub(4)),
            (6, stub(5)),
        ],
        vec![(1, (1, 2)), (2, (3, 1)), (3, (1, 4)), (4, (2, 5)), (5, (6, 2))],
    );
    let before = (net.agents.clone(), net.wires.clone(), net.agent_id, net.wire_id);
    assert!(!net.reduction_step(1));
    assert_eq!((net.agents.clone(), net.wires.clone(), net.agent_id, net.wire_id), before);
}

#[test]
fn step_needs_unused_ids() {
    let mut net = net_of(
        vec![
            (1, agent(AgentKind::Lambda, 0, [1, 2, 3])),
            (2, agent(AgentKind::Eraser, 0, [1, 0, 0])),
            (3, stub(2)),
            (4, stub(3)),
        ],
        vec![(1, (1, 2)), (2, (1, 3)), (3, (4, 1))],
    );
    net.agent_id = 4;
    assert!(!net.reduction_step(2));
    net.agent_id = usize::MAX - 1;
    assert!(!net.reduction_step(2));
    net.agent_id = 5;
    assert!(net.reduction_step(2));
}

#[test]
fn step_needs_principal_ports_on_both_sides() {
    // The lambda is the argument of the application, not its function.
    let mut net = net_of(
        vec![
            (1, agent(AgentKind::Application, 0, [2, 3, 1])),
            (2, agent(AgentKind::Lambda, 0, [1, 4, 5])),
        ],
        vec![(1, (1, 2))],
    );
    assert!(!net.reduction_step(2));
    assert!(!net.beta_at(2));
}

#[test]
fn find_beta_pairs_lists_both_agents_by_rising_id() {
    let net = Net::from_tree(&xa(xl(3, xv(3)), x_numeral(0, 1, 2)));
    let found: Vec<usize> = net.find_beta_pairs().into_iter().collect();
    assert_eq!(found, vec![2, 3]);
    assert_eq!(net.branches(2), vec![1, 5]);
    assert_eq!(net.branches(3), vec![4, 4]);
    assert_eq!(net.branches(99), Vec::<usize>::new());
    let normal = Net::from_tree(&x_numeral(2, 1, 2));
    assert!(normal.find_beta_pairs().is_empty());
}

#[test]
fn reduce_leaves_no_beta_redex() {
    let terms = vec![
        xa(xl(3, xv(3)), x_numeral(0, 1, 2)),
        xa(xa(x_numeral(2, 1, 2), xl(3, xv(3))), x_numeral(0, 4, 5)),
        xa(xl(1, xa(xv(1), xv(1))), xl(2, xv(2))),
    ];
    for t in terms {
        let mut net = Net::from_tree(&t);
        assert!(net.reduce_within(10_000));
        assert!(net.find_beta_pairs().is_empty());
        let ids: Vec<usize> = net.agents.keys().cloned().collect();
        for id in ids {
            assert!(!net.beta_at(id));
            assert!(id < net.agent_id);
        }
    }
}

#[test]
fn reduce_within_stops_at_the_limit() {
    let mut net = Net::from_tree(&xa(xl(3, xv(3)), x_numeral(0, 1, 2)));
    assert!(!net.reduce_within(0));
    assert!(!net.reduce_within(1));
    assert_eq!(net.agents.len(), 9);
    assert!(!net.reduce_within(3));
    assert!(net.agent(2).is_none() && net.agent(3).is_none());
    assert!(net.reduce_within(50));
    assert_eq!(net.to_tree().unwrap().to_indexed_string(), "(\u{3bb}(\u{3bb}0))");
    let mut normal = Net::from_tree(&x_numeral(1, 1, 2));
    assert!(normal.reduce_within(0));
}

#[test]
fn beta_on_the_net_gives_the_numeral_of_the_normal_form() {
    let mut net = Net::from_tree(&xa(xl(3, xv(3)), x_numeral(0, 1, 2)));
    assert_eq!(net.to_tree().unwrap().to_indexed_string(), "((\u{3bb}0) (\u{3bb}(\u{3bb}0)))");
    assert!(net.reduction_step(2));
    let read = net.to_tree().unwrap();
    assert_eq!(read.to_indexed_string(), "(\u{3bb}(\u{3bb}0))");
    assert_eq!(read.convert(), Some(0));
}

#[test]
fn net_engine_reads_the_identity_applied_to_zero() {
    let mut engine = Net::new();
    engine.build(&xa(xl(3, xv(3)), x_numeral(0, 1, 2)));
    assert_eq!(engine.reduce(), Some(0));
    engine.build(&xa(xl(3, xv(3)), x_numeral(0, 1, 2)));
    assert_eq!(engine.reduce(), Some(0));
    assert_eq!(engine.name(), "optimal");
}

#[test]
fn net_engine_reads_a_numeral_that_is_normal_already() {
    let mut engine = Net::new();
    engine.build(&x_numeral(5, 1, 2));
    assert_eq!(engine.reduce(), Some(5));
    engine.build(&x_numeral(2, 1, 2));
    assert_eq!(engine.reduce(), Some(2));
}

#[test]
fn net_engine_stops_where_no_rule_is_given() {
    // Two applied to the identity and zero: after the first beta step a
    // duplicator faces a lambda of its own level, for which there is no
    // rule; what is read back then is no numeral.
    let term = xa(xa(x_numeral(2, 1, 2), xl(3, xv(3))), x_numeral(0, 4, 5));
    let mut engine = Net::new();
    engine.build(&term);
    assert_eq!(engine.reduce(), None);
    assert!(engine.find_beta_pairs().is_empty());
}
