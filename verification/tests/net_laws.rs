use lambda_reducers::expr::{ArithBinaryOp, ArithExpr, ListFold};
use lambda_reducers::optimal::{Agent, AgentKind, Net};
use lambda_reducers::strategy::Strategy;
use lambda_reducers::tree::Tree;

fn wv(x: usize) -> Tree {
    Tree::Var(x)
}

fn wl(x: usize, body: Tree) -> Tree {
    Tree::Abs(x, Box::new(body))
}

fn wa(f: Tree, x: Tree) -> Tree {
    Tree::App(Box::new(f), Box::new(x))
}

fn ports(agent: &Agent) -> Vec<usize> {
    let all = [agent.principal, agent.first, agent.second];
    all[..agent.len()].to_vec()
}

/// Every port holds a wire that ends at its agent, every wire joins exactly
/// two ports, and every id lies below its counter.
fn well_formed(net: &Net) -> bool {
    if net.agent_id == 0 || net.wire_id == 0 {
        return false;
    }
    for (id, agent) in net.agents.iter() {
        if *id == 0 || *id >= net.agent_id {
            return false;
        }
        for w in ports(agent) {
            match net.wires.get(&w) {
                Some(wire) => {
                    if wire.source != *id && wire.target != *id {
                        return false;
                    }
                }
                None => return false,
            }
        }
    }
    for (id, wire) in net.wires.iter() {
        if *id == 0 || *id >= net.wire_id {
            return false;
        }
        let count = |a: usize| match net.agents.get(&a) {
            Some(agent) => ports(agent).iter().filter(|w| **w == *id).count(),
            None => 99,
        };
        if wire.source == wire.target {
            if count(wire.source) != 2 {
                return false;
            }
        } else if count(wire.source) != 1 || count(wire.target) != 1 {
            return false;
        }
    }
    true
}

fn samples() -> Vec<Tree> {
    let two = wl(1, wl(2, wa(wv(1), wa(wv(1), wv(2)))));
    let mut id = 10;
    let sum = ArithExpr::Op(
        ArithBinaryOp::Add,
        Box::new(ArithExpr::Numeral(2)),
        Box::new(ArithExpr::Numeral(1)),
    )
    .elab(&mut id);
    let mut id = 0;
    let product = ArithExpr::Op(
        ArithBinaryOp::Mul,
        Box::new(ArithExpr::Numeral(2)),
        Box::new(ArithExpr::Numeral(3)),
    )
    .elab(&mut id);
    let mut id = 0;
    let fold = ListFold::gen(1, 3).elab(&mut id);
    vec![
        wl(1, wv(1)),
        wl(1, wl(2, wv(1))),
        wl(1, wa(wv(1), wv(1))),
        wa(wl(3, wv(3)), wl(1, wl(2, wv(2)))),
        wa(wa(two, wl(3, wv(3))), wl(4, wl(5, wv(5)))),
        wa(wl(1, wa(wv(1), wv(1))), wl(2, wa(wv(2), wv(2)))),
        sum,
        product,
        fold,
    ]
}

#[test]
fn net_of_a_term_is_well_formed() {
    for t in samples() {
        assert!(well_formed(&Net::from_tree(&t)));
    }
}

#[test]
fn every_rewrite_keeps_the_net_well_formed() {
    for t in samples() {
        let mut net = Net::from_tree(&t);
        let mut fired = 0;
        loop {
            let mut ids: Vec<usize> = net.agents.keys().cloned().collect();
            ids.sort();
            let mut progress = false;
            for id in ids {
                if net.reduction_step(id) {
                    assert!(well_formed(&net));
                    progress = true;
                    fired += 1;
                    break;
                }
            }
            if !progress || fired > 300 {
                break;
            }
        }
        assert!(fired > 0 || net.find_beta_pairs().is_empty());
    }
}

#[test]
fn reduce_keeps_the_net_well_formed_and_leaves_no_beta_redex() {
    for t in samples() {
        let mut net = Net::from_tree(&t);
        let finished = net.reduce_within(500);
        assert!(well_formed(&net));
        if finished {
            let ids: Vec<usize> = net.agents.keys().cloned().collect();
            for id in ids {
                assert!(!net.beta_at(id));
            }
        }
    }
}

#[test]
fn a_net_with_a_dangling_port_is_not_well_formed() {
    let mut net = Net::from_tree(&wl(1, wv(1)));
    assert!(well_formed(&net));
    net.drop_wire(2);
    assert!(!well_formed(&net));
}

#[test]
fn read_back_of_the_net_of_a_tidy_term_is_the_term() {
    for t in samples() {
        let read = Net::from_tree(&t).to_tree().unwrap();
        assert_eq!(read.to_indexed_string(), Tree::fix_indices(t).to_indexed_string());
    }
}

#[test]
fn read_back_differs_where_a_binder_takes_a_name_in_scope() {
    // \x. (\x. x) x: the last occurrence is read as bound by the inner binder.
    let t = wl(1, wa(wl(1, wv(1)), wv(1)));
    let read = Net::from_tree(&t).to_tree().unwrap();
    assert_eq!(Tree::fix_indices(t).to_indexed_string(), "(\u{3bb}((\u{3bb}0) 0))");
    assert_eq!(read.to_indexed_string(), "(\u{3bb}((\u{3bb}0) 100))");
}

#[test]
fn read_back_needs_gas_for_every_duplicator_before_a_lambda() {
    // The first occurrence of a variable used n times lies behind n - 1 duplicators.
    let mut body = wv(1);
    for _ in 0..1100 {
        body = wa(wv(1), body);
    }
    let t = wl(1, body);
    let net = Net::from_tree(&t);
    assert!(well_formed(&net));
    assert!(net.to_tree().is_none());
}

#[test]
fn net_engine_reads_a_term_without_a_redex_as_the_term_reads() {
    let numeral = |n: u64| {
        let mut body = wv(2);
        for _ in 0..n {
            body = wa(wv(1), body);
        }
        wl(1, wl(2, body))
    };
    for n in [0u64, 1, 2, 3, 17, 100] {
        let t = numeral(n);
        let mut net = Net::new();
        net.build(&t);
        let before = (net.agents.clone(), net.wires.clone());
        assert_eq!(net.reduce(), Some(n));
        assert_eq!((net.agents.clone(), net.wires.clone()), before);
    }
    let normal_but_no_numeral = wl(1, wl(2, wa(wv(2), wl(3, wa(wv(3), wv(1))))));
    let mut net = Net::new();
    net.build(&normal_but_no_numeral);
    assert_eq!(net.reduce(), None);
    assert_eq!(
        net.to_tree().unwrap().to_indexed_string(),
        Tree::fix_indices(normal_but_no_numeral).to_indexed_string()
    );
}

#[test]
fn beta_on_a_net_that_no_term_gives_can_change_the_readout() {
    let agent = |kind, ports: [usize; 3]| Agent {
        kind,
        level: 0,
        principal: ports[0],
        first: ports[1],
        second: ports[2],
    };
    let mut net = Net::new();
    // Two lambdas over a croissant that leads to the variable of a third
    // lambda, which is the function of a redex elsewhere in the net.
    for (id, a) in [
        (1, agent(AgentKind::Root, [1, 0, 0])),
        (2, agent(AgentKind::Lambda, [1, 2, 3])),
        (3, agent(AgentKind::Eraser, [3, 0, 0])),
        (4, agent(AgentKind::Lambda, [2, 4, 5])),
        (5, agent(AgentKind::Eraser, [5, 0, 0])),
        (6, agent(AgentKind::Croissant, [6, 4, 0])),
        (7, agent(AgentKind::Lambda, [7, 8, 6])),
        (8, agent(AgentKind::Application, [7, 9, 10])),
        (9, agent(AgentKind::Eraser, [8, 0, 0])),
        (10, agent(AgentKind::Eraser, [9, 0, 0])),
        (11, agent(AgentKind::Eraser, [10, 0, 0])),
    ] {
        net.put_agent(id, a);
    }
    for (id, (s, t)) in [
        (1, (1, 2)),
        (2, (2, 4)),
        (3, (2, 3)),
        (4, (4, 6)),
        (5, (4, 5)),
        (6, (6, 7)),
        (7, (8, 7)),
        (8, (7, 9)),
        (9, (8, 10)),
        (10, (8, 11)),
    ] {
        net.put_wire(id, lambda_reducers::optimal::Wire::new(s, t));
    }
    net.agent_id = 12;
    net.wire_id = 11;
    assert!(well_formed(&net));
    assert_eq!(net.to_tree().unwrap().convert(), Some(0));
    assert!(net.beta_at(7));
    assert!(net.reduction_step(7));
    assert!(well_formed(&net));
    assert_eq!(net.to_tree(), None);
}

#[test]
fn beta_aside_of_the_walk_leaves_the_readout_as_it_was() {
    let agent = |kind, ports: [usize; 3]| Agent {
        kind,
        level: 0,
        principal: ports[0],
        first: ports[1],
        second: ports[2],
    };
    let mut net = Net::new();
    // The numeral zero at the root, and a redex that the root does not lead to.
    for (id, a) in [
        (1, agent(AgentKind::Root, [1, 0, 0])),
        (2, agent(AgentKind::Lambda, [1, 2, 3])),
        (3, agent(AgentKind::Eraser, [3, 0, 0])),
        (4, agent(AgentKind::Lambda, [2, 4, 5])),
        (5, agent(AgentKind::Croissant, [5, 4, 0])),
        (7, agent(AgentKind::Lambda, [7, 8, 6])),
        (8, agent(AgentKind::Application, [7, 9, 10])),
        (9, agent(AgentKind::Eraser, [8, 0, 0])),
        (10, agent(AgentKind::Eraser, [9, 0, 0])),
        (11, agent(AgentKind::Eraser, [10, 0, 0])),
        (12, agent(AgentKind::Eraser, [6, 0, 0])),
    ] {
        net.put_agent(id, a);
    }
    for (id, (s, t)) in [
        (1, (1, 2)),
        (2, (2, 4)),
        (3, (2, 3)),
        (4, (4, 5)),
        (5, (5, 4)),
        (6, (12, 7)),
        (7, (8, 7)),
        (8, (7, 9)),
        (9, (8, 10)),
        (10, (8, 11)),
    ] {
        net.put_wire(id, lambda_reducers::optimal::Wire::new(s, t));
    }
    net.agent_id = 13;
    net.wire_id = 11;
    assert!(well_formed(&net));
    let before = net.to_tree();
    assert_eq!(before.as_ref().unwrap().convert(), Some(0));
    assert!(net.beta_at(8));
    assert!(net.reduction_step(8));
    assert!(well_formed(&net));
    assert_eq!(net.to_tree(), before);
    assert!(net.agent(7).is_none() && net.agent(8).is_none());
}
