use lambda_reducers::dag::{remove_item, Dag, Kind, Node};
use lambda_reducers::strategy::Strategy;
use lambda_reducers::tree::Tree;

fn dv(x: usize) -> Tree {
    Tree::Var(x)
}

fn dl(x: usize, body: Tree) -> Tree {
    Tree::Abs(x, Box::new(body))
}

fn da(f: Tree, x: Tree) -> Tree {
    Tree::App(Box::new(f), Box::new(x))
}

fn shape(dag: &Dag, id: usize) -> (Kind, Vec<usize>, usize, usize) {
    let node = &dag.nodes[&id];
    (node.kind, node.parents.clone(), node.left, node.right)
}

#[test]
fn remove_item_takes_the_last_occurrence() {
    let mut items = vec![4, 7, 4, 9];
    remove_item(4, &mut items);
    assert_eq!(items, vec![4, 7, 9]);
    remove_item(4, &mut items);
    assert_eq!(items, vec![7, 9]);
    remove_item(4, &mut items);
    assert_eq!(items, vec![7, 9]);
    let mut empty: Vec<usize> = vec![];
    remove_item(1, &mut empty);
    assert!(empty.is_empty());
}

#[test]
fn node_constructors_set_the_kind() {
    let var = Node::var(vec![3]);
    assert_eq!((var.kind, var.parents.clone(), var.left, var.right), (Kind::Var, vec![3], 0, 0));
    let abs = Node::abs(5, 6, vec![1]);
    assert_eq!((abs.kind, abs.parents.clone(), abs.left, abs.right), (Kind::Abs, vec![1], 5, 6));
    let app = Node::app(7, 8, vec![]);
    assert_eq!((app.kind, app.parents.clone(), app.left, app.right), (Kind::App, vec![], 7, 8));
}

#[test]
fn new_graph_is_empty_and_insert_counts_from_one() {
    let mut dag = Dag::new();
    assert_eq!(dag.id, 0);
    assert!(dag.nodes.is_empty());
    assert_eq!(dag.insert(Node::var(vec![])), 1);
    assert_eq!(dag.reserve(), 2);
    assert_eq!(dag.insert(Node::var(vec![])), 3);
    assert!(dag.holds(1));
    assert!(!dag.holds(2));
    assert!(dag.remove(1).is_some());
    assert!(dag.remove(1).is_none());
}

#[test]
fn graph_of_the_identity() {
    let dag = Dag::from(&dl(9, dv(9)));
    assert_eq!(dag.id, 2);
    assert_eq!(shape(&dag, 1), (Kind::Abs, vec![], 2, 2));
    assert_eq!(shape(&dag, 2), (Kind::Var, vec![1], 0, 0));
}

#[test]
fn graph_shares_the_node_of_a_variable() {
    // \x. x x
    let dag = Dag::from(&dl(5, da(dv(5), dv(5))));
    assert_eq!(dag.nodes.len(), 3);
    assert_eq!(shape(&dag, 1), (Kind::Abs, vec![], 3, 2));
    assert_eq!(shape(&dag, 2), (Kind::App, vec![1], 3, 3));
    assert_eq!(shape(&dag, 3), (Kind::Var, vec![2, 2], 0, 0));
}

#[test]
fn graph_marks_an_unused_binder_with_zero() {
    // \x. \y. x
    let dag = Dag::from(&dl(1, dl(2, dv(1))));
    assert_eq!(shape(&dag, 1), (Kind::Abs, vec![], 3, 2));
    assert_eq!(shape(&dag, 2), (Kind::Abs, vec![1], 0, 3));
    assert_eq!(shape(&dag, 3), (Kind::Var, vec![2], 0, 0));
}

#[test]
fn find_redex_takes_the_lowest_id() {
    let none = Dag::from(&dl(1, da(dv(1), dv(1))));
    assert_eq!(none.find_redex(), None);
    let redex = da(dl(1, dv(1)), dl(2, dv(2)));
    let one = Dag::from(&redex);
    assert_eq!(one.find_redex(), Some(1));
    let two = Dag::from(&dl(7, da(da(dl(1, dv(1)), dv(7)), da(dl(2, dv(2)), dv(7)))));
    assert!(two.redex_at(3));
    assert!(two.redex_at(7));
    assert!(!two.redex_at(2));
    assert_eq!(two.find_redex(), Some(3));
}

#[test]
fn step_puts_the_argument_where_the_variable_stood() {
    // \z. (\x. z x) z: nodes 1 abs z, 2 app, 3 abs x, 4 app (z x), 5 var z, 6 var x
    let term = dl(9, da(dl(1, da(dv(9), dv(1))), dv(9)));
    let mut dag = Dag::from(&term);
    assert_eq!(shape(&dag, 2), (Kind::App, vec![1], 3, 5));
    assert_eq!(shape(&dag, 4), (Kind::App, vec![3], 5, 6));
    assert_eq!(shape(&dag, 5), (Kind::Var, vec![4, 2], 0, 0));
    dag.step(2);
    assert!(!dag.holds(2));
    assert!(!dag.holds(3));
    assert!(!dag.holds(6));
    assert_eq!(shape(&dag, 1), (Kind::Abs, vec![], 5, 4));
    assert_eq!(shape(&dag, 4), (Kind::App, vec![1], 5, 5));
    assert_eq!(shape(&dag, 5), (Kind::Var, vec![4, 4], 0, 0));
    assert_eq!(dag.find_redex(), None);
}

#[test]
fn step_deletes_an_argument_that_is_not_used() {
    // \z. (\x. z) (z z)
    let term = dl(9, da(dl(1, dv(9)), da(dv(9), dv(9))));
    let mut dag = Dag::from(&term);
    assert_eq!(dag.nodes.len(), 5);
    dag.step(2);
    assert_eq!(dag.nodes.len(), 1);
    assert_eq!(shape(&dag, 1), (Kind::Abs, vec![], 4, 4));
}

#[test]
fn step_on_a_missing_node_changes_nothing() {
    let mut dag = Dag::from(&dl(1, dv(1)));
    dag.step(17);
    assert_eq!(dag.nodes.len(), 2);
    assert_eq!(shape(&dag, 1), (Kind::Abs, vec![], 2, 2));
}

#[test]
fn step_stops_where_the_function_is_missing() {
    let mut dag = Dag::new();
    dag.put(1, Node::app(5, 6, vec![]));
    dag.put(6, Node::var(vec![1]));
    dag.step(1);
    assert!(!dag.holds(1));
    assert!(dag.holds(6));
}

#[test]
fn reduce_within_contracts_up_to_the_limit() {
    let term = dl(9, da(dl(1, dv(1)), da(dl(2, dv(2)), dv(9))));
    let mut dag = Dag::from(&term);
    dag.reduce_within(0);
    assert!(dag.find_redex().is_some());
    dag.reduce_within(1);
    assert_eq!(dag.find_redex(), Some(5));
    dag.reduce_within(10);
    assert_eq!(dag.find_redex(), None);
}

#[test]
fn dag_engine_always_reads_zero() {
    let mut engine = Dag::new();
    assert_eq!(engine.reduce(), Some(0));
    engine.build(&da(dl(1, dv(1)), dl(2, dl(3, da(dv(2), dv(3))))));
    assert_eq!(engine.reduce(), Some(0));
    assert_eq!(engine.find_redex(), None);
    engine.build(&dl(2, dl(3, da(dv(2), dv(3)))));
    assert_eq!(engine.nodes.len(), 5);
    assert_eq!(engine.name(), "dag");
}

fn listed_by_children(dag: &Dag) -> bool {
    dag.nodes.iter().all(|(id, node)| {
        let knows = |child: usize| match dag.nodes.get(&child) {
            Some(c) => c.parents.contains(id),
            None => false,
        };
        match node.kind {
            Kind::Var => true,
            Kind::Abs => knows(node.right),
            Kind::App => knows(node.left) && knows(node.right),
        }
    })
}

#[test]
fn graph_of_a_term_lists_every_node_among_the_parents_of_its_children() {
    let two = dl(1, dl(2, da(dv(1), da(dv(1), dv(2)))));
    let terms = vec![
        dl(1, dv(1)),
        dl(5, da(dv(5), dv(5))),
        da(dl(1, dv(1)), dl(2, dv(2))),
        da(da(two, dl(3, dv(3))), dl(4, dl(5, dv(5)))),
        dl(9, da(dl(1, da(dv(9), dv(1))), dv(9))),
    ];
    for t in terms {
        assert!(listed_by_children(&Dag::from(&t)));
    }
}

#[test]
fn step_on_the_identity_leaves_the_parent_without_its_child() {
    // \z. (\x. x) z: the body of the redex is the variable that goes.
    let mut dag = Dag::from(&dl(9, da(dl(1, dv(1)), dv(9))));
    assert!(listed_by_children(&dag));
    dag.step(2);
    assert_eq!(shape(&dag, 1), (Kind::Abs, vec![], 5, 4));
    assert!(!dag.holds(4));
    assert!(!listed_by_children(&dag));
}
