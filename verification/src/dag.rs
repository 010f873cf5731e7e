//! The graph reducer: a term as a graph in which all occurrences of one
//! variable are one node, reduced in place. Each node knows its parents, so
//! that a redex can be replaced by its body without a search.

use vstd::prelude::*;
use vstd::string::StringExecFns;
use std::collections::HashMap;
use crate::strategy::{Strategy, STEP_LIMIT};
use crate::tree::Tree;

verus! {

broadcast use vstd::std_specs::hash::group_hash_axioms;

/// The sequence without the last entry that equals `item`.
pub open spec fn without_last(items: Seq<usize>, item: usize) -> Seq<usize>
    decreases items.len(),
{
    if items.len() == 0 {
        items
    } else if items.last() == item {
        items.drop_last()
    } else {
        without_last(items.drop_last(), item).push(items.last())
    }
}

proof fn lemma_without_last_at(items: Seq<usize>, item: usize, at: int)
    requires
        0 <= at < items.len(),
        items[at] == item,
        forall|k: int| at < k < items.len() ==> items[k] != item,
    ensures
        without_last(items, item) == items.remove(at),
    decreases items.len(),
{
    if at < items.len() - 1 {
        lemma_without_last_at(items.drop_last(), item, at);
        assert(items.drop_last().remove(at).push(items.last()) == items.remove(at));
    } else {
        assert(items.drop_last() == items.remove(at));
    }
}

proof fn lemma_without_last_absent(items: Seq<usize>, item: usize)
    requires
        forall|k: int| 0 <= k < items.len() ==> items[k] != item,
    ensures
        without_last(items, item) == items,
    decreases items.len(),
{
    if items.len() > 0 {
        lemma_without_last_absent(items.drop_last(), item);
        assert(items.drop_last().push(items.last()) == items);
    }
}

/// Removes the last entry of the vector that equals `item`, if there is one.
pub fn remove_item(item: usize, vec: &mut Vec<usize>)
    ensures
        final(vec)@ == without_last(old(vec)@, item),
{
    let mut i: usize = vec.len();
    while i > 0
        invariant
            i <= vec.len(),
            vec@ == old(vec)@,
            forall|k: int| i <= k < vec.len() ==> vec@[k] != item,
        decreases i,
    {
        if vec[i - 1] == item {
            proof {
                lemma_without_last_at(vec@, item, i - 1);
            }
            vec.remove(i - 1);
            return ;
        }
        i = i - 1;
    }
    proof {
        lemma_without_last_absent(vec@, item);
    }
}

/// Removing a key from a finite map leaves a finite map, smaller by one if
/// the key was there.
pub proof fn lemma_removal_shrinks(nodes: Map<usize, NodeView>, key: usize)
    requires
        nodes.dom().finite(),
    ensures
        nodes.remove(key).dom().finite(),
        nodes.remove(key).dom().len() == nodes.dom().len() - (if nodes.contains_key(key) {
            1int
        } else {
            0int
        }),
{
    if nodes.contains_key(key) {
        nodes.lemma_remove_key_len(key);
    } else {
        assert(nodes.remove(key) =~= nodes);
    }
}

/// What a node stands for.
#[derive(Debug, Copy, Clone, PartialEq, Eq, Structural)]
pub enum Kind {
    Var,
    Abs,
    App,
}

/// A node of the graph. An application holds its function in `left` and its
/// argument in `right`; an abstraction holds the node of its variable in
/// `left`, or 0 where the variable is never used, and its body in `right`.
/// `parents` lists the nodes that hold this one as function, argument or
/// body, once for each time.
#[derive(Debug)]
pub struct Node {
    pub kind: Kind,
    pub parents: Vec<usize>,
    pub left: usize,
    pub right: usize,
}

/// A node, with its parents as a sequence.
pub struct NodeView {
    pub kind: Kind,
    pub parents: Seq<usize>,
    pub left: usize,
    pub right: usize,
}

impl View for Node {
    type V = NodeView;

    open spec fn view(&self) -> NodeView {
        NodeView { kind: self.kind, parents: self.parents@, left: self.left, right: self.right }
    }
}

impl NodeView {
    /// The node with every child `from` replaced by `to`.
    pub open spec fn redirected(self, from: usize, to: usize) -> NodeView {
        NodeView {
            left: if self.left == from {
                to
            } else {
                self.left
            },
            right: if self.right == from {
                to
            } else {
                self.right
            },
            ..self
        }
    }
}

impl Node {
    /// The node of a variable.
    pub fn var(parents: Vec<usize>) -> (node: Node)
        ensures
            node@ == (NodeView { kind: Kind::Var, parents: parents@, left: 0, right: 0 }),
    {
        Node { kind: Kind::Var, parents, left: 0, right: 0 }
    }

    /// The node of an abstraction.
    pub fn abs(left: usize, right: usize, parents: Vec<usize>) -> (node: Node)
        ensures
            node@ == (NodeView { kind: Kind::Abs, parents: parents@, left, right }),
    {
        Node { kind: Kind::Abs, parents, left, right }
    }

    /// The node of an application.
    pub fn app(left: usize, right: usize, parents: Vec<usize>) -> (node: Node)
        ensures
            node@ == (NodeView { kind: Kind::App, parents: parents@, left, right }),
    {
        Node { kind: Kind::App, parents, left, right }
    }
}

/// The graph: its nodes by id, and the last id handed out.
#[derive(Debug)]
pub struct Dag {
    pub id: usize,
    pub nodes: HashMap<usize, Node>,
}

/// What a graph holds, as a mathematical map.
#[verifier::ext_equal]
pub struct DagView {
    pub id: usize,
    pub nodes: Map<usize, NodeView>,
}

impl View for Dag {
    type V = DagView;

    open spec fn view(&self) -> DagView {
        DagView { id: self.id, nodes: self.nodes@.map_values(|node: Node| node@) }
    }
}

/// What building the graph of a subterm gives: the graph, the node of each
/// variable met so far, and the node at the top of the subterm.
pub struct Grown {
    pub dag: DagView,
    pub names: Map<usize, usize>,
    pub top: usize,
}

impl DagView {
    /// The graph without nodes.
    pub open spec fn empty() -> DagView {
        DagView { id: 0, nodes: Map::empty() }
    }

    /// The graph with `node` stored under `id`.
    pub open spec fn with(self, id: usize, node: NodeView) -> DagView {
        DagView { nodes: self.nodes.insert(id, node), ..self }
    }

    /// The graph without the node `id`.
    pub open spec fn without(self, id: usize) -> DagView {
        DagView { nodes: self.nodes.remove(id), ..self }
    }

    /// The graph with the next id reserved.
    pub open spec fn reserved(self) -> DagView {
        DagView { id: (self.id + 1) as usize, ..self }
    }

    /// The graph of `tree` added to this graph, the top of the subterm having
    /// the given parents. All occurrences of a variable share one node,
    /// made at the first of them; an abstraction holds the name of its
    /// variable for the time being. `None` where the ids run out or a
    /// variable's node is missing.
    pub open spec fn grown(self, names: Map<usize, usize>, tree: Tree, parents: Seq<usize>)
        -> Option<Grown>
        decreases tree,
    {
        match tree {
            Tree::Var(name) => if names.contains_key(name) {
                if self.nodes.contains_key(names[name]) {
                    let node = self.nodes[names[name]];
                    Some(
                        Grown {
                            dag: self.with(
                                names[name],
                                NodeView { parents: node.parents + parents, ..node },
                            ),
                            names,
                            top: names[name],
                        },
                    )
                } else {
                    None
                }
            } else if self.id >= usize::MAX {
                None
            } else {
                let id = (self.id + 1) as usize;
                Some(
                    Grown {
                        dag: self.reserved().with(
                            id,
                            NodeView { kind: Kind::Var, parents, left: 0, right: 0 },
                        ),
                        names: names.insert(name, id),
                        top: id,
                    },
                )
            },
            Tree::Abs(name, body) => if self.id >= usize::MAX {
                None
            } else {
                let id = (self.id + 1) as usize;
                match self.reserved().grown(names, *body, seq![id]) {
                    Some(inner) => Some(
                        Grown {
                            dag: inner.dag.with(
                                id,
                                NodeView { kind: Kind::Abs, parents, left: name, right: inner.top },
                            ),
                            names: inner.names,
                            top: id,
                        },
                    ),
                    None => None,
                }
            },
            Tree::App(left, right) => if self.id >= usize::MAX {
                None
            } else {
                let id = (self.id + 1) as usize;
                match self.reserved().grown(names, *left, seq![id]) {
                    Some(function) => match function.dag.grown(function.names, *right, seq![id]) {
                        Some(argument) => Some(
                            Grown {
                                dag: argument.dag.with(
                                    id,
                                    NodeView {
                                        kind: Kind::App,
                                        parents,
                                        left: function.top,
                                        right: argument.top,
                                    },
                                ),
                                names: argument.names,
                                top: id,
                            },
                        ),
                        None => None,
                    },
                    None => None,
                }
            },
        }
    }

    /// The graph in which each abstraction with an id above `from` holds the
    /// node of its variable in place of the variable's name, or 0 where the
    /// variable has no node.
    pub open spec fn linked(self, names: Map<usize, usize>, from: usize) -> DagView
        decreases self.id - from,
    {
        if from >= self.id {
            self
        } else {
            let id = (from + 1) as usize;
            let next = if self.nodes.contains_key(id) && self.nodes[id].kind == Kind::Abs {
                let node = self.nodes[id];
                self.with(
                    id,
                    NodeView {
                        left: if names.contains_key(node.left) {
                            names[node.left]
                        } else {
                            0
                        },
                        ..node
                    },
                )
            } else {
                self
            };
            next.linked(names, id)
        }
    }

    /// The graph of a term.
    pub open spec fn built(tree: Tree) -> Option<DagView> {
        match DagView::empty().grown(Map::empty(), tree, Seq::empty()) {
            Some(whole) => Some(whole.dag.linked(whole.names, 0)),
            None => None,
        }
    }

    /// Whether the node `id` is a redex: an application whose function is an
    /// abstraction.
    pub open spec fn redex_at(self, id: usize) -> bool {
        &&& self.nodes.contains_key(id)
        &&& self.nodes[id].kind == Kind::App
        &&& self.nodes.contains_key(self.nodes[id].left)
        &&& self.nodes[self.nodes[id].left].kind == Kind::Abs
    }

    /// The redex with the lowest id above `from`, if there is one.
    pub open spec fn redex_above(self, from: usize) -> Option<usize>
        decreases self.id - from,
    {
        if from >= self.id {
            None
        } else if self.redex_at((from + 1) as usize) {
            Some((from + 1) as usize)
        } else {
            self.redex_above((from + 1) as usize)
        }
    }

    /// The graph in which the nodes listed in `parents` hold `to` wherever
    /// they held `from`, and whether all of them were there. The work stops
    /// at the first that is missing.
    pub open spec fn redirected(self, parents: Seq<usize>, from: usize, to: usize) -> (
        DagView,
        bool,
    )
        decreases parents.len(),
    {
        if parents.len() == 0 {
            (self, true)
        } else if !self.nodes.contains_key(parents[0]) {
            (self, false)
        } else {
            self.with(parents[0], self.nodes[parents[0]].redirected(from, to)).redirected(
                parents.drop_first(),
                from,
                to,
            )
        }
    }

    /// The graph in which the node `child`, if it is there, has lost `gone`
    /// from its parents once and has got `parents` in addition.
    pub open spec fn adopted(self, child: usize, gone: usize, parents: Seq<usize>) -> DagView {
        if self.nodes.contains_key(child) {
            let node = self.nodes[child];
            self.with(
                child,
                NodeView { parents: without_last(node.parents, gone) + parents, ..node },
            )
        } else {
            self
        }
    }

    /// The graph without the nodes that can be reached from the nodes in
    /// `stack` through their children. The nodes in `stack` themselves are
    /// gone already.
    pub open spec fn pruned(self, stack: Seq<NodeView>) -> DagView
        decreases 2 * self.nodes.dom().len() + stack.len(),
        when self.nodes.dom().finite()
    {
        if stack.len() == 0 {
            self
        } else {
            let node = stack.last();
            let rest = stack.drop_last();
            let one = if self.nodes.contains_key(node.left) {
                rest.push(self.nodes[node.left])
            } else {
                rest
            };
            let left_gone = self.without(node.left);
            let two = if left_gone.nodes.contains_key(node.right) {
                one.push(left_gone.nodes[node.right])
            } else {
                one
            };
            proof {
                lemma_removal_shrinks(self.nodes, node.left);
                lemma_removal_shrinks(left_gone.nodes, node.right);
            }
            left_gone.without(node.right).pruned(two)
        }
    }

    /// The graph without the node `id` and all that can be reached from it.
    pub open spec fn pruned_from(self, id: usize) -> DagView {
        if self.nodes.contains_key(id) {
            self.without(id).pruned(seq![self.nodes[id]])
        } else {
            self
        }
    }

    /// The graph, the redex `id` taken out already, after the argument has
    /// taken the place of the variable, and whether the work went through.
    /// Where the abstraction has a variable, its node goes, its parents
    /// hold the argument in its place, and the argument gets them as
    /// parents. Where it has none, the argument goes with all below it.
    pub open spec fn argument_moved(self, id: usize, app: NodeView, lam: NodeView) -> (
        DagView,
        bool,
    ) {
        if lam.left != 0 {
            if !self.nodes.contains_key(lam.left) {
                (self, false)
            } else {
                let parents = without_last(
                    without_last(self.nodes[lam.left].parents, id),
                    app.left,
                );
                let moved = self.without(lam.left).redirected(parents, lam.left, app.right);
                if moved.1 {
                    (moved.0.adopted(app.right, id, parents), true)
                } else {
                    moved
                }
            }
        } else {
            (self.pruned_from(app.right), true)
        }
    }

    /// The graph after the redex `id` has been contracted: the application
    /// and its abstraction are gone, the argument stands where the variable
    /// stood, and the body stands where the application stood. Where a node
    /// that the work needs is missing, the work stops there and what has
    /// been done stays done.
    pub open spec fn stepped(self, id: usize) -> DagView {
        if !self.nodes.contains_key(id) {
            self
        } else {
            let app = self.nodes[id];
            let first = self.without(id);
            if !first.nodes.contains_key(app.left) {
                first
            } else {
                let lam = first.nodes[app.left];
                let moved = first.without(app.left).argument_moved(id, app, lam);
                if !moved.1 {
                    moved.0
                } else {
                    let lifted = moved.0.redirected(app.parents, id, lam.right);
                    if !lifted.1 {
                        lifted.0
                    } else {
                        lifted.0.adopted(lam.right, app.left, app.parents)
                    }
                }
            }
        }
    }

    /// The graph after redexes have been contracted, each time the one with
    /// the lowest id, until none is left or `fuel` of them have been.
    pub open spec fn reduced(self, fuel: nat) -> DagView
        decreases fuel,
    {
        if fuel == 0 {
            self
        } else {
            match self.redex_above(0) {
                Some(id) => self.stepped(id).reduced((fuel - 1) as nat),
                None => self,
            }
        }
    }
}

impl Dag {
    /// A graph without nodes.
    pub fn new() -> (dag: Dag)
        ensures
            dag@ == DagView::empty(),
    {
        let dag = Dag { id: 0, nodes: HashMap::new() };
        assert(dag@.nodes =~= Map::<usize, NodeView>::empty());
        dag
    }

    /// Adds a node under a new id.
    pub fn insert(&mut self, node: Node) -> (id: usize)
        requires
            old(self).id < usize::MAX,
        ensures
            id == old(self).id + 1,
            final(self)@ == old(self)@.reserved().with(id, node@),
    {
        self.id = self.id + 1;
        self.nodes.insert(self.id, node);
        assert(self@.nodes =~= old(self)@.nodes.insert(self.id, node@));
        self.id
    }

    /// Reserves the next id.
    pub fn reserve(&mut self) -> (id: usize)
        requires
            old(self).id < usize::MAX,
        ensures
            id == old(self).id + 1,
            final(self)@ == old(self)@.reserved(),
    {
        self.id = self.id + 1;
        self.id
    }

    /// Stores a node under an id of the caller's choice.
    pub fn put(&mut self, id: usize, node: Node)
        ensures
            final(self)@ == old(self)@.with(id, node@),
    {
        self.nodes.insert(id, node);
        assert(self@.nodes =~= old(self)@.nodes.insert(id, node@));
    }

    /// Takes a node out of the graph.
    pub fn remove(&mut self, id: usize) -> (node: Option<Node>)
        ensures
            final(self)@ == old(self)@.without(id),
            match node {
                Some(found) => old(self)@.nodes.contains_key(id) && found@ == old(self)@.nodes[id],
                None => !old(self)@.nodes.contains_key(id),
            },
    {
        let node = self.nodes.remove(&id);
        assert(self@.nodes =~= old(self)@.nodes.remove(id));
        node
    }

    /// Tells whether the graph has a node `id`.
    pub fn holds(&self, id: usize) -> (found: bool)
        ensures
            found == self@.nodes.contains_key(id),
    {
        self.nodes.contains_key(&id)
    }

    fn from_helper(
        &mut self,
        tree: &Tree,
        parents: Vec<usize>,
        map: &mut HashMap<usize, usize>,
    ) -> (top: Option<usize>)
        ensures
            match old(self)@.grown(old(map)@, *tree, parents@) {
                Some(grown) => top == Some(grown.top) && final(self)@ == grown.dag && final(map)@
                    == grown.names,
                None => top is None,
            },
        decreases *tree,
    {
        match tree {
            Tree::Var(name) => {
                let known: Option<usize> = match map.get(name) {
                    Some(v) => Some(*v),
                    None => None,
                };
                match known {
                    Some(v) => {
                        let mut node: Node = match self.remove(v) {
                            Some(node) => node,
                            None => {
                                return None;
                            },
                        };
                        let mut more: Vec<usize> = parents;
                        node.parents.append(&mut more);
                        self.put(v, node);
                        assert(self@ =~= old(self)@.with(
                            v,
                            NodeView {
                                parents: old(self)@.nodes[v].parents + parents@,
                                ..old(self)@.nodes[v]
                            },
                        ));
                        Some(v)
                    },
                    None => {
                        if self.id == usize::MAX {
                            return None;
                        }
                        let v: usize = self.insert(Node::var(parents));
                        map.insert(*name, v);
                        Some(v)
                    },
                }
            },
            Tree::Abs(name, body) => {
                if self.id == usize::MAX {
                    return None;
                }
                let abs_id: usize = self.reserve();
                let mut above: Vec<usize> = Vec::new();
                above.push(abs_id);
                assert(above@ == seq![abs_id]);
                match self.from_helper(body, above, map) {
                    Some(body_id) => {
                        self.put(abs_id, Node::abs(*name, body_id, parents));
                        Some(abs_id)
                    },
                    None => None,
                }
            },
            Tree::App(left, right) => {
                if self.id == usize::MAX {
                    return None;
                }
                let app_id: usize = self.reserve();
                let mut above: Vec<usize> = Vec::new();
                above.push(app_id);
                assert(above@ == seq![app_id]);
                let left_id: usize = match self.from_helper(left, above, map) {
                    Some(id) => id,
                    None => {
                        return None;
                    },
                };
                let mut above: Vec<usize> = Vec::new();
                above.push(app_id);
                assert(above@ == seq![app_id]);
                let right_id: usize = match self.from_helper(right, above, map) {
                    Some(id) => id,
                    None => {
                        return None;
                    },
                };
                self.put(app_id, Node::app(left_id, right_id, parents));
                Some(app_id)
            },
        }
    }

    fn fix_abs_refs(&mut self, map: &HashMap<usize, usize>)
        ensures
            final(self)@ == old(self)@.linked(map@, 0),
    {
        let mut done: usize = 0;
        while done < self.id
            invariant
                self.id == old(self).id,
                self@.linked(map@, done) == old(self)@.linked(map@, 0),
            decreases self.id - done,
        {
            let id: usize = done + 1;
            let is_abs: bool = match self.nodes.get(&id) {
                Some(node) => node.kind == Kind::Abs,
                None => false,
            };
            if is_abs {
                let ghost before = self@;
                let mut node: Node = self.remove(id).unwrap();
                node.left = match map.get(&node.left) {
                    Some(v) => *v,
                    None => 0,
                };
                self.put(id, node);
                assert(self@ =~= before.with(
                    id,
                    NodeView {
                        left: if map@.contains_key(before.nodes[id].left) {
                            map@[before.nodes[id].left]
                        } else {
                            0
                        },
                        ..before.nodes[id]
                    },
                ));
            }
            done = id;
        }
    }

    /// Builds the graph of a term, or nothing where the ids run out.
    pub fn checked_from(tree: &Tree) -> (built: Option<Dag>)
        ensures
            match DagView::built(*tree) {
                Some(dag) => built is Some && built->0@ == dag,
                None => built is None,
            },
    {
        let mut dag = Dag::new();
        let mut map: HashMap<usize, usize> = HashMap::new();
        match dag.from_helper(tree, Vec::new(), &mut map) {
            Some(_) => {
                dag.fix_abs_refs(&map);
                Some(dag)
            },
            None => None,
        }
    }

    /// Builds the graph of a term that has one. Every node of the graph is
    /// listed among the parents of each of its children.
    pub fn from(tree: &Tree) -> (dag: Dag)
        requires
            DagView::built(*tree) is Some,
        ensures
            dag@ == DagView::built(*tree)->0,
            dag@.linked_up(),
    {
        proof {
            DagView::lemma_built_linked(*tree);
        }
        Dag::checked_from(tree).unwrap()
    }

    fn redirect(&mut self, parents: &Vec<usize>, from: usize, to: usize) -> (done: bool)
        ensures
            (final(self)@, done) == old(self)@.redirected(parents@, from, to),
    {
        let mut i: usize = 0;
        assert(parents@.subrange(0, parents.len() as int) == parents@);
        while i < parents.len()
            invariant
                i <= parents.len(),
                self@.redirected(parents@.subrange(i as int, parents.len() as int), from, to)
                    == old(self)@.redirected(parents@, from, to),
            decreases parents.len() - i,
        {
            proof {
                let rest = parents@.subrange(i as int, parents.len() as int);
                assert(rest.drop_first() == parents@.subrange(i + 1, parents.len() as int));
                assert(rest[0] == parents@[i as int]);
            }
            let ghost before = self@;
            let mut node: Node = match self.remove(parents[i]) {
                Some(node) => node,
                None => {
                    assert(self@ =~= before);
                    return false;
                },
            };
            if node.left == from {
                node.left = to;
            }
            if node.right == from {
                node.right = to;
            }
            self.put(parents[i], node);
            assert(self@ =~= before.with(
                parents@[i as int],
                before.nodes[parents@[i as int]].redirected(from, to),
            ));
            i = i + 1;
        }
        true
    }

    fn adopt(&mut self, child: usize, gone: usize, parents: Vec<usize>)
        ensures
            final(self)@ == old(self)@.adopted(child, gone, parents@),
    {
        match self.remove(child) {
            Some(node) => {
                let mut node: Node = node;
                let mut more: Vec<usize> = parents;
                remove_item(gone, &mut node.parents);
                node.parents.append(&mut more);
                self.put(child, node);
                assert(self@ =~= old(self)@.adopted(child, gone, parents@));
            },
            None => {
                assert(self@ =~= old(self)@);
            },
        }
    }

    fn prune(&mut self, id: usize)
        ensures
            final(self)@ == old(self)@.pruned_from(id),
    {
        let first: Node = match self.remove(id) {
            Some(node) => node,
            None => {
                assert(self@ =~= old(self)@);
                return ;
            },
        };
        let mut stack: Vec<Node> = Vec::new();
        stack.push(first);
        let ghost mut views: Seq<NodeView> = seq![old(self)@.nodes[id]];
        proof {
            assert(old(self)@.nodes.dom() =~= old(self).nodes@.dom());
            lemma_removal_shrinks(old(self)@.nodes, id);
        }
        loop
            invariant
                views.len() == stack.len(),
                forall|k: int| 0 <= k < stack.len() ==> (#[trigger] stack@[k])@ == views[k],
                self@.pruned(views) == old(self)@.pruned_from(id),
                self@.nodes.dom().finite(),
            decreases 2 * self@.nodes.dom().len() + stack.len(),
        {
            let node: Node = match stack.pop() {
                Some(node) => node,
                None => {
                    return ;
                },
            };
            let ghost before = self@;
            proof {
                lemma_removal_shrinks(before.nodes, node.left);
                lemma_removal_shrinks(before.without(node.left).nodes, node.right);
                views = views.drop_last();
            }
            let left: Option<Node> = self.remove(node.left);
            let right: Option<Node> = self.remove(node.right);
            if let Some(left) = left {
                proof {
                    views = views.push(left@);
                }
                stack.push(left);
            }
            if let Some(right) = right {
                proof {
                    views = views.push(right@);
                }
                stack.push(right);
            }
        }
    }

    /// Contracts the redex `id`.
    pub fn step(&mut self, id: usize)
        ensures
            final(self)@ == old(self)@.stepped(id),
    {
        let app: Node = match self.remove(id) {
            Some(node) => node,
            None => {
                assert(self@ =~= old(self)@);
                return ;
            },
        };
        let lam: Node = match self.remove(app.left) {
            Some(node) => node,
            None => {
                return ;
            },
        };
        let varid: usize = lam.left;
        let argid: usize = app.right;
        if varid != 0 {
            let mut var: Node = match self.remove(varid) {
                Some(node) => node,
                None => {
                    assert(self@ =~= old(self)@.without(id).without(app.left));
                    return ;
                },
            };
            remove_item(id, &mut var.parents);
            remove_item(app.left, &mut var.parents);
            if !self.redirect(&var.parents, varid, argid) {
                return ;
            }
            self.adopt(argid, id, var.parents);
        } else {
            self.prune(argid);
        }
        let bodyid: usize = lam.right;
        if !self.redirect(&app.parents, id, bodyid) {
            return ;
        }
        self.adopt(bodyid, app.left, app.parents);
    }

    /// Tells whether the node `id` is a redex.
    pub fn redex_at(&self, id: usize) -> (found: bool)
        ensures
            found == self@.redex_at(id),
    {
        match self.nodes.get(&id) {
            Some(node) => {
                if node.kind != Kind::App {
                    return false;
                }
                match self.nodes.get(&node.left) {
                    Some(left) => left.kind == Kind::Abs,
                    None => false,
                }
            },
            None => false,
        }
    }

    /// Finds the redex with the lowest id.
    pub fn find_redex(&self) -> (found: Option<usize>)
        ensures
            found == self@.redex_above(0),
    {
        let mut done: usize = 0;
        while done < self.id
            invariant
                self@.redex_above(done) == self@.redex_above(0),
            decreases self.id - done,
        {
            if self.redex_at(done + 1) {
                return Some(done + 1);
            }
            done = done + 1;
        }
        None
    }

    /// Contracts redexes until none is left, or `limit` of them have been.
    pub fn reduce_within(&mut self, limit: u64)
        ensures
            final(self)@ == old(self)@.reduced(limit as nat),
    {
        let mut left: u64 = limit;
        while left > 0
            invariant
                self@.reduced(left as nat) == old(self)@.reduced(limit as nat),
            decreases left,
        {
            match self.find_redex() {
                Some(redex) => {
                    self.step(redex);
                },
                None => {
                    return ;
                },
            }
            left = left - 1;
        }
    }
}

impl DagView {
    /// The graph that the engine holds once it is loaded with `tree`: the
    /// graph of the term, or the empty graph where the term has none.
    pub open spec fn loaded(tree: Tree) -> DagView {
        match DagView::built(tree) {
            Some(dag) => dag,
            None => DagView::empty(),
        }
    }
}

impl DagView {
    /// Whether each child of the node `parent` is in the graph and lists
    /// the node among its parents. The children of an application are its
    /// function and its argument; the child of an abstraction is its body.
    pub open spec fn acknowledged(self, parent: usize) -> bool {
        let node = self.nodes[parent];
        match node.kind {
            Kind::Var => true,
            Kind::Abs => self.nodes.contains_key(node.right)
                && self.nodes[node.right].parents.contains(parent),
            Kind::App => self.nodes.contains_key(node.left)
                && self.nodes[node.left].parents.contains(parent) && self.nodes.contains_key(
                node.right,
            ) && self.nodes[node.right].parents.contains(parent),
        }
    }

    /// Whether every node is listed among the parents of each of its
    /// children, and no id in use lies above the last id handed out.
    pub open spec fn linked_up(self) -> bool {
        &&& forall|id: usize| self.nodes.contains_key(id) ==> id <= self.id
        &&& forall|id: usize| self.nodes.contains_key(id) ==> #[trigger] self.acknowledged(id)
    }

    /// Whether `after` has every node of this graph, with the same kind
    /// and children and with every parent that it had.
    pub open spec fn extended_by(self, after: DagView) -> bool {
        &&& after.id >= self.id
        &&& forall|id: usize| #[trigger]
            self.nodes.contains_key(id) ==> {
                &&& after.nodes.contains_key(id)
                &&& after.nodes[id].kind == self.nodes[id].kind
                &&& after.nodes[id].left == self.nodes[id].left
                &&& after.nodes[id].right == self.nodes[id].right
                &&& forall|p: usize|
                    self.nodes[id].parents.contains(p) ==> #[trigger] after.nodes[id].parents.contains(
                        p,
                    )
            }
    }

    /// Building the graph of a subterm keeps every node listed among the
    /// parents of its children, and lists the parents given among the
    /// parents of the node at the top.
    pub proof fn lemma_grown_linked(
        self,
        names: Map<usize, usize>,
        tree: Tree,
        parents: Seq<usize>,
    )
        requires
            self.linked_up(),
            self.grown(names, tree, parents) is Some,
        ensures
            ({
                let grown = self.grown(names, tree, parents)->0;
                &&& grown.dag.linked_up()
                &&& self.extended_by(grown.dag)
                &&& grown.dag.nodes.contains_key(grown.top)
                &&& forall|p: usize|
                    parents.contains(p) ==> #[trigger] grown.dag.nodes[grown.top].parents.contains(
                        p,
                    )
                &&& forall|id: usize| #[trigger]
                    grown.dag.nodes.contains_key(id) ==> self.nodes.contains_key(id) || id
                        > self.id
            }),
        decreases tree,
    {
        let grown = self.grown(names, tree, parents)->0;
        match tree {
            Tree::Var(name) => {
                if names.contains_key(name) {
                    let v = names[name];
                    let node = self.nodes[v];
                    assert forall|p: usize| parents.contains(p) implies #[trigger] (node.parents
                        + parents).contains(p) by {
                        let i = choose|i: int| 0 <= i < parents.len() && parents[i] == p;
                        assert((node.parents + parents)[node.parents.len() + i] == p);
                    }
                    assert forall|id: usize, p: usize|
                        self.nodes.contains_key(id) && self.nodes[id].parents.contains(
                            p,
                        ) implies #[trigger] grown.dag.nodes[id].parents.contains(p) by {
                        if id == v {
                            let i = choose|i: int|
                                0 <= i < node.parents.len() && node.parents[i] == p;
                            assert((node.parents + parents)[i] == p);
                        }
                    }
                    assert forall|id: usize| grown.dag.nodes.contains_key(
                        id,
                    ) implies #[trigger] grown.dag.acknowledged(id) by {
                        assert(self.acknowledged(id));
                    }
                } else {
                    assert forall|id: usize| grown.dag.nodes.contains_key(
                        id,
                    ) implies #[trigger] grown.dag.acknowledged(id) by {
                        if id != grown.top {
                            assert(self.acknowledged(id));
                        }
                    }
                }
            },
            Tree::Abs(name, body) => {
                let id = (self.id + 1) as usize;
                let start = self.reserved();
                assert forall|k: usize| start.nodes.contains_key(k) implies #[trigger] start.acknowledged(
                    k,
                ) by {
                    assert(self.acknowledged(k));
                }
                start.lemma_grown_linked(names, *body, seq![id]);
                let inner = start.grown(names, *body, seq![id])->0;
                assert(seq![id].contains(id)) by {
                    assert(seq![id][0] == id);
                }
                assert(!inner.dag.nodes.contains_key(id));
                assert forall|k: usize| grown.dag.nodes.contains_key(
                    k,
                ) implies #[trigger] grown.dag.acknowledged(k) by {
                    if k != id {
                        assert(inner.dag.nodes.contains_key(k));
                        assert(inner.dag.acknowledged(k));
                    }
                }
            },
            Tree::App(left, right) => {
                let id = (self.id + 1) as usize;
                let start = self.reserved();
                assert forall|k: usize| start.nodes.contains_key(k) implies #[trigger] start.acknowledged(
                    k,
                ) by {
                    assert(self.acknowledged(k));
                }
                start.lemma_grown_linked(names, *left, seq![id]);
                let function = start.grown(names, *left, seq![id])->0;
                function.dag.lemma_grown_linked(function.names, *right, seq![id]);
                let argument = function.dag.grown(function.names, *right, seq![id])->0;
                assert(seq![id].contains(id)) by {
                    assert(seq![id][0] == id);
                }
                assert(function.dag.nodes[function.top].parents.contains(id));
                assert(argument.dag.nodes[function.top].parents.contains(id));
                assert(!function.dag.nodes.contains_key(id));
                assert(!argument.dag.nodes.contains_key(id));
                assert forall|k: usize| grown.dag.nodes.contains_key(
                    k,
                ) implies #[trigger] grown.dag.acknowledged(k) by {
                    if k != id {
                        assert(argument.dag.nodes.contains_key(k));
                        assert(argument.dag.acknowledged(k));
                    }
                }
            },
        }
    }

    /// Putting the nodes of the variables in place of their names keeps
    /// every node listed among the parents of its children.
    pub proof fn lemma_linked_keeps(self, names: Map<usize, usize>, from: usize)
        requires
            self.linked_up(),
        ensures
            self.linked(names, from).linked_up(),
        decreases self.id - from,
    {
        if from < self.id {
            let id = (from + 1) as usize;
            let next = if self.nodes.contains_key(id) && self.nodes[id].kind == Kind::Abs {
                let node = self.nodes[id];
                self.with(
                    id,
                    NodeView {
                        left: if names.contains_key(node.left) {
                            names[node.left]
                        } else {
                            0
                        },
                        ..node
                    },
                )
            } else {
                self
            };
            assert forall|k: usize| next.nodes.contains_key(k) implies #[trigger] next.acknowledged(
                k,
            ) by {
                assert(self.acknowledged(k));
            }
            next.lemma_linked_keeps(names, id);
        }
    }

    /// In the graph of a term, every node is listed among the parents of
    /// each of its children.
    pub proof fn lemma_built_linked(tree: Tree)
        requires
            DagView::built(tree) is Some,
        ensures
            DagView::built(tree)->0.linked_up(),
    {
        let start = DagView::empty();
        start.lemma_grown_linked(Map::empty(), tree, Seq::empty());
        let whole = start.grown(Map::empty(), tree, Seq::empty())->0;
        whole.dag.lemma_linked_keeps(whole.names, 0);
    }

    /// The state that the engine has after `tree` is loaded into it,
    /// whatever state `self` it had before.
    pub open spec fn rebuilt(self, tree: Tree) -> DagView {
        DagView::loaded(tree)
    }

    /// Loading a term leaves nothing of the state that the engine had before.
    pub proof fn lemma_build_forgets(self, other: DagView, tree: Tree, fuel: nat)
        ensures
            self.rebuilt(tree) == other.rebuilt(tree),
            self.rebuilt(tree).reduced(fuel) == other.rebuilt(tree).reduced(fuel),
    {
    }

    /// A graph without a redex is left as it is.
    pub proof fn lemma_reduce_keeps_normal_form(self, fuel: nat)
        requires
            self.redex_above(0) is None,
        ensures
            self.reduced(fuel) == self,
    {
    }
}

impl Strategy for Dag {
    open spec fn loaded_with(&self, tree: Tree) -> bool {
        self@ == DagView::loaded(tree)
    }

    open spec fn result(&self) -> Option<u64> {
        Some(0u64)
    }

    /// Loads the graph of the term.
    fn build(&mut self, tree: &Tree)
        ensures
            final(self)@ == old(self)@.rebuilt(*tree),
    {
        match Dag::checked_from(tree) {
            Some(dag) => {
                *self = dag;
            },
            None => {
                *self = Dag::new();
            },
        }
    }

    /// Contracts the redexes of the graph. The graph is not read back: the
    /// value is always 0.
    fn reduce(&mut self) -> (value: Option<u64>)
        ensures
            final(self)@ == old(self)@.reduced(STEP_LIMIT as nat),
            value == Some(0u64),
    {
        self.reduce_within(STEP_LIMIT);
        Some(0)
    }

    fn name(&self) -> (name: String)
        ensures
            name@ == "dag"@,
    {
        String::from_str("dag")
    }
}

} // verus!
