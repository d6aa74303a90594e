use crate::instruction::Instruction;
use vstd::prelude::*;

verus! {

/// The operand position that an edge feeds.
#[derive(Clone, Copy, Debug, PartialEq, Eq, Structural, Hash)]
pub enum ArgumentSide {
    Lhs,
    Rhs,
}

impl ArgumentSide {
    pub fn other(&self) -> (r: ArgumentSide)
        ensures
            r != *self,
    {
        match self {
            ArgumentSide::Lhs => ArgumentSide::Rhs,
            ArgumentSide::Rhs => ArgumentSide::Lhs,
        }
    }
}

/// A binary operator node.
#[derive(Clone, Copy, Debug, PartialEq, Eq, Structural, Hash)]
pub struct Instr {
    pub instruction: Instruction,
}

impl Instr {
    pub fn new(instruction: Instruction) -> (r: Self)
        ensures
            r.instruction == instruction,
    {
        Self { instruction }
    }
}

/// A literal word.
#[derive(Clone, Copy, Debug, PartialEq, Eq, Structural, Hash)]
pub struct Const {
    pub value: u64,
}

impl Const {
    pub fn new(value: u64) -> (r: Self)
        ensures
            r.value == value,
    {
        Self { value }
    }
}

/// One externally supplied, unknown word.
#[derive(Clone, Debug, PartialEq, Eq, Hash)]
pub struct Input {
    pub name: String,
}

impl Input {
    pub fn new(name: String) -> (r: Self)
        ensures
            r.name@ == name@,
    {
        Self { name }
    }
}

/// The relation that a constraint node asserts between its operands.
#[derive(Clone, Copy, Debug, PartialEq, Eq, Structural, Hash)]
pub enum BooleanFunction {
    Equals,
    GreaterThan,
}

/// The terminal node: the failure condition, over its two operands.
#[derive(Clone, Debug, PartialEq, Eq, Hash)]
pub struct Constrain {
    pub name: String,
    pub op: BooleanFunction,
}

impl Constrain {
    pub fn new(name: String, op: BooleanFunction) -> (r: Self)
        ensures
            r.name@ == name@,
            r.op == op,
    {
        Self { name, op }
    }
}

#[derive(Clone, Debug, PartialEq, Eq, Hash)]
pub enum Node {
    Instruction(Instr),
    Constant(Const),
    Input(Input),
    Constrain(Constrain),
}

/// What a node says, with names as character sequences.
pub enum NodeView {
    Instruction(Instruction),
    Constant(u64),
    Input(Seq<char>),
    Constrain(Seq<char>, BooleanFunction),
}

impl View for Node {
    type V = NodeView;

    open spec fn view(&self) -> NodeView {
        match self {
            Node::Instruction(i) => NodeView::Instruction(i.instruction),
            Node::Constant(c) => NodeView::Constant(c.value),
            Node::Input(i) => NodeView::Input(i.name@),
            Node::Constrain(c) => NodeView::Constrain(c.name@, c.op),
        }
    }
}

/// An edge from the operand node `source` into `target`.
#[derive(Clone, Copy, Debug, PartialEq, Eq, Structural, Hash)]
pub struct FormulaEdge {
    pub source: usize,
    pub target: usize,
    pub side: ArgumentSide,
}

/// The formula graph: nodes and operand edges, indexed by insertion order.
pub type Formula = petgraph::Graph<Node, ArgumentSide>;

#[verifier::external_type_specification]
#[verifier::external_body]
#[verifier::reject_recursive_types(N)]
#[verifier::reject_recursive_types(E)]
#[verifier::reject_recursive_types(Ty)]
#[verifier::reject_recursive_types(Ix)]
pub struct ExGraph<N, E, Ty, Ix>(petgraph::Graph<N, E, Ty, Ix>);

#[verifier::external_type_specification]
#[verifier::external_body]
pub struct ExDirected(petgraph::Directed);

/// The nodes of a graph, in index order.
pub uninterp spec fn formula_nodes(g: Formula) -> Seq<Node>;

/// The edges of a graph, in insertion order.
pub uninterp spec fn formula_edges(g: Formula) -> Seq<FormulaEdge>;

/// The views of a sequence of nodes.
pub open spec fn views_of(s: Seq<Node>) -> Seq<NodeView> {
    s.map_values(|n: Node| n@)
}

/// The node views of a graph.
pub open spec fn node_views(g: Formula) -> Seq<NodeView> {
    views_of(formula_nodes(g))
}

/// Relies on petgraph's `Graph::new`: a graph without nodes or edges.
#[verifier::external_body]
pub(crate) fn empty_formula() -> (g: Formula)
    ensures
        formula_nodes(g) == Seq::<Node>::empty(),
        formula_edges(g) == Seq::<FormulaEdge>::empty(),
{
    Formula::new()
}

/// Relies on petgraph's `Graph::add_node`: the node is appended and its
/// index is the previous node count; it panics once the count reaches
/// `u32::MAX`, the limit of the default index type.
#[verifier::external_body]
pub(crate) fn add_node(g: &mut Formula, node: Node) -> (r: usize)
    requires
        formula_nodes(*old(g)).len() < u32::MAX,
    ensures
        r == formula_nodes(*old(g)).len(),
        formula_nodes(*final(g)) == formula_nodes(*old(g)).push(node),
        formula_edges(*final(g)) == formula_edges(*old(g)),
{
    g.add_node(node).index()
}

/// Relies on petgraph's `Graph::add_edge`: the edge is appended; it panics
/// when an end is not a node or the edge count reaches `u32::MAX`.
#[verifier::external_body]
pub(crate) fn add_edge(g: &mut Formula, source: usize, target: usize, side: ArgumentSide)
    requires
        source < formula_nodes(*old(g)).len(),
        target < formula_nodes(*old(g)).len(),
        formula_edges(*old(g)).len() < u32::MAX,
    ensures
        formula_nodes(*final(g)) == formula_nodes(*old(g)),
        formula_edges(*final(g)) == formula_edges(*old(g)).push(
            FormulaEdge { source, target, side },
        ),
{
    g.add_edge(petgraph::graph::NodeIndex::new(source), petgraph::graph::NodeIndex::new(target), side);
}

/// Relies on petgraph's `Graph::node_count`: the number of nodes.
#[verifier::external_body]
pub(crate) fn node_count(g: &Formula) -> (r: usize)
    ensures
        r == formula_nodes(*g).len(),
{
    g.node_count()
}

/// Relies on petgraph's `Graph::edge_count`: the number of edges.
#[verifier::external_body]
pub(crate) fn edge_count(g: &Formula) -> (r: usize)
    ensures
        r == formula_edges(*g).len(),
{
    g.edge_count()
}

/// Relies on petgraph's `Graph::raw_nodes`: the node weights in index order.
#[verifier::external_body]
pub(crate) fn nodes_of(g: &Formula) -> (r: Vec<Node>)
    ensures
        r@ == formula_nodes(*g),
{
    g.raw_nodes().iter().map(|n| n.weight.clone()).collect()
}

/// Relies on petgraph's `Graph::raw_edges`: the edges in insertion order,
/// with their end indices and weights.
#[verifier::external_body]
pub(crate) fn edges_of(g: &Formula) -> (r: Vec<FormulaEdge>)
    ensures
        r@ == formula_edges(*g),
{
    g.raw_edges().iter().map(
        |e| FormulaEdge { source: e.source().index(), target: e.target().index(), side: e.weight },
    ).collect()
}


/// The number of edges into node `j`.
pub open spec fn in_degree(edges: Seq<FormulaEdge>, j: int) -> nat
    decreases edges.len(),
{
    if edges.len() == 0 {
        0
    } else {
        in_degree(edges.drop_last(), j) + if edges.last().target == j {
            1nat
        } else {
            0nat
        }
    }
}

/// The number of edges out of node `j`.
pub open spec fn out_degree(edges: Seq<FormulaEdge>, j: int) -> nat
    decreases edges.len(),
{
    if edges.len() == 0 {
        0
    } else {
        out_degree(edges.drop_last(), j) + if edges.last().source == j {
            1nat
        } else {
            0nat
        }
    }
}

/// Whether some edge feeds node `j` at `side`.
pub open spec fn has_operand(edges: Seq<FormulaEdge>, j: int, side: ArgumentSide) -> bool {
    exists|e: int| 0 <= e < edges.len() && #[trigger] edges[e].target == j && edges[e].side == side
}

/// Whether node `j` has exactly two operands, one on each side.
pub open spec fn two_operands(edges: Seq<FormulaEdge>, j: int) -> bool {
    &&& in_degree(edges, j) == 2
    &&& has_operand(edges, j, ArgumentSide::Lhs)
    &&& has_operand(edges, j, ArgumentSide::Rhs)
}

/// The structural invariants of a formula: every edge runs from a lower
/// to a higher node index (so the graph is acyclic), inputs and constants
/// have no operands, operator and constraint nodes have one operand on each
/// side, and nothing consumes a constraint.
pub open spec fn formula_wf(nodes: Seq<NodeView>, edges: Seq<FormulaEdge>) -> bool {
    &&& forall|e: int|
        0 <= e < edges.len() ==> (#[trigger] edges[e]).source < edges[e].target && edges[e].target
            < nodes.len()
    &&& forall|j: int|
        0 <= j < nodes.len() ==> match #[trigger] nodes[j] {
            NodeView::Input(_) | NodeView::Constant(_) => in_degree(edges, j) == 0,
            NodeView::Instruction(op) => op.is_binary() && two_operands(edges, j),
            NodeView::Constrain(_, _) => two_operands(edges, j) && out_degree(edges, j) == 0,
        }
}

pub proof fn lemma_degrees_push(edges: Seq<FormulaEdge>, e: FormulaEdge, j: int)
    ensures
        in_degree(edges.push(e), j) == in_degree(edges, j) + if e.target == j {
            1nat
        } else {
            0nat
        },
        out_degree(edges.push(e), j) == out_degree(edges, j) + if e.source == j {
            1nat
        } else {
            0nat
        },
        has_operand(edges, j, ArgumentSide::Lhs) ==> has_operand(edges.push(e), j, ArgumentSide::Lhs),
        has_operand(edges, j, ArgumentSide::Rhs) ==> has_operand(edges.push(e), j, ArgumentSide::Rhs),
        has_operand(edges.push(e), j, e.side) <== e.target == j,
{
    assert(edges.push(e).drop_last() =~= edges);
    if has_operand(edges, j, ArgumentSide::Lhs) {
        let w = choose|w: int| 0 <= w < edges.len() && #[trigger] edges[w].target == j && edges[w].side == ArgumentSide::Lhs;
        assert(edges.push(e)[w] == edges[w]);
    }
    if has_operand(edges, j, ArgumentSide::Rhs) {
        let w = choose|w: int| 0 <= w < edges.len() && #[trigger] edges[w].target == j && edges[w].side == ArgumentSide::Rhs;
        assert(edges.push(e)[w] == edges[w]);
    }
    if e.target == j {
        assert(edges.push(e)[edges.len() as int] == e);
    }
}

/// A node above every edge's ends has no edges.
pub proof fn lemma_degrees_above(edges: Seq<FormulaEdge>, j: int)
    requires
        forall|e: int| 0 <= e < edges.len() ==> (#[trigger] edges[e]).source < edges[e].target < j,
    ensures
        in_degree(edges, j) == 0,
        out_degree(edges, j) == 0,
    decreases edges.len(),
{
    if edges.len() > 0 {
        let rest = edges.drop_last();
        assert forall|e: int| 0 <= e < rest.len() implies (#[trigger] rest[e]).source < rest[e].target < j by {
            assert(rest[e] == edges[e]);
        }
        lemma_degrees_above(rest, j);
        assert(edges.last() == edges[edges.len() - 1]);
    }
}

/// Whether some edge runs from `a` to `b`.
pub open spec fn joined(edges: Seq<FormulaEdge>, a: int, b: int) -> bool {
    exists|e: int| 0 <= e < edges.len() && #[trigger] edges[e].source == a && edges[e].target == b
}

/// A sequence of node indices each joined to the next by an edge.
pub open spec fn is_walk(edges: Seq<FormulaEdge>, w: Seq<int>) -> bool {
    forall|k: int| 0 <= k < w.len() - 1 ==> #[trigger] joined(edges, w[k], w[k + 1])
}

/// A well-formed formula is acyclic: no walk of one or more edges returns
/// to its start.
pub proof fn lemma_formula_acyclic(nodes: Seq<NodeView>, edges: Seq<FormulaEdge>, w: Seq<int>)
    requires
        formula_wf(nodes, edges),
        is_walk(edges, w),
        w.len() >= 2,
    ensures
        w[0] != w[w.len() - 1],
{
    assert forall|k: int| 1 <= k < w.len() implies w[0] < #[trigger] w[k] by {
        lemma_walk_increases(nodes, edges, w, k);
    }
}

proof fn lemma_walk_increases(nodes: Seq<NodeView>, edges: Seq<FormulaEdge>, w: Seq<int>, k: int)
    requires
        formula_wf(nodes, edges),
        is_walk(edges, w),
        1 <= k < w.len(),
    ensures
        w[0] < w[k],
    decreases k,
{
    let j = k - 1;
    assert(joined(edges, w[j], w[j + 1]));
    assert(j + 1 == k);
    let e = choose|e: int| 0 <= e < edges.len() && #[trigger] edges[e].source == w[k - 1] && edges[e].target == w[k];
    assert(edges[e].source < edges[e].target);
    if k > 1 {
        lemma_walk_increases(nodes, edges, w, k - 1);
    }
}

} // verus!
