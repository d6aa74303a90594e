use crate::formula::{
    edges_of, formula_edges, node_views, nodes_of, views_of, ArgumentSide, BooleanFunction, Formula,
    FormulaEdge, Node, NodeView,
};
use crate::instruction::{alu, Instruction};
use crate::solver::{eval, holds, operand, operand_of, satisfies};
use vstd::prelude::*;

verus! {

/// One term of a bit-vector query, standing for the formula node of the
/// same index; operands are named by node index.
#[derive(Clone, Copy, Debug, PartialEq, Eq, Structural, Hash)]
pub enum SmtTerm {
    /// A free variable: an input node.
    Var,
    /// A literal: a constant node.
    Literal(u64),
    /// An operator applied to its left and right operand.
    Apply(Instruction, usize, usize),
    /// An assertion of a relation between its left and right operand.
    Assert(BooleanFunction, usize, usize),
}

/// Whether node `j` has an operand on each side, both nodes of the graph.
pub open spec fn has_operands(nodes: Seq<NodeView>, edges: Seq<FormulaEdge>, j: int) -> bool {
    &&& operand(edges, j, ArgumentSide::Lhs) is Some
    &&& operand(edges, j, ArgumentSide::Rhs) is Some
    &&& 0 <= operand(edges, j, ArgumentSide::Lhs)->Some_0 < nodes.len()
    &&& 0 <= operand(edges, j, ArgumentSide::Rhs)->Some_0 < nodes.len()
}

/// Whether every operator and constraint node has both operands.
pub open spec fn operands_complete(nodes: Seq<NodeView>, edges: Seq<FormulaEdge>) -> bool {
    forall|j: int|
        0 <= j < nodes.len() && ((#[trigger] nodes[j]) is Instruction || nodes[j] is Constrain)
            ==> has_operands(nodes, edges, j)
}

/// The term of node `j`: a constant is a literal, an input a variable, an
/// operator the application of its opcode and a constraint the assertion
/// of its relation, each to its operands found by their Lhs/Rhs tags.
pub open spec fn term_of(nodes: Seq<NodeView>, edges: Seq<FormulaEdge>, j: int) -> SmtTerm {
    let l = operand(edges, j, ArgumentSide::Lhs)->Some_0 as usize;
    let r = operand(edges, j, ArgumentSide::Rhs)->Some_0 as usize;
    match nodes[j] {
        NodeView::Constant(v) => SmtTerm::Literal(v),
        NodeView::Input(_) => SmtTerm::Var,
        NodeView::Instruction(op) => SmtTerm::Apply(op, l, r),
        NodeView::Constrain(_, p) => SmtTerm::Assert(p, l, r),
    }
}

/// The query for the constraint node `root`: one term per node, each
/// node's operands found by their Lhs/Rhs tags. `None` when `root` is not
/// a constraint node or some operator lacks an operand.
pub fn smt_terms(formula: &Formula, root: usize) -> (r: Option<Vec<SmtTerm>>)
    ensures
        r is Some <==> (root < node_views(*formula).len() && node_views(*formula)[root as int] is Constrain
            && operands_complete(node_views(*formula), formula_edges(*formula))),
        r is Some ==> r->Some_0@.len() == node_views(*formula).len(),
        r is Some ==> forall|j: int|
            0 <= j < r->Some_0@.len() ==> #[trigger] r->Some_0@[j] == term_of(
                node_views(*formula),
                formula_edges(*formula),
                j,
            ),
{
    let nodes = nodes_of(formula);
    let edges = edges_of(formula);
    let ghost views = views_of(nodes@);
    let n = nodes.len();
    if root >= n {
        return None;
    }
    match &nodes[root] {
        Node::Constrain(_) => {},
        _ => {
            return None;
        },
    }
    let mut terms: Vec<SmtTerm> = Vec::new();
    let mut j: usize = 0;
    while j < n
        invariant
            0 <= j <= n,
            n == nodes@.len(),
            views == views_of(nodes@),
            views == node_views(*formula),
            edges@ == formula_edges(*formula),
            terms@.len() == j,
            forall|k: int| 0 <= k < j ==> #[trigger] terms@[k] == term_of(views, edges@, k),
            forall|k: int|
                0 <= k < j && ((#[trigger] views[k]) is Instruction || views[k] is Constrain)
                    ==> has_operands(views, edges@, k),
        decreases n - j,
    {
        let term = match &nodes[j] {
            Node::Constant(c) => SmtTerm::Literal(c.value),
            Node::Input(_) => SmtTerm::Var,
            Node::Instruction(_) | Node::Constrain(_) => {
                let (l, r) = match (
                    operand_of(&edges, j, ArgumentSide::Lhs),
                    operand_of(&edges, j, ArgumentSide::Rhs),
                ) {
                    (Some(l), Some(r)) => (l, r),
                    _ => {
                        proof {
                            assert(views[j as int] == nodes@[j as int]@);
                            assert(!has_operands(views, edges@, j as int));
                        }
                        return None;
                    },
                };
                if l >= n || r >= n {
                    proof {
                        assert(views[j as int] == nodes@[j as int]@);
                        assert(!has_operands(views, edges@, j as int));
                    }
                    return None;
                }
                match &nodes[j] {
                    Node::Instruction(i) => SmtTerm::Apply(i.instruction, l, r),
                    Node::Constrain(c) => SmtTerm::Assert(c.op, l, r),
                    _ => SmtTerm::Var,
                }
            },
        };
        terms.push(term);
        j += 1;
    }
    Some(terms)
}


/// The value of term `j` over 64-bit words, variables read from `a`
/// (0 where unassigned), at most `depth` applications deep.
pub open spec fn term_value(terms: Seq<SmtTerm>, a: Seq<Option<u64>>, j: int, depth: nat) -> u64
    decreases depth,
{
    if 0 <= j < terms.len() {
        match terms[j] {
            SmtTerm::Var => if j < a.len() && a[j] is Some {
                a[j]->Some_0
            } else {
                0
            },
            SmtTerm::Literal(v) => v,
            SmtTerm::Apply(op, l, r) => if depth > 0 && l < terms.len() && r < terms.len() {
                alu(
                    op,
                    term_value(terms, a, l as int, (depth - 1) as nat),
                    term_value(terms, a, r as int, (depth - 1) as nat),
                )
            } else {
                0
            },
            SmtTerm::Assert(_, _, _) => 0,
        }
    } else {
        0
    }
}

/// Whether the assertion at `root` holds over 64-bit words.
pub open spec fn query_holds(terms: Seq<SmtTerm>, a: Seq<Option<u64>>, root: int) -> bool {
    0 <= root < terms.len() && match terms[root] {
        SmtTerm::Assert(p, l, r) => l < terms.len() && r < terms.len() && holds(
            p,
            term_value(terms, a, l as int, terms.len()),
            term_value(terms, a, r as int, terms.len()),
        ),
        _ => false,
    }
}

proof fn lemma_term_value(
    nodes: Seq<NodeView>,
    edges: Seq<FormulaEdge>,
    terms: Seq<SmtTerm>,
    a: Seq<Option<u64>>,
    j: int,
    depth: nat,
)
    requires
        terms.len() == nodes.len(),
        nodes.len() <= usize::MAX,
        forall|k: int| 0 <= k < terms.len() ==> #[trigger] terms[k] == term_of(nodes, edges, k),
        operands_complete(nodes, edges),
        0 <= j < nodes.len(),
    ensures
        term_value(terms, a, j, depth) == eval(nodes, edges, a, j, depth),
    decreases depth,
{
    assert(terms[j] == term_of(nodes, edges, j));
    if nodes[j] is Instruction {
        assert(has_operands(nodes, edges, j));
        if depth > 0 {
            let l = operand(edges, j, ArgumentSide::Lhs)->Some_0;
            let r = operand(edges, j, ArgumentSide::Rhs)->Some_0;
            lemma_term_value(nodes, edges, terms, a, l, (depth - 1) as nat);
            lemma_term_value(nodes, edges, terms, a, r, (depth - 1) as nat);
        }
    }
}

/// The query says what the formula says: for any input values, the
/// assertion at `root`, read over 64-bit words, holds exactly when the
/// constraint node `root` is satisfied. So a solver of the query agrees
/// with the invertibility search on the values it finds.
pub proof fn lemma_query_agrees(
    nodes: Seq<NodeView>,
    edges: Seq<FormulaEdge>,
    terms: Seq<SmtTerm>,
    a: Seq<Option<u64>>,
    root: int,
)
    requires
        terms.len() == nodes.len(),
        nodes.len() <= usize::MAX,
        forall|k: int| 0 <= k < terms.len() ==> #[trigger] terms[k] == term_of(nodes, edges, k),
        operands_complete(nodes, edges),
        0 <= root < nodes.len(),
        nodes[root] is Constrain,
    ensures
        query_holds(terms, a, root) == satisfies(nodes, edges, a, root),
{
    assert(terms[root] == term_of(nodes, edges, root));
    assert(has_operands(nodes, edges, root));
    let l = operand(edges, root, ArgumentSide::Lhs)->Some_0;
    let r = operand(edges, root, ArgumentSide::Rhs)->Some_0;
    lemma_term_value(nodes, edges, terms, a, l, nodes.len());
    lemma_term_value(nodes, edges, terms, a, r, nodes.len());
}

} // verus!
