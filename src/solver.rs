use crate::bitvec::BitVector;
use crate::formula::{
    edges_of, nodes_of, views_of, ArgumentSide, BooleanFunction, Formula, FormulaEdge, Node,
    NodeView, formula_edges, node_views,
};
use crate::instruction::{alu, evaluate, Instruction};
use crate::ternary::TernaryBitVector;
use vstd::prelude::*;

verus! {

/// The number of candidate values the search may try before it gives up.
pub const SEARCH_BUDGET: u64 = 4096;

/// Whether `v` in place of the unknown operand at `side`, with `s` as the
/// other operand, makes `op` yield `t`.
pub open spec fn solves(op: Instruction, side: ArgumentSide, v: u64, s: u64, t: u64) -> bool {
    match side {
        ArgumentSide::Lhs => alu(op, v, s) == t,
        ArgumentSide::Rhs => alu(op, s, v) == t,
    }
}

/// Appends `v` when it lies in `x` and solves the equation.
fn push_if_solution(
    op: Instruction,
    side: ArgumentSide,
    x: TernaryBitVector,
    v: u64,
    s: u64,
    t: u64,
    out: &mut Vec<u64>,
)
    ensures
        final(out)@ == if x.contains(v) && solves(op, side, v, s, t) {
            old(out)@.push(v)
        } else {
            old(out)@
        },
{
    let bv = BitVector::new(v);
    let result = match side {
        ArgumentSide::Lhs => evaluate(op, v, s),
        ArgumentSide::Rhs => evaluate(op, s, v),
    };
    if x.mcb(bv) && result == t {
        out.push(v);
    }
}

/// The multiplicative inverse of an odd `s` modulo 2^64 by Newton's
/// iteration, each round doubling the number of correct low bits.
fn odd_inverse(s: u64) -> u64 {
    let mut inv: u64 = s;
    let mut k: usize = 0;
    while k < 5
        decreases 5 - k,
    {
        inv = inv.wrapping_mul(2u64.wrapping_sub(s.wrapping_mul(inv)));
        k += 1;
    }
    inv
}

/// Candidate values for the unknown operand of `op` at `side` within the
/// domain `x`, given the other operand `s` and the result `t`. Each
/// candidate is a solution in the domain. Addition and subtraction have a
/// unique solution, which is returned exactly when it lies in `x`; for
/// unsigned less-than a candidate is returned exactly when a solution
/// exists in `x`.
pub fn inverse(op: Instruction, side: ArgumentSide, x: TernaryBitVector, s: u64, t: u64) -> (r: Vec<
    u64,
>)
    ensures
        forall|k: int| 0 <= k < r@.len() ==> x.contains(#[trigger] r@[k]) && solves(op, side, r@[k], s, t),
        op is Add || op is Addi ==> r@ == if x.contains(vstd::wrapping::u64_specs::wrapping_sub(t, s)) {
            seq![vstd::wrapping::u64_specs::wrapping_sub(t, s)]
        } else {
            Seq::<u64>::empty()
        },
        op is Sub && side == ArgumentSide::Lhs ==> r@ == if x.contains(vstd::wrapping::u64_specs::wrapping_add(t, s)) {
            seq![vstd::wrapping::u64_specs::wrapping_add(t, s)]
        } else {
            Seq::<u64>::empty()
        },
        op is Sub && side == ArgumentSide::Rhs ==> r@ == if x.contains(vstd::wrapping::u64_specs::wrapping_sub(s, t)) {
            seq![vstd::wrapping::u64_specs::wrapping_sub(s, t)]
        } else {
            Seq::<u64>::empty()
        },
        op is Sltu ==> (r@.len() > 0 <==> exists|v: u64| x.contains(v) && solves(op, side, v, s, t)),
        op is Remu && side == ArgumentSide::Lhs && (forall|v: u64| x.contains(v)) ==> (r@.len() > 0
            <==> (s == 0 || t < s)),
        op is Divu && side == ArgumentSide::Lhs && (forall|v: u64| x.contains(v)) ==> (r@.len() > 0
            <==> if s == 0 {
            t == u64::MAX
        } else {
            t * s <= u64::MAX
        }),
{
    let mut out: Vec<u64> = Vec::new();
    match op {
        Instruction::Add(_) | Instruction::Addi(_) => {
            push_if_solution(op, side, x, t.wrapping_sub(s), s, t, &mut out);
            proof {
                assert forall|v: u64| solves(op, side, v, s, t) implies v == vstd::wrapping::u64_specs::wrapping_sub(t, s) by {}
                assert(out@ =~= if x.contains(vstd::wrapping::u64_specs::wrapping_sub(t, s)) {
                    seq![vstd::wrapping::u64_specs::wrapping_sub(t, s)]
                } else {
                    Seq::<u64>::empty()
                });
            }
        },
        Instruction::Sub(_) => {
            match side {
                ArgumentSide::Lhs => push_if_solution(op, side, x, t.wrapping_add(s), s, t, &mut out),
                ArgumentSide::Rhs => push_if_solution(op, side, x, s.wrapping_sub(t), s, t, &mut out),
            }
            proof {
                assert(out@ =~= if side == ArgumentSide::Lhs {
                    if x.contains(vstd::wrapping::u64_specs::wrapping_add(t, s)) {
                        seq![vstd::wrapping::u64_specs::wrapping_add(t, s)]
                    } else {
                        Seq::<u64>::empty()
                    }
                } else {
                    if x.contains(vstd::wrapping::u64_specs::wrapping_sub(s, t)) {
                        seq![vstd::wrapping::u64_specs::wrapping_sub(s, t)]
                    } else {
                        Seq::<u64>::empty()
                    }
                });
            }
        },
        Instruction::Mul(_) => {
            if s == 0 {
                push_if_solution(op, side, x, x.lowest(), s, t, &mut out);
            } else {
                if t % s == 0 {
                    push_if_solution(op, side, x, t / s, s, t, &mut out);
                }
                let mut odd: u64 = s;
                let mut shifted: u64 = t;
                let mut divisible = true;
                while odd % 2 == 0
                    invariant
                        odd > 0,
                    decreases odd,
                {
                    if shifted % 2 != 0 {
                        divisible = false;
                    }
                    shifted = shifted / 2;
                    odd = odd / 2;
                }
                if divisible {
                    push_if_solution(op, side, x, shifted.wrapping_mul(odd_inverse(odd)), s, t, &mut out);
                }
            }
        },
        Instruction::Divu(_) => {
            match side {
                ArgumentSide::Lhs => {
                    if s == 0 {
                        push_if_solution(op, side, x, x.lowest(), s, t, &mut out);
                    } else if let Some(v) = t.checked_mul(s) {
                        proof {
                            assert((t * s) / (s as int) == t) by (nonlinear_arith)
                                requires s > 0;
                        }
                        push_if_solution(op, side, x, v, s, t, &mut out);
                    } else {
                        proof {
                            assert forall|v: u64| !(#[trigger] (v / s) == t) by {
                                if v / s == t {
                                    assert(v >= (v / s) * s) by (nonlinear_arith)
                                        requires s > 0;
                                }
                            }
                        }
                    }
                },
                ArgumentSide::Rhs => {
                    push_if_solution(op, side, x, 0, s, t, &mut out);
                    push_if_solution(op, side, x, x.highest(), s, t, &mut out);
                    if t > 0 {
                        push_if_solution(op, side, x, s / t, s, t, &mut out);
                    }
                },
            }
        },
        Instruction::Remu(_) => {
            match side {
                ArgumentSide::Lhs => {
                    proof {
                        if s > 0 {
                            assert(t % s < s);
                            if t < s {
                                vstd::arithmetic::div_mod::lemma_small_mod(t as nat, s as nat);
                            }
                        }
                    }
                    push_if_solution(op, side, x, t, s, t, &mut out);
                },
                ArgumentSide::Rhs => {
                    push_if_solution(op, side, x, 0, s, t, &mut out);
                    push_if_solution(op, side, x, x.highest(), s, t, &mut out);
                    if t < s {
                        push_if_solution(op, side, x, s - t, s, t, &mut out);
                    }
                },
            }
        },
        Instruction::Sltu(_) => {
            let lo = x.lowest();
            let hi = x.highest();
            push_if_solution(op, side, x, lo, s, t, &mut out);
            push_if_solution(op, side, x, hi, s, t, &mut out);
            proof {
                if exists|v: u64| x.contains(v) && solves(op, side, v, s, t) {
                    let v = choose|v: u64| x.contains(v) && solves(op, side, v, s, t);
                    assert(lo <= v && v <= hi);
                    assert(solves(op, side, lo, s, t) || solves(op, side, hi, s, t));
                }
                if out@.len() > 0 {
                    assert(x.contains(out@[0]) && solves(op, side, out@[0], s, t));
                }
            }
        },
        _ => {},
    }
    out
}

/// Addition is inverted by subtraction alone: with either operand
/// unknown, `x + s = t` holds modulo 2^64 exactly when `x = t - s`.
pub proof fn lemma_addition_inverse(op: Instruction, x: u64, s: u64, t: u64)
    requires
        op is Add || op is Addi,
    ensures
        solves(op, ArgumentSide::Lhs, x, s, t) <==> x == vstd::wrapping::u64_specs::wrapping_sub(t, s),
        solves(op, ArgumentSide::Rhs, x, s, t) <==> x == vstd::wrapping::u64_specs::wrapping_sub(t, s),
{
}

/// Whether the equation `x ⊙ s = t` (or `s ⊙ x = t`) has a solution that
/// this solver finds in the domain `x`.
pub fn is_invertable(
    instruction: Instruction,
    side: ArgumentSide,
    x: TernaryBitVector,
    s: BitVector,
    t: BitVector,
) -> (r: bool)
    ensures
        r ==> exists|v: u64| x.contains(v) && solves(instruction, side, v, s.value, t.value),
        instruction is Add || instruction is Addi ==> r == x.contains(
            vstd::wrapping::u64_specs::wrapping_sub(t.value, s.value),
        ),
        instruction is Sltu ==> (r <==> exists|v: u64| x.contains(v) && solves(instruction, side, v, s.value, t.value)),
        instruction is Sub && side == ArgumentSide::Lhs ==> r == x.contains(
            vstd::wrapping::u64_specs::wrapping_add(t.value, s.value),
        ),
        instruction is Sub && side == ArgumentSide::Rhs ==> r == x.contains(
            vstd::wrapping::u64_specs::wrapping_sub(s.value, t.value),
        ),
{
    let candidates = inverse(instruction, side, x, s.value, t.value);
    proof {
        if candidates@.len() > 0 {
            assert(x.contains(candidates@[0]) && solves(instruction, side, candidates@[0], s.value, t.value));
        }
    }
    candidates.len() > 0
}


/// The source of the first edge into `j` at `side`, from edge `from` on.
pub open spec fn find_operand(edges: Seq<FormulaEdge>, j: int, side: ArgumentSide, from: int) -> Option<int>
    decreases edges.len() - from,
{
    if from < 0 || from >= edges.len() {
        None
    } else if edges[from].target == j && edges[from].side == side {
        Some(edges[from].source as int)
    } else {
        find_operand(edges, j, side, from + 1)
    }
}

/// The operand of node `j` at `side`.
pub open spec fn operand(edges: Seq<FormulaEdge>, j: int, side: ArgumentSide) -> Option<int> {
    find_operand(edges, j, side, 0)
}

/// The value of node `j` under the input values `a`, looking at most
/// `depth` operator levels down (enough for any acyclic graph when it is
/// the node count). An unassigned input counts as 0, and so does an
/// operator whose operands are missing, not nodes, or beyond the depth.
pub open spec fn eval(nodes: Seq<NodeView>, edges: Seq<FormulaEdge>, a: Seq<Option<u64>>, j: int, depth: nat) -> u64
    decreases depth,
{
    if 0 <= j < nodes.len() {
        match nodes[j] {
            NodeView::Constant(v) => v,
            NodeView::Input(_) => if j < a.len() && a[j] is Some {
                a[j]->Some_0
            } else {
                0
            },
            NodeView::Instruction(op) => match (
                operand(edges, j, ArgumentSide::Lhs),
                operand(edges, j, ArgumentSide::Rhs),
            ) {
                (Some(l), Some(r)) => if depth > 0 && 0 <= l < nodes.len() && 0 <= r < nodes.len() {
                    alu(
                        op,
                        eval(nodes, edges, a, l, (depth - 1) as nat),
                        eval(nodes, edges, a, r, (depth - 1) as nat),
                    )
                } else {
                    0
                },
                _ => 0,
            },
            NodeView::Constrain(_, _) => 0,
        }
    } else {
        0
    }
}

/// Whether every input within `depth` operator levels below node `j` has
/// a value in `a`, and every operator there has both operands.
pub open spec fn determined(nodes: Seq<NodeView>, edges: Seq<FormulaEdge>, a: Seq<Option<u64>>, j: int, depth: nat) -> bool
    decreases depth,
{
    if 0 <= j < nodes.len() {
        match nodes[j] {
            NodeView::Constant(_) => true,
            NodeView::Input(_) => j < a.len() && a[j] is Some,
            NodeView::Instruction(_) => match (
                operand(edges, j, ArgumentSide::Lhs),
                operand(edges, j, ArgumentSide::Rhs),
            ) {
                (Some(l), Some(r)) => depth > 0 && 0 <= l < nodes.len() && 0 <= r < nodes.len()
                    && determined(nodes, edges, a, l, (depth - 1) as nat)
                    && determined(nodes, edges, a, r, (depth - 1) as nat),
                _ => false,
            },
            NodeView::Constrain(_, _) => false,
        }
    } else {
        false
    }
}

/// `b` keeps every value that `a` gives.
pub open spec fn extends(a: Seq<Option<u64>>, b: Seq<Option<u64>>) -> bool {
    a.len() == b.len() && forall|i: int| 0 <= i < a.len() && (#[trigger] a[i]) is Some ==> b[i] == a[i]
}

pub open spec fn holds(p: BooleanFunction, l: u64, r: u64) -> bool {
    match p {
        BooleanFunction::Equals => l == r,
        BooleanFunction::GreaterThan => l > r,
    }
}

/// Whether the input values `a` make the constraint node `root` true,
/// its operands evaluated as deep as the graph has nodes.
pub open spec fn satisfies(nodes: Seq<NodeView>, edges: Seq<FormulaEdge>, a: Seq<Option<u64>>, root: int) -> bool {
    0 <= root < nodes.len() && match nodes[root] {
        NodeView::Constrain(_, p) => match (
            operand(edges, root, ArgumentSide::Lhs),
            operand(edges, root, ArgumentSide::Rhs),
        ) {
            (Some(l), Some(r)) => 0 <= l < nodes.len() && 0 <= r < nodes.len() && holds(
                p,
                eval(nodes, edges, a, l, nodes.len()),
                eval(nodes, edges, a, r, nodes.len()),
            ),
            _ => false,
        },
        _ => false,
    }
}

/// A determined node keeps its value when more inputs get values.
pub proof fn lemma_eval_stable(
    nodes: Seq<NodeView>,
    edges: Seq<FormulaEdge>,
    a: Seq<Option<u64>>,
    b: Seq<Option<u64>>,
    j: int,
    depth: nat,
)
    requires
        extends(a, b),
        determined(nodes, edges, a, j, depth),
    ensures
        determined(nodes, edges, b, j, depth),
        eval(nodes, edges, b, j, depth) == eval(nodes, edges, a, j, depth),
    decreases depth,
{
    match nodes[j] {
        NodeView::Input(_) => {
            assert(a[j] is Some);
        },
        NodeView::Instruction(_) => {
            let l = operand(edges, j, ArgumentSide::Lhs)->Some_0;
            let r = operand(edges, j, ArgumentSide::Rhs)->Some_0;
            lemma_eval_stable(nodes, edges, a, b, l, (depth - 1) as nat);
            lemma_eval_stable(nodes, edges, a, b, r, (depth - 1) as nat);
        },
        _ => {},
    }
}

pub(crate) fn operand_of(edges: &Vec<FormulaEdge>, j: usize, side: ArgumentSide) -> (r: Option<usize>)
    ensures
        match r {
            Some(x) => operand(edges@, j as int, side) == Some(x as int),
            None => operand(edges@, j as int, side) is None,
        },
{
    let mut i: usize = 0;
    while i < edges.len()
        invariant
            0 <= i <= edges@.len(),
            find_operand(edges@, j as int, side, 0) == find_operand(edges@, j as int, side, i as int),
        decreases edges.len() - i,
    {
        if edges[i].target == j && edges[i].side == side {
            return Some(edges[i].source);
        }
        i += 1;
    }
    None
}

/// Both operands of node `j`, when present and nodes of the graph.
fn operands_of(edges: &Vec<FormulaEdge>, j: usize, n: usize) -> (r: Option<(usize, usize)>)
    ensures
        match r {
            Some((l, rr)) => operand(edges@, j as int, ArgumentSide::Lhs) == Some(l as int)
                && operand(edges@, j as int, ArgumentSide::Rhs) == Some(rr as int) && l < n && rr < n,
            None => !(operand(edges@, j as int, ArgumentSide::Lhs) is Some && operand(edges@, j as int, ArgumentSide::Rhs) is Some
                && 0 <= operand(edges@, j as int, ArgumentSide::Lhs)->Some_0 < n
                && 0 <= operand(edges@, j as int, ArgumentSide::Rhs)->Some_0 < n),
        },
{
    match (operand_of(edges, j, ArgumentSide::Lhs), operand_of(edges, j, ArgumentSide::Rhs)) {
        (Some(l), Some(r)) => if l < n && r < n {
            Some((l, r))
        } else {
            None
        },
        _ => None,
    }
}

/// Computes `eval`.
fn eval_node(nodes: &Vec<Node>, edges: &Vec<FormulaEdge>, a: &Vec<Option<u64>>, j: usize, depth: usize) -> (r: u64)
    requires
        j < nodes@.len(),
    ensures
        r == eval(views_of(nodes@), edges@, a@, j as int, depth as nat),
    decreases depth,
{
    match &nodes[j] {
        Node::Constant(c) => c.value,
        Node::Input(_) => if j < a.len() {
            match a[j] {
                Some(v) => v,
                None => 0,
            }
        } else {
            0
        },
        Node::Instruction(i) => match operands_of(edges, j, nodes.len()) {
            Some((l, r)) => {
                if depth == 0 {
                    return 0;
                }
                let lv = eval_node(nodes, edges, a, l, depth - 1);
                let rv = eval_node(nodes, edges, a, r, depth - 1);
                evaluate(i.instruction, lv, rv)
            },
            None => 0,
        },
        Node::Constrain(_) => 0,
    }
}

/// Computes `determined`.
fn is_determined(nodes: &Vec<Node>, edges: &Vec<FormulaEdge>, a: &Vec<Option<u64>>, j: usize, depth: usize) -> (r: bool)
    requires
        j < nodes@.len(),
    ensures
        r == determined(views_of(nodes@), edges@, a@, j as int, depth as nat),
    decreases depth,
{
    match &nodes[j] {
        Node::Constant(_) => true,
        Node::Input(_) => j < a.len() && a[j].is_some(),
        Node::Instruction(_) => match operands_of(edges, j, nodes.len()) {
            Some((l, r)) => depth > 0 && is_determined(nodes, edges, a, l, depth - 1) && is_determined(
                nodes,
                edges,
                a,
                r,
                depth - 1,
            ),
            None => false,
        },
        Node::Constrain(_) => false,
    }
}

/// Gives every unassigned input within `depth` levels below node `j` the
/// value 0.
fn fix_inputs(nodes: &Vec<Node>, edges: &Vec<FormulaEdge>, a: &mut Vec<Option<u64>>, j: usize, depth: usize) -> (r: bool)
    requires
        j < nodes@.len(),
        old(a)@.len() == nodes@.len(),
    ensures
        extends(old(a)@, final(a)@),
        r ==> determined(views_of(nodes@), edges@, final(a)@, j as int, depth as nat),
    decreases depth,
{
    match &nodes[j] {
        Node::Constant(_) => true,
        Node::Input(_) => {
            if a[j].is_none() {
                a.set(j, Some(0));
            }
            true
        },
        Node::Instruction(_) => match operands_of(edges, j, nodes.len()) {
            Some((l, r)) => {
                if depth == 0 {
                    return false;
                }
                if !fix_inputs(nodes, edges, a, l, depth - 1) {
                    return false;
                }
                let ghost a1 = a@;
                if !fix_inputs(nodes, edges, a, r, depth - 1) {
                    return false;
                }
                proof {
                    lemma_eval_stable(views_of(nodes@), edges@, a1, a@, l as int, (depth - 1) as nat);
                }
                true
            },
            None => false,
        },
        Node::Constrain(_) => false,
    }
}

fn copy_assignment(a: &Vec<Option<u64>>) -> (r: Vec<Option<u64>>)
    ensures
        r@ == a@,
{
    let mut r: Vec<Option<u64>> = Vec::new();
    let mut i: usize = 0;
    while i < a.len()
        invariant
            0 <= i <= a@.len(),
            r@ =~= a@.subrange(0, i as int),
        decreases a.len() - i,
    {
        r.push(a[i]);
        i += 1;
    }
    proof {
        assert(r@ =~= a@);
    }
    r
}

/// The domain of node `j` before the search narrows it: a constant is
/// fixed, anything else open.
fn domain(nodes: &Vec<Node>, j: usize) -> (r: TernaryBitVector)
    requires
        j < nodes@.len(),
    ensures
        !(nodes@[j as int] is Constant) ==> forall|v: u64| r.contains(v),
{
    match &nodes[j] {
        Node::Constant(c) => TernaryBitVector::constant(c.value),
        _ => TernaryBitVector::unconstrained(),
    }
}

/// Whether node `j` adds or subtracts a constant right operand from an
/// input left operand that `a` leaves unassigned.
pub open spec fn input_plus_constant(nodes: Seq<NodeView>, edges: Seq<FormulaEdge>, a: Seq<Option<u64>>, j: int) -> bool {
    &&& 0 <= j < nodes.len()
    &&& nodes[j] is Instruction
    &&& (nodes[j]->Instruction_0 is Add || nodes[j]->Instruction_0 is Addi || nodes[j]->Instruction_0 is Sub)
    &&& operand(edges, j, ArgumentSide::Lhs) is Some
    &&& operand(edges, j, ArgumentSide::Rhs) is Some
    &&& 0 <= operand(edges, j, ArgumentSide::Lhs)->Some_0 < nodes.len()
    &&& 0 <= operand(edges, j, ArgumentSide::Rhs)->Some_0 < nodes.len()
    &&& nodes[operand(edges, j, ArgumentSide::Lhs)->Some_0] is Input
    &&& operand(edges, j, ArgumentSide::Lhs)->Some_0 < a.len()
    &&& a[operand(edges, j, ArgumentSide::Lhs)->Some_0] is None
    &&& nodes[operand(edges, j, ArgumentSide::Rhs)->Some_0] is Constant
}

/// The input value that makes `op` on it and `s` yield `t`: `t - s` for
/// an addition, `t + s` for a subtraction.
pub open spec fn plus_constant_solution(op: Instruction, s: u64, t: u64) -> u64 {
    if op is Sub {
        vstd::wrapping::u64_specs::wrapping_add(t, s)
    } else {
        vstd::wrapping::u64_specs::wrapping_sub(t, s)
    }
}

/// Searches values for the unassigned inputs within `depth` levels below
/// node `j` that make it evaluate to `t`. Walks down one operand at a
/// time: the other operand is fixed (its inputs given 0 where it still has
/// unassigned ones), and each candidate of `inverse` is tried in turn,
/// undoing a failed attempt, while `budget` lasts.
fn propagate(
    nodes: &Vec<Node>,
    edges: &Vec<FormulaEdge>,
    a: &mut Vec<Option<u64>>,
    j: usize,
    t: u64,
    depth: usize,
    budget: &mut u64,
) -> (r: bool)
    requires
        j < nodes@.len(),
        old(a)@.len() == nodes@.len(),
    ensures
        extends(old(a)@, final(a)@),
        r ==> eval(views_of(nodes@), edges@, final(a)@, j as int, depth as nat) == t,
        r ==> determined(views_of(nodes@), edges@, final(a)@, j as int, depth as nat),
        views_of(nodes@)[j as int] is Input && old(a)@[j as int] is None ==> r && final(a)@[j as int]
            == Some(t),
        input_plus_constant(views_of(nodes@), edges@, old(a)@, j as int) && depth > 0 && *old(budget) > 0 ==> {
            let views = views_of(nodes@);
            let x = operand(edges@, j as int, ArgumentSide::Lhs)->Some_0;
            let c = views[operand(edges@, j as int, ArgumentSide::Rhs)->Some_0]->Constant_0;
            r && final(a)@[x] == Some(plus_constant_solution(views[j as int]->Instruction_0, c, t))
        },
    decreases depth,
{
    let ghost views = views_of(nodes@);
    match &nodes[j] {
        Node::Constant(c) => c.value == t,
        Node::Input(_) => match a[j] {
            Some(v) => v == t,
            None => {
                a.set(j, Some(t));
                true
            },
        },
        Node::Constrain(_) => false,
        Node::Instruction(instr) => {
            let op = instr.instruction;
            let (l, r) = match operands_of(edges, j, nodes.len()) {
                Some(p) => p,
                None => {
                    return false;
                },
            };
            if depth == 0 {
                return false;
            }
            let d = depth - 1;
            let solve_lhs: bool;
            if is_determined(nodes, edges, a, r, d) {
                solve_lhs = true;
            } else if is_determined(nodes, edges, a, l, d) {
                solve_lhs = false;
            } else {
                if !fix_inputs(nodes, edges, a, r, d) {
                    return false;
                }
                solve_lhs = true;
            }
            let child = if solve_lhs { l } else { r };
            let other = if solve_lhs { r } else { l };
            let side = if solve_lhs { ArgumentSide::Lhs } else { ArgumentSide::Rhs };
            let s = eval_node(nodes, edges, a, other, d);
            let dom = domain(nodes, child);
            let candidates = inverse(op, side, dom, s, t);
            let ghost a1 = a@;
            let ghost owed = input_plus_constant(views, edges@, old(a)@, j as int) && *old(budget) > 0;
            proof {
                if owed {
                    assert(views[r as int] == nodes@[r as int]@);
                    assert(views[l as int] == nodes@[l as int]@);
                    assert(solve_lhs);
                    assert(a1 == old(a)@);
                    assert(dom.contains(plus_constant_solution(op, s, t)));
                    assert(candidates@ =~= seq![plus_constant_solution(op, s, t)]);
                }
            }
            let mut k: usize = 0;
            while k < candidates.len()
                invariant
                    0 <= k <= candidates@.len(),
                    owed == (input_plus_constant(views, edges@, old(a)@, j as int) && *old(budget) > 0),
                    owed ==> k == 0 && *budget > 0 && solve_lhs && a1[l as int] is None && views[l as int] is Input
                        && candidates@ == seq![plus_constant_solution(op, s, t)]
                        && s == views[r as int]->Constant_0,
                    j < nodes@.len(),
                    depth > 0,
                    d == depth - 1,
                    a@ == a1,
                    extends(old(a)@, a1),
                    a1.len() == nodes@.len(),
                    views == views_of(nodes@),
                    views[j as int] == NodeView::Instruction(op),
                    operand(edges@, j as int, ArgumentSide::Lhs) == Some(l as int),
                    operand(edges@, j as int, ArgumentSide::Rhs) == Some(r as int),
                    l < nodes@.len(),
                    r < nodes@.len(),
                    child == (if solve_lhs { l } else { r }),
                    other == (if solve_lhs { r } else { l }),
                    side == (if solve_lhs { ArgumentSide::Lhs } else { ArgumentSide::Rhs }),
                    determined(views, edges@, a1, other as int, d as nat),
                    s == eval(views, edges@, a1, other as int, d as nat),
                    forall|c: int| 0 <= c < candidates@.len() ==> solves(op, side, #[trigger] candidates@[c], s, t),
                decreases candidates.len() - k,
            {
                if *budget == 0 {
                    return false;
                }
                *budget = *budget - 1;
                let saved = copy_assignment(a);
                let x = candidates[k];
                if propagate(nodes, edges, a, child, x, d, budget) {
                    proof {
                        lemma_eval_stable(views, edges@, a1, a@, other as int, d as nat);
                        assert(solves(op, side, x, s, t));
                        assert(eval(views, edges@, a@, j as int, depth as nat) == alu(
                            op,
                            eval(views, edges@, a@, l as int, d as nat),
                            eval(views, edges@, a@, r as int, d as nat),
                        ));
                    }
                    return true;
                }
                *a = saved;
                k += 1;
            }
            false
        },
    }
}

/// Values for the undetermined operand of a constraint that make it
/// true, given the value `s` of the other operand.
fn relation_targets(p: BooleanFunction, solve_lhs: bool, s: u64) -> (r: Vec<u64>)
    ensures
        forall|k: int| 0 <= k < r@.len() ==> if solve_lhs {
            holds(p, #[trigger] r@[k], s)
        } else {
            holds(p, s, r@[k])
        },
        p == BooleanFunction::Equals ==> r@ == seq![s],
        p == BooleanFunction::GreaterThan && solve_lhs && s < u64::MAX ==> r@.len() > 0 && r@[0] == s + 1,
{
    let mut out: Vec<u64> = Vec::new();
    match p {
        BooleanFunction::Equals => {
            out.push(s);
            assert(out@ =~= seq![s]);
        },
        BooleanFunction::GreaterThan => {
            if solve_lhs {
                if s < u64::MAX {
                    out.push(s + 1);
                    out.push(u64::MAX);
                }
            } else {
                if s > 0 {
                    out.push(s - 1);
                    out.push(0);
                }
            }
        },
    }
    out
}

/// Gives every input that has no value yet the value 0.
fn complete_inputs(nodes: &Vec<Node>, a: &mut Vec<Option<u64>>)
    requires
        old(a)@.len() == nodes@.len(),
    ensures
        extends(old(a)@, final(a)@),
        forall|i: int| 0 <= i < nodes@.len() && (#[trigger] nodes@[i]) is Input ==> final(a)@[i] is Some,
{
    let ghost a0 = a@;
    let mut i: usize = 0;
    while i < nodes.len()
        invariant
            0 <= i <= nodes@.len(),
            a@.len() == nodes@.len(),
            extends(a0, a@),
            a0 == old(a)@,
            forall|k: int| 0 <= k < i && (#[trigger] nodes@[k]) is Input ==> a@[k] is Some,
        decreases nodes.len() - i,
    {
        if let Node::Input(_) = &nodes[i] {
            if a[i].is_none() {
                a.set(i, Some(0));
            }
        }
        i += 1;
    }
}

/// Whether the constraint node `root` compares an input node on its left
/// with a constant on its right that it can exceed or equal.
pub open spec fn input_against_constant(nodes: Seq<NodeView>, edges: Seq<FormulaEdge>, root: int) -> bool {
    &&& 0 <= root < nodes.len()
    &&& nodes[root] is Constrain
    &&& operand(edges, root, ArgumentSide::Lhs) is Some
    &&& operand(edges, root, ArgumentSide::Rhs) is Some
    &&& 0 <= operand(edges, root, ArgumentSide::Lhs)->Some_0 < nodes.len()
    &&& 0 <= operand(edges, root, ArgumentSide::Rhs)->Some_0 < nodes.len()
    &&& nodes[operand(edges, root, ArgumentSide::Lhs)->Some_0] is Input
    &&& nodes[operand(edges, root, ArgumentSide::Rhs)->Some_0] is Constant
    &&& (nodes[root]->Constrain_1 == BooleanFunction::GreaterThan ==> nodes[operand(
        edges,
        root,
        ArgumentSide::Rhs,
    )->Some_0]->Constant_0 < u64::MAX)
}

/// No input value assigned, for `n` nodes.
pub open spec fn no_values(n: nat) -> Seq<Option<u64>> {
    Seq::new(n, |i: int| None::<u64>)
}

/// Whether the constraint node `root` compares an input plus or minus a
/// constant, on its left, with a constant on its right that it can exceed
/// or equal.
pub open spec fn sum_against_constant(nodes: Seq<NodeView>, edges: Seq<FormulaEdge>, root: int) -> bool {
    &&& 0 <= root < nodes.len()
    &&& nodes[root] is Constrain
    &&& operand(edges, root, ArgumentSide::Lhs) is Some
    &&& operand(edges, root, ArgumentSide::Rhs) is Some
    &&& 0 <= operand(edges, root, ArgumentSide::Rhs)->Some_0 < nodes.len()
    &&& nodes[operand(edges, root, ArgumentSide::Rhs)->Some_0] is Constant
    &&& (nodes[root]->Constrain_1 == BooleanFunction::GreaterThan ==> nodes[operand(
        edges,
        root,
        ArgumentSide::Rhs,
    )->Some_0]->Constant_0 < u64::MAX)
    &&& input_plus_constant(nodes, edges, no_values(nodes.len()), operand(edges, root, ArgumentSide::Lhs)->Some_0)
}

/// Searches values for the input nodes that make the constraint node
/// `root` true. `Some` holds a value for every input node, and those
/// values satisfy the constraint; `None` means that this search found
/// none, not that none exists.
pub fn solve(formula: &Formula, root: usize) -> (r: Option<Vec<Option<u64>>>)
    ensures
        r is Some ==> satisfies(node_views(*formula), formula_edges(*formula), r->Some_0@, root as int),
        r is Some ==> r->Some_0@.len() == node_views(*formula).len(),
        r is Some ==> forall|i: int| 0 <= i < node_views(*formula).len() && (#[trigger] node_views(*formula)[i]) is Input
            ==> r->Some_0@[i] is Some,
        input_against_constant(node_views(*formula), formula_edges(*formula), root as int) ==> {
            let views = node_views(*formula);
            let edges = formula_edges(*formula);
            let i = operand(edges, root as int, ArgumentSide::Lhs)->Some_0;
            let c = views[operand(edges, root as int, ArgumentSide::Rhs)->Some_0]->Constant_0;
            &&& r is Some
            &&& r->Some_0@[i] == Some(
                if views[root as int]->Constrain_1 == BooleanFunction::Equals {
                    c
                } else {
                    (c + 1) as u64
                },
            )
        },
        sum_against_constant(node_views(*formula), formula_edges(*formula), root as int) ==> {
            let views = node_views(*formula);
            let edges = formula_edges(*formula);
            let o = operand(edges, root as int, ArgumentSide::Lhs)->Some_0;
            let x = operand(edges, o, ArgumentSide::Lhs)->Some_0;
            let s = views[operand(edges, o, ArgumentSide::Rhs)->Some_0]->Constant_0;
            let c = views[operand(edges, root as int, ArgumentSide::Rhs)->Some_0]->Constant_0;
            let t = if views[root as int]->Constrain_1 == BooleanFunction::Equals {
                c
            } else {
                (c + 1) as u64
            };
            &&& r is Some
            &&& r->Some_0@[x] == Some(plus_constant_solution(views[o]->Instruction_0, s, t))
        },
{
    let nodes = nodes_of(formula);
    let edges = edges_of(formula);
    let ghost views = views_of(nodes@);
    if root >= nodes.len() {
        return None;
    }
    let p = match &nodes[root] {
        Node::Constrain(c) => c.op,
        _ => {
            return None;
        },
    };
    let n = nodes.len();
    let (l, r) = match operands_of(&edges, root, n) {
        Some(pair) => pair,
        None => {
            return None;
        },
    };
    let mut a: Vec<Option<u64>> = Vec::new();
    let mut i: usize = 0;
    while i < nodes.len()
        invariant
            0 <= i <= nodes@.len(),
            a@.len() == i,
            forall|k: int| 0 <= k < i ==> (#[trigger] a@[k]) is None,
        decreases nodes.len() - i,
    {
        a.push(None);
        i += 1;
    }
    let solve_lhs: bool;
    if is_determined(&nodes, &edges, &a, r, n) {
        solve_lhs = true;
    } else if is_determined(&nodes, &edges, &a, l, n) {
        solve_lhs = false;
    } else {
        if !fix_inputs(&nodes, &edges, &mut a, r, n) {
            return None;
        }
        solve_lhs = true;
    }
    let child = if solve_lhs { l } else { r };
    let other = if solve_lhs { r } else { l };
    let s = eval_node(&nodes, &edges, &a, other, n);
    let targets = relation_targets(p, solve_lhs, s);
    let mut budget: u64 = SEARCH_BUDGET;
    let ghost a1 = a@;
    let ghost owed = input_against_constant(views, edges@, root as int);
    let ghost owed_sum = sum_against_constant(views, edges@, root as int);
    proof {
        if owed || owed_sum {
            assert(views[r as int] == nodes@[r as int]@);
            assert(solve_lhs);
            assert(a1 =~= no_values(n as nat));
        }
    }
    let mut k: usize = 0;
    while k < targets.len()
        invariant
            0 <= k <= targets@.len(),
            owed == input_against_constant(views, edges@, root as int),
            owed_sum == sum_against_constant(views, edges@, root as int),
            owed_sum ==> k == 0 && solve_lhs && a1 == no_values(n as nat) && budget == SEARCH_BUDGET
                && targets@.len() > 0
                && targets@[0] == (if p == BooleanFunction::Equals { s } else { (s + 1) as u64 })
                && s == views[r as int]->Constant_0,
            owed ==> k == 0 && solve_lhs && a1 == no_values(n as nat) && targets@.len() > 0
                && targets@[0] == (if p == BooleanFunction::Equals { s } else { (s + 1) as u64 })
                && s == views[r as int]->Constant_0,
            root < nodes@.len(),
            n == nodes@.len(),
            a@ == a1,
            a1.len() == nodes@.len(),
            views == views_of(nodes@),
            views == node_views(*formula),
            edges@ == formula_edges(*formula),
            views[root as int] is Constrain,
            views[root as int]->Constrain_1 == p,
            operand(edges@, root as int, ArgumentSide::Lhs) == Some(l as int),
            operand(edges@, root as int, ArgumentSide::Rhs) == Some(r as int),
            l < n,
            r < n,
            child == (if solve_lhs { l } else { r }),
            other == (if solve_lhs { r } else { l }),
            determined(views, edges@, a1, other as int, n as nat),
            s == eval(views, edges@, a1, other as int, n as nat),
            forall|c: int| 0 <= c < targets@.len() ==> if solve_lhs {
                holds(p, #[trigger] targets@[c], s)
            } else {
                holds(p, s, targets@[c])
            },
        decreases targets.len() - k,
    {
        let saved = copy_assignment(&a);
        let target = targets[k];
        let ghost before = a@;
        if propagate(&nodes, &edges, &mut a, child, target, n, &mut budget) {
            let ghost a2 = a@;
            complete_inputs(&nodes, &mut a);
            proof {
                if owed {
                    assert(a2[l as int] == Some(target));
                    assert(a@[l as int] == a2[l as int]);
                }
                if owed_sum {
                    let x = operand(edges@, l as int, ArgumentSide::Lhs)->Some_0;
                    assert(a@[x] == a2[x]);
                }
            }
            proof {
                lemma_eval_stable(views, edges@, a1, a2, other as int, n as nat);
                lemma_eval_stable(views, edges@, a2, a@, other as int, n as nat);
                lemma_eval_stable(views, edges@, a2, a@, child as int, n as nat);
                assert(holds(p, eval(views, edges@, a@, l as int, n as nat), eval(views, edges@, a@, r as int, n as nat)));
                assert forall|i: int| 0 <= i < views.len() && (#[trigger] views[i]) is Input implies a@[i] is Some by {
                    assert(views[i] == nodes@[i]@);
                }
            }
            return Some(a);
        }
        a = saved;
        k += 1;
    }
    None
}

/// Whether the input values `assignment` make the constraint node `root`
/// of `formula` true.
pub fn satisfies_constraint(formula: &Formula, root: usize, assignment: &Vec<Option<u64>>) -> (r: bool)
    ensures
        r == satisfies(node_views(*formula), formula_edges(*formula), assignment@, root as int),
{
    let nodes = nodes_of(formula);
    let edges = edges_of(formula);
    if root >= nodes.len() {
        return false;
    }
    let p = match &nodes[root] {
        Node::Constrain(c) => c.op,
        _ => {
            return false;
        },
    };
    match operands_of(&edges, root, nodes.len()) {
        Some((l, r)) => {
            let lv = eval_node(&nodes, &edges, assignment, l, nodes.len());
            let rv = eval_node(&nodes, &edges, assignment, r, nodes.len());
            match p {
                BooleanFunction::Equals => lv == rv,
                BooleanFunction::GreaterThan => lv > rv,
            }
        },
        None => false,
    }
}


/// The verdict of a satisfiability backend on a constraint node.
#[derive(Clone, Debug, PartialEq, Eq)]
pub enum SolverResult {
    Unsat,
    /// A value for each input node (indexed by node) that satisfies it.
    Sat(Vec<Option<u64>>),
    Unknown,
}

/// Decides the constraint node `root` with the invertibility search. The
/// search proves no unsatisfiability: when it finds no assignment the
/// verdict is `Unknown`, and another backend may be tried.
pub fn decide(formula: &Formula, root: usize) -> (r: SolverResult)
    ensures
        !(r is Unsat),
        r is Sat ==> satisfies(node_views(*formula), formula_edges(*formula), r->Sat_0@, root as int),
        input_against_constant(node_views(*formula), formula_edges(*formula), root as int) ==> r is Sat,
        sum_against_constant(node_views(*formula), formula_edges(*formula), root as int) ==> r is Sat,
{
    match solve(formula, root) {
        Some(assignment) => SolverResult::Sat(assignment),
        None => SolverResult::Unknown,
    }
}

} // verus!
