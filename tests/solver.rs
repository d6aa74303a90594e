use monster::bitvec::BitVector;
use monster::engine::build_dataflow_graph;
use monster::elf::ElfMetadata;
use monster::formula::{ArgumentSide, BooleanFunction, Const, Constrain, Formula, Input, Instr, Node};
use monster::instruction::{IType, Instruction, RType};
use monster::solver::{inverse, is_invertable, satisfies_constraint, solve};
use monster::ternary::TernaryBitVector;
use petgraph::graph::NodeIndex;

fn create_formula_with_input() -> (Formula, NodeIndex) {
    let mut formula = Formula::new();
    let input = Node::Input(Input::new("x0".to_string()));
    let input_idx = formula.add_node(input);
    (formula, input_idx)
}

fn add_equals_constrain(formula: &mut Formula, to: NodeIndex, on: ArgumentSide, constant: u64) -> NodeIndex {
    let constrain = Node::Constrain(Constrain::new("exit".to_string(), BooleanFunction::Equals));
    let constrain_idx = formula.add_node(constrain);
    let constrain_c = Node::Constant(Const::new(constant));
    let constrain_c_idx = formula.add_node(constrain_c);
    formula.add_edge(to, constrain_idx, on);
    formula.add_edge(constrain_c_idx, constrain_idx, on.other());
    constrain_idx
}

fn add() -> Instruction {
    Instruction::Add(RType { rd: 1, rs1: 1, rs2: 1 })
}

#[test]
fn solve_trivial_equals_constrain() {
    let (mut formula, input_idx) = create_formula_with_input();
    let root = add_equals_constrain(&mut formula, input_idx, ArgumentSide::Lhs, 10);
    let a = solve(&formula, root.index()).unwrap();
    assert_eq!(a[input_idx.index()], Some(10));
    assert!(satisfies_constraint(&formula, root.index(), &a));
}

#[test]
fn addition_inverts_to_the_unique_solution() {
    let x = TernaryBitVector::unconstrained();
    assert_eq!(inverse(add(), ArgumentSide::Lhs, x, 3, 10), vec![7]);
    assert_eq!(inverse(add(), ArgumentSide::Rhs, x, 3, 10), vec![7]);
    assert_eq!(inverse(add(), ArgumentSide::Lhs, x, 3, 1), vec![u64::MAX - 1]);
    assert!(is_invertable(add(), ArgumentSide::Lhs, x, BitVector::new(3), BitVector::new(10)));
    let fixed = TernaryBitVector::constant(8);
    assert!(inverse(add(), ArgumentSide::Lhs, fixed, 3, 10).is_empty());
    assert!(!is_invertable(add(), ArgumentSide::Lhs, fixed, BitVector::new(3), BitVector::new(10)));
}

#[test]
fn solver_picks_seven_for_x_plus_three_equals_ten() {
    let (mut formula, x) = create_formula_with_input();
    let three = formula.add_node(Node::Constant(Const::new(3)));
    let sum = formula.add_node(Node::Instruction(Instr::new(add())));
    formula.add_edge(x, sum, ArgumentSide::Lhs);
    formula.add_edge(three, sum, ArgumentSide::Rhs);
    let root = add_equals_constrain(&mut formula, sum, ArgumentSide::Lhs, 10);
    let a = solve(&formula, root.index()).unwrap();
    assert_eq!(a[x.index()], Some(7));
    assert!(satisfies_constraint(&formula, root.index(), &a));
    let mut wrong = a.clone();
    wrong[x.index()] = Some(6);
    assert!(!satisfies_constraint(&formula, root.index(), &wrong));
}

#[test]
fn other_operators_invert_soundly() {
    let x = TernaryBitVector::unconstrained();
    let sub = Instruction::Sub(RType { rd: 1, rs1: 1, rs2: 1 });
    assert_eq!(inverse(sub, ArgumentSide::Lhs, x, 3, 10), vec![13]);
    assert_eq!(inverse(sub, ArgumentSide::Rhs, x, 3, 10), vec![3u64.wrapping_sub(10)]);
    let mul = Instruction::Mul(RType { rd: 1, rs1: 1, rs2: 1 });
    assert!(inverse(mul, ArgumentSide::Lhs, x, 3, 12).contains(&4));
    for v in inverse(mul, ArgumentSide::Lhs, x, 5, 7) {
        assert_eq!(v.wrapping_mul(5), 7);
    }
    assert!(inverse(mul, ArgumentSide::Lhs, x, 0, 1).is_empty());
    let divu = Instruction::Divu(RType { rd: 1, rs1: 1, rs2: 1 });
    assert_eq!(inverse(divu, ArgumentSide::Lhs, x, 4, 3), vec![12]);
    assert!(inverse(divu, ArgumentSide::Rhs, x, 35, 0).iter().all(|v| *v > 35));
    let remu = Instruction::Remu(RType { rd: 1, rs1: 1, rs2: 1 });
    assert_eq!(inverse(remu, ArgumentSide::Lhs, x, 5, 3), vec![3]);
    let sltu = Instruction::Sltu(RType { rd: 1, rs1: 1, rs2: 1 });
    assert_eq!(inverse(sltu, ArgumentSide::Lhs, x, 5, 1), vec![0]);
    assert!(inverse(sltu, ArgumentSide::Lhs, x, 0, 1).is_empty());
    assert!(inverse(sltu, ArgumentSide::Lhs, x, 0, 2).is_empty());
}

#[test]
fn ternary_domains() {
    let t = TernaryBitVector::new(0b1010, 0b0011);
    assert!(t.mcb(BitVector::new(0b1000)));
    assert!(t.mcb(BitVector::new(0b1011)));
    assert!(!t.mcb(BitVector::new(0b0010)));
    assert_eq!(t.lowest(), 0b1000);
    assert_eq!(t.highest(), 0b1011);
    assert!(TernaryBitVector::unconstrained().mcb(BitVector::new(12345)));
    assert!(!TernaryBitVector::constant(4).mcb(BitVector::new(5)));
}

#[test]
fn bit_vector_arithmetic_wraps() {
    assert_eq!((BitVector::new(u64::MAX) + BitVector::new(1)).value(), 0);
    assert_eq!((BitVector::new(0) - BitVector::new(1)).value(), u64::MAX);
    assert_eq!((BitVector::new(10) - BitVector::new(3)).value(), 7);
}

#[test]
fn symbolic_exit_path_is_solved_and_checked() {
    let path = vec![
        Instruction::Addi(IType { rd: 17, rs1: 0, imm: 63 }),
        Instruction::Addi(IType { rd: 10, rs1: 0, imm: 0 }),
        Instruction::Addi(IType { rd: 11, rs1: 0, imm: 64 }),
        Instruction::Addi(IType { rd: 12, rs1: 0, imm: 8 }),
        Instruction::Ecall,
        Instruction::Addi(IType { rd: 5, rs1: 0, imm: 64 }),
        Instruction::Ld(IType { rd: 10, rs1: 5, imm: 0 }),
        Instruction::Addi(IType { rd: 10, rs1: 10, imm: 0xFFD }),
        Instruction::Addi(IType { rd: 17, rs1: 0, imm: 93 }),
        Instruction::Ecall,
    ];
    let (g, root) = build_dataflow_graph(&path, &[], ElfMetadata { entry_address: 0 })
        .unwrap()
        .unwrap();
    let a = solve(&g, root).unwrap();
    assert!(satisfies_constraint(&g, root, &a));
    let input = (0..g.node_count())
        .find(|i| matches!(g[NodeIndex::new(*i)], Node::Input(_)))
        .unwrap();
    assert_eq!(a[input], Some(4));
}

#[test]
fn solver_rejects_what_is_not_a_constraint() {
    let (formula, x) = create_formula_with_input();
    assert!(solve(&formula, x.index()).is_none());
    assert!(solve(&formula, 5).is_none());
    assert!(!satisfies_constraint(&formula, x.index(), &vec![Some(1)]));
}

#[test]
fn invertibility_backend_reports_sat_or_unknown() {
    let (mut formula, x) = create_formula_with_input();
    let root = add_equals_constrain(&mut formula, x, ArgumentSide::Lhs, 42);
    match monster::solver::decide(&formula, root.index()) {
        monster::solver::SolverResult::Sat(a) => assert_eq!(a[x.index()], Some(42)),
        r => panic!("unexpected verdict {:?}", r),
    }
    let (mut fixed, _) = create_formula_with_input();
    let c = fixed.add_node(Node::Constant(Const::new(1)));
    let root = add_equals_constrain(&mut fixed, c, ArgumentSide::Lhs, 2);
    assert_eq!(
        monster::solver::decide(&fixed, root.index()),
        monster::solver::SolverResult::Unknown
    );
}

#[test]
fn subtraction_under_the_constraint_is_inverted() {
    let (mut formula, x) = create_formula_with_input();
    let four = formula.add_node(Node::Constant(Const::new(4)));
    let diff = formula.add_node(Node::Instruction(Instr::new(Instruction::Sub(RType { rd: 1, rs1: 1, rs2: 1 }))));
    formula.add_edge(x, diff, ArgumentSide::Lhs);
    formula.add_edge(four, diff, ArgumentSide::Rhs);
    let root = add_equals_constrain(&mut formula, diff, ArgumentSide::Lhs, 10);
    let a = solve(&formula, root.index()).unwrap();
    assert_eq!(a[x.index()], Some(14));
    assert!(satisfies_constraint(&formula, root.index(), &a));
    let mul = Instruction::Mul(RType { rd: 1, rs1: 1, rs2: 1 });
    for v in inverse(mul, ArgumentSide::Lhs, TernaryBitVector::unconstrained(), 6, 4) {
        assert_eq!(v.wrapping_mul(6), 4);
    }
    assert!(!inverse(mul, ArgumentSide::Lhs, TernaryBitVector::unconstrained(), 6, 4).is_empty());
}
