use monster::elf::ElfMetadata;
use monster::engine::{
    build_dataflow_graph, DataFlowGraphBuilder, EngineError, SyscallId, Unsupported, Value,
};
use monster::formula::{ArgumentSide, BooleanFunction, Formula, Node};
use monster::instruction::{
    evaluate, sign_extend, sign_extend_itype_stype, IType, Instruction, RType, SType, UType,
};
use monster::smt::{smt_terms, SmtTerm};
use petgraph::graph::NodeIndex;
use petgraph::visit::EdgeRef;
use petgraph::Direction;

const A0: u32 = 10;
const A1: u32 = 11;
const A2: u32 = 12;
const A7: u32 = 17;

fn addi(rd: u32, rs1: u32, imm: u32) -> Instruction {
    Instruction::Addi(IType { rd, rs1, imm })
}

fn ld(rd: u32, rs1: u32, imm: u32) -> Instruction {
    Instruction::Ld(IType { rd, rs1, imm })
}

fn sd(rs1: u32, rs2: u32, imm: u32) -> Instruction {
    Instruction::Sd(SType { rs1, rs2, imm })
}

fn rtype(f: fn(RType) -> Instruction, rd: u32, rs1: u32, rs2: u32) -> Instruction {
    f(RType { rd, rs1, rs2 })
}

fn meta(entry: u64) -> ElfMetadata {
    ElfMetadata { entry_address: entry }
}

fn operands(g: &Formula, node: usize) -> (usize, usize) {
    let mut lhs = None;
    let mut rhs = None;
    for e in g.edges_directed(NodeIndex::new(node), Direction::Incoming) {
        match e.weight() {
            ArgumentSide::Lhs => lhs = Some(e.source().index()),
            ArgumentSide::Rhs => rhs = Some(e.source().index()),
        }
    }
    (lhs.unwrap(), rhs.unwrap())
}

fn read_call(buffer: u32, size: u32) -> Vec<Instruction> {
    vec![addi(A7, 0, 63), addi(A0, 0, 0), addi(A1, 0, buffer), addi(A2, 0, size), Instruction::Ecall]
}

#[test]
fn sign_extension_of_twelve_bit_immediates() {
    assert_eq!(sign_extend_itype_stype(0xFFF), u64::MAX);
    assert_eq!(sign_extend_itype_stype(0xFFF) as i64, -1);
    assert_eq!(sign_extend_itype_stype(0x7FF), 2047);
    assert_eq!(sign_extend(0x80, 8), (-128i64) as u64);
}

#[test]
fn wrapping_arithmetic_on_concrete_values() {
    assert_eq!(evaluate(rtype(Instruction::Add, 1, 1, 1), u64::MAX, 1), 0);
    assert_eq!(evaluate(rtype(Instruction::Sub, 1, 1, 1), 0, 1), u64::MAX);
    assert_eq!(evaluate(rtype(Instruction::Mul, 1, 1, 1), 1 << 63, 2), 0);
    assert_eq!(evaluate(rtype(Instruction::Divu, 1, 1, 1), 7, 2), 3);
    assert_eq!(evaluate(rtype(Instruction::Divu, 1, 1, 1), 7, 0), u64::MAX);
    assert_eq!(evaluate(rtype(Instruction::Remu, 1, 1, 1), 7, 0), 7);
    assert_eq!(evaluate(rtype(Instruction::Remu, 1, 1, 1), 7, 4), 3);
    assert_eq!(evaluate(rtype(Instruction::Sltu, 1, 1, 1), 3, 4), 1);
    assert_eq!(evaluate(rtype(Instruction::Sltu, 1, 1, 1), 4, 4), 0);
}

#[test]
fn concrete_path_wraps_and_builds_no_nodes() {
    let path = vec![
        addi(5, 0, 0xFFF),
        addi(6, 0, 1),
        rtype(Instruction::Add, 7, 5, 6),
        rtype(Instruction::Sub, 8, 0, 6),
        addi(0, 6, 5),
        Instruction::Lui(UType { rd: 9, imm: 0x12345000 }),
    ];
    let mut b = DataFlowGraphBuilder::new(1024, &path, &[], meta(0)).unwrap();
    assert!(b.generate_graph().unwrap().is_none());
    assert_eq!(b.register(5), Value::Concrete(u64::MAX));
    assert_eq!(b.register(7), Value::Concrete(0));
    assert_eq!(b.register(8), Value::Concrete(u64::MAX));
    assert_eq!(b.register(0), Value::Concrete(0));
    assert_eq!(b.register(9), Value::Concrete(0x12345000));
    assert_eq!(b.formula().node_count(), 0);
    assert_eq!(b.formula().edge_count(), 0);
}

#[test]
fn construction_sets_stack_pointer_data_and_break() {
    let data: Vec<u8> = vec![1, 0, 0, 0, 0, 0, 0, 0, 2, 1, 0, 0, 0, 0, 0, 0, 9, 9];
    let path: Vec<Instruction> = vec![];
    let b = DataFlowGraphBuilder::new(1024, &path, &data, meta(64)).unwrap();
    assert_eq!(b.register(2), Value::Concrete(1016));
    assert_eq!(b.register(1), Value::Concrete(0));
    assert_eq!(b.memory_word(8), Some(Value::Concrete(1)));
    assert_eq!(b.memory_word(9), Some(Value::Concrete(0x0102)));
    assert_eq!(b.memory_word(10), Some(Value::Concrete(0x0909)));
    assert_eq!(b.memory_word(11), Some(Value::Uninitialized));
    assert_eq!(b.memory_word(128), None);
    assert_eq!(b.program_break(), 64 + 18);
}

#[test]
fn construction_rejects_degenerate_memory() {
    let path: Vec<Instruction> = vec![];
    assert_eq!(
        DataFlowGraphBuilder::new(7, &path, &[], meta(0)).err(),
        Some(EngineError::MemoryTooSmall)
    );
    assert_eq!(
        DataFlowGraphBuilder::new(64, &path, &[0u8; 16], meta(56)).err(),
        Some(EngineError::DataSegmentOutOfRange)
    );
    assert_eq!(
        DataFlowGraphBuilder::new(8, &path, &[1u8; 12], meta(0)).err(),
        Some(EngineError::DataSegmentOutOfRange)
    );
    assert!(DataFlowGraphBuilder::new(16, &path, &[1u8; 12], meta(0)).is_ok());
}

#[test]
fn read_of_ten_bytes_creates_two_inputs() {
    let path = read_call(64, 10);
    let mut b = DataFlowGraphBuilder::new(1024, &path, &[], meta(0)).unwrap();
    assert!(b.generate_graph().unwrap().is_none());
    let w8 = b.memory_word(8).unwrap();
    let w9 = b.memory_word(9).unwrap();
    assert_eq!(b.memory_word(10), Some(Value::Uninitialized));
    let (i8, i9) = match (w8, w9) {
        (Value::Symbolic(x), Value::Symbolic(y)) => (x, y),
        _ => panic!("read words are not symbolic"),
    };
    assert_ne!(i8, i9);
    let g = b.formula();
    assert_eq!(g.node_count(), 2);
    for i in [i8, i9] {
        match &g[NodeIndex::new(i)] {
            Node::Input(input) => assert_eq!(input.name, "read(0, 64, 10)"),
            _ => panic!("not an input node"),
        }
    }
}

#[test]
fn read_of_whole_words_creates_one_input_per_word() {
    let path = read_call(64, 8);
    let mut b = DataFlowGraphBuilder::new(1024, &path, &[], meta(0)).unwrap();
    assert!(b.generate_graph().unwrap().is_none());
    assert_eq!(b.formula().node_count(), 1);
    assert_eq!(b.memory_word(9), Some(Value::Uninitialized));
}

#[test]
fn brk_below_break_is_refused() {
    let path = vec![addi(A7, 0, 214), addi(A0, 0, 8), Instruction::Ecall];
    let mut b = DataFlowGraphBuilder::new(1024, &path, &[0u8; 16], meta(64)).unwrap();
    assert!(b.generate_graph().unwrap().is_none());
    assert_eq!(b.program_break(), 80);
    assert_eq!(b.register(A0 as usize), Value::Concrete(80));
}

#[test]
fn brk_above_break_advances() {
    let path = vec![addi(A7, 0, 214), addi(A0, 0, 200), Instruction::Ecall];
    let mut b = DataFlowGraphBuilder::new(1024, &path, &[0u8; 16], meta(64)).unwrap();
    assert!(b.generate_graph().unwrap().is_none());
    assert_eq!(b.program_break(), 200);
    assert_eq!(b.register(A0 as usize), Value::Concrete(200));
}

#[test]
fn concrete_exit_yields_no_root() {
    let path = vec![addi(A7, 0, SyscallId::Exit.id() as u32), addi(A0, 0, 0), Instruction::Ecall];
    let mut b = DataFlowGraphBuilder::new(1024, &path, &[], meta(0)).unwrap();
    assert!(b.generate_graph().unwrap().is_none());
    assert_eq!(b.formula().node_count(), 0);
}

#[test]
fn symbolic_exit_yields_greater_than_zero_root() {
    let mut path = read_call(64, 8);
    path.push(addi(5, 0, 64));
    path.push(ld(A0, 5, 0));
    path.push(addi(A0, A0, 0xFFD));
    path.push(addi(A7, 0, 93));
    path.push(Instruction::Ecall);
    path.push(Instruction::Other(0));
    let (g, root) = build_dataflow_graph(&path, &[], meta(0)).unwrap().unwrap();
    match &g[NodeIndex::new(root)] {
        Node::Constrain(c) => {
            assert_eq!(c.op, BooleanFunction::GreaterThan);
            assert_eq!(c.name, "exit_code");
        }
        _ => panic!("root is not a constraint"),
    }
    let (lhs, rhs) = operands(&g, root);
    assert!(matches!(&g[NodeIndex::new(rhs)], Node::Constant(c) if c.value == 0));
    match &g[NodeIndex::new(lhs)] {
        Node::Instruction(i) => assert_eq!(i.instruction, addi(A0, A0, 0xFFD)),
        _ => panic!("exit code is not the addi node"),
    }
    let (x, c) = operands(&g, lhs);
    assert!(matches!(&g[NodeIndex::new(x)], Node::Input(_)));
    assert!(matches!(&g[NodeIndex::new(c)], Node::Constant(k) if k.value == u64::MAX - 2));
    assert_eq!(g.node_count(), 5);
    assert_eq!(g.edge_count(), 4);
    assert_eq!(g.edges_directed(NodeIndex::new(root), Direction::Outgoing).count(), 0);
}

#[test]
fn symbolic_store_and_load_keep_the_value() {
    let mut path = read_call(64, 8);
    path.push(addi(5, 0, 64));
    path.push(ld(6, 5, 0));
    path.push(sd(5, 6, 16));
    path.push(ld(7, 5, 16));
    let mut b = DataFlowGraphBuilder::new(1024, &path, &[], meta(0)).unwrap();
    assert!(b.generate_graph().unwrap().is_none());
    assert_eq!(b.register(7), b.memory_word(8).unwrap());
    assert_eq!(b.memory_word(10), b.memory_word(8));
}

#[test]
fn jumps_clear_link_registers_and_branches_do_nothing() {
    let path = vec![
        addi(1, 0, 5),
        Instruction::Jal(monster::instruction::JType { rd: 1, imm: 8 }),
        addi(3, 0, 5),
        Instruction::Jalr(IType { rd: 3, rs1: 1, imm: 0 }),
        Instruction::Beq(monster::instruction::BType { rs1: 1, rs2: 3, imm: 8 }),
    ];
    let mut b = DataFlowGraphBuilder::new(1024, &path, &[], meta(0)).unwrap();
    assert!(b.generate_graph().unwrap().is_none());
    assert_eq!(b.register(1), Value::Concrete(0));
    assert_eq!(b.register(3), Value::Concrete(0));
}

fn failure(path: Vec<Instruction>) -> EngineError {
    let mut b = DataFlowGraphBuilder::new(1024, &path, &[], meta(0)).unwrap();
    b.generate_graph().err().unwrap()
}

#[test]
fn unsupported_paths_report_position_and_reason() {
    assert_eq!(
        failure(vec![addi(5, 0, 1), Instruction::Other(7)]),
        EngineError::Unsupported {
            position: 1,
            instruction: Instruction::Other(7),
            reason: Unsupported::UnsupportedInstruction
        }
    );
    let reason = |p: Vec<Instruction>| match failure(p) {
        EngineError::Unsupported { reason, .. } => reason,
        e => panic!("unexpected {:?}", e),
    };
    assert_eq!(reason(vec![ld(5, 0, 8), rtype(Instruction::Add, 6, 5, 5)]), Unsupported::UninitializedOperand);
    let mut symbolic_base = read_call(64, 8);
    symbolic_base.push(addi(5, 0, 64));
    symbolic_base.push(ld(6, 5, 0));
    symbolic_base.push(ld(7, 6, 0));
    assert_eq!(reason(symbolic_base), Unsupported::NonConcreteAddress);
    assert_eq!(reason(vec![addi(5, 0, 0x7FF), sd(5, 5, 0)]), Unsupported::AddressOutOfRange);
    let mut symbolic_brk = read_call(64, 8);
    symbolic_brk.push(addi(5, 0, 64));
    symbolic_brk.push(ld(A0, 5, 0));
    symbolic_brk.push(addi(A7, 0, 214));
    symbolic_brk.push(Instruction::Ecall);
    assert_eq!(reason(symbolic_brk), Unsupported::NonConcreteSyscallArgument);
    assert_eq!(reason(vec![ld(A7, 0, 8), Instruction::Ecall]), Unsupported::UninitializedSyscallId);
    let mut symbolic_id = read_call(64, 8);
    symbolic_id.push(addi(5, 0, 64));
    symbolic_id.push(ld(A7, 5, 0));
    symbolic_id.push(Instruction::Ecall);
    assert_eq!(reason(symbolic_id), Unsupported::SymbolicSyscallId);
    assert_eq!(reason(vec![addi(A7, 0, 64), Instruction::Ecall]), Unsupported::UnknownSyscall(64));
    assert_eq!(reason(vec![addi(A7, 0, 93), ld(A0, 0, 8), Instruction::Ecall]), Unsupported::UninitializedOperand);
    assert_eq!(reason(read_call(1016, 16)), Unsupported::AddressOutOfRange);
}

#[test]
fn well_formedness_of_instructions() {
    assert!(addi(31, 31, 4095).is_well_formed());
    assert!(!addi(32, 0, 0).is_well_formed());
    assert!(!addi(1, 0, 4096).is_well_formed());
    assert!(Instruction::Ecall.is_well_formed());
}

#[test]
fn generated_formula_keeps_graph_invariants() {
    let mut path = read_call(64, 16);
    path.push(addi(5, 0, 64));
    path.push(ld(6, 5, 0));
    path.push(ld(7, 5, 8));
    path.push(rtype(Instruction::Mul, 8, 6, 7));
    path.push(addi(8, 8, 5));
    path.push(rtype(Instruction::Sub, A0, 8, 6));
    path.push(rtype(Instruction::Sltu, 9, 6, 0));
    path.push(addi(A7, 0, 93));
    path.push(Instruction::Ecall);
    let (g, root) = build_dataflow_graph(&path, &[], meta(0)).unwrap().unwrap();
    assert!(!petgraph::algo::is_cyclic_directed(&g));
    for e in g.raw_edges() {
        assert!(e.source().index() < e.target().index());
    }
    for i in 0..g.node_count() {
        let n = NodeIndex::new(i);
        let incoming: Vec<ArgumentSide> =
            g.edges_directed(n, Direction::Incoming).map(|e| *e.weight()).collect();
        let outgoing = g.edges_directed(n, Direction::Outgoing).count();
        match &g[n] {
            Node::Input(_) | Node::Constant(_) => assert!(incoming.is_empty()),
            Node::Instruction(_) | Node::Constrain(_) => {
                assert_eq!(incoming.len(), 2);
                assert!(incoming.contains(&ArgumentSide::Lhs));
                assert!(incoming.contains(&ArgumentSide::Rhs));
            }
        }
        if let Node::Constrain(_) = &g[n] {
            assert_eq!(i, root);
            assert_eq!(outgoing, 0);
        }
    }
}

#[test]
fn smt_query_has_one_term_per_node() {
    let mut path = read_call(64, 8);
    path.push(addi(5, 0, 64));
    path.push(ld(A0, 5, 0));
    path.push(addi(A0, A0, 0xFFD));
    path.push(addi(A7, 0, 93));
    path.push(Instruction::Ecall);
    let (g, root) = build_dataflow_graph(&path, &[], meta(0)).unwrap().unwrap();
    let terms = smt_terms(&g, root).unwrap();
    assert_eq!(
        terms,
        vec![
            SmtTerm::Var,
            SmtTerm::Literal(u64::MAX - 2),
            SmtTerm::Apply(addi(A0, A0, 0xFFD), 0, 1),
            SmtTerm::Literal(0),
            SmtTerm::Assert(BooleanFunction::GreaterThan, 2, 3),
        ]
    );
    assert!(smt_terms(&g, 2).is_none());
    assert!(smt_terms(&g, 9).is_none());
}
