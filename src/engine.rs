use crate::bytes::{le_value, lemma_le_zero_pad, read_u64_le, zero_bytes};
use crate::elf::ElfMetadata;
use crate::formula::{
    add_edge, add_node, edge_count, empty_formula, formula_edges, formula_nodes, formula_wf,
    in_degree, lemma_degrees_above, lemma_degrees_push, node_count, node_views, out_degree, ArgumentSide, BooleanFunction,
    Const, Constrain, Formula, FormulaEdge, Input, Instr, Node, NodeView,
};
use crate::instruction::{
    alu, evaluate, sign_extend_itype_stype, spec_sign_extend, IType, Instruction, RType, SType, UType,
};
use vstd::prelude::*;
use vstd::string::StringExecFns;

verus! {

pub const REG_SP: usize = 2;

pub const REG_A0: usize = 10;

pub const REG_A1: usize = 11;

pub const REG_A2: usize = 12;

pub const REG_A7: usize = 17;

/// The system calls of the RISC-U runtime.
#[derive(Clone, Copy, Debug, PartialEq, Eq, Structural, Hash)]
pub enum SyscallId {
    Exit,
    Read,
    Write,
    Openat,
    Brk,
}

impl SyscallId {
    pub open spec fn spec_id(self) -> u64 {
        match self {
            SyscallId::Exit => 93,
            SyscallId::Read => 63,
            SyscallId::Write => 64,
            SyscallId::Openat => 56,
            SyscallId::Brk => 214,
        }
    }

    /// The number that selects this call in register a7.
    pub fn id(self) -> (r: u64)
        ensures
            r == self.spec_id(),
    {
        match self {
            SyscallId::Exit => 93,
            SyscallId::Read => 63,
            SyscallId::Write => 64,
            SyscallId::Openat => 56,
            SyscallId::Brk => 214,
        }
    }
}

/// What a register or memory word holds.
#[derive(Clone, Copy, Debug, PartialEq, Eq, Structural, Hash)]
pub enum Value {
    Concrete(u64),
    /// The value of the formula node with this index.
    Symbolic(usize),
    Uninitialized,
}

/// Why a path cannot be modelled.
#[derive(Clone, Copy, Debug, PartialEq, Eq, Structural, Hash)]
pub enum Unsupported {
    UninitializedOperand,
    NonConcreteAddress,
    AddressOutOfRange,
    NonConcreteSyscallArgument,
    UninitializedSyscallId,
    SymbolicSyscallId,
    UnknownSyscall(u64),
    UnsupportedInstruction,
    FormulaTooLarge,
}

#[derive(Clone, Copy, Debug, PartialEq, Eq, Structural, Hash)]
pub enum EngineError {
    /// The memory cannot hold the stack pointer's first word.
    MemoryTooSmall,
    /// The data segment does not fit in memory at the entry address.
    DataSegmentOutOfRange,
    /// The instruction at `position` of the path cannot be modelled.
    Unsupported { position: usize, instruction: Instruction, reason: Unsupported },
}

/// The machine and the formula built so far.
pub struct Machine {
    pub regs: Seq<Value>,
    pub memory: Seq<Value>,
    pub program_break: u64,
    pub nodes: Seq<NodeView>,
    pub edges: Seq<FormulaEdge>,
}

/// The result of one instruction.
pub enum Step {
    Continue(Machine),
    /// The failure condition was reached; its constraint node is given.
    Root(Machine, usize),
    /// The program exited without a condition to solve.
    Exited(Machine),
    Fail(Unsupported),
}

/// The result of a path.
pub enum Outcome {
    Root(Machine, usize),
    NoRoot(Machine),
    /// The instruction at this position failed on this machine.
    Fail(int, Unsupported, Machine),
}

pub open spec fn reg(m: Machine, r: u32) -> Value {
    m.regs[r as int]
}

/// Writes a register; writes to the zero register are dropped.
pub open spec fn set_reg(m: Machine, r: u32, v: Value) -> Machine {
    if r == 0 {
        m
    } else {
        Machine { regs: m.regs.update(r as int, v), ..m }
    }
}

pub open spec fn edge(source: int, target: int, side: ArgumentSide) -> FormulaEdge {
    FormulaEdge { source: source as usize, target: target as usize, side }
}

/// Whether `k` more nodes and two more edges stay under the graph's index limit.
pub open spec fn room(m: Machine, k: int) -> bool {
    m.nodes.len() + k < u32::MAX && m.edges.len() + 2 < u32::MAX
}

pub open spec fn with_constant(m: Machine, v: u64) -> Machine {
    Machine { nodes: m.nodes.push(NodeView::Constant(v)), ..m }
}

/// Adds `node` fed by `lhs` and `rhs`.
pub open spec fn with_operator(m: Machine, node: NodeView, lhs: int, rhs: int) -> Machine {
    let r = m.nodes.len() as int;
    Machine {
        nodes: m.nodes.push(node),
        edges: m.edges.push(edge(lhs, r, ArgumentSide::Lhs)).push(edge(rhs, r, ArgumentSide::Rhs)),
        ..m
    }
}

/// A binary operator on two values: computed when both are concrete,
/// else a new operator node whose concrete operand becomes a constant node.
pub open spec fn spec_binary_op(m: Machine, instruction: Instruction, lhs: Value, rhs: Value) -> Result<
    (Machine, Value),
    Unsupported,
> {
    let n = m.nodes.len() as int;
    let op = NodeView::Instruction(instruction);
    match (lhs, rhs) {
        (Value::Concrete(a), Value::Concrete(b)) => Ok((m, Value::Concrete(alu(instruction, a, b)))),
        (Value::Symbolic(x), Value::Concrete(b)) => if room(m, 2) {
            Ok((with_operator(with_constant(m, b), op, x as int, n), Value::Symbolic((n + 1) as usize)))
        } else {
            Err(Unsupported::FormulaTooLarge)
        },
        (Value::Concrete(a), Value::Symbolic(y)) => if room(m, 2) {
            Ok((with_operator(with_constant(m, a), op, n, y as int), Value::Symbolic((n + 1) as usize)))
        } else {
            Err(Unsupported::FormulaTooLarge)
        },
        (Value::Symbolic(x), Value::Symbolic(y)) => if room(m, 1) {
            Ok((with_operator(m, op, x as int, y as int), Value::Symbolic(n as usize)))
        } else {
            Err(Unsupported::FormulaTooLarge)
        },
        _ => Err(Unsupported::UninitializedOperand),
    }
}

pub open spec fn binary_step(m: Machine, instruction: Instruction, rd: u32, lhs: Value, rhs: Value) -> Step {
    if rd == 0 {
        Step::Continue(m)
    } else {
        match spec_binary_op(m, instruction, lhs, rhs) {
            Ok((m2, v)) => Step::Continue(set_reg(m2, rd, v)),
            Err(e) => Step::Fail(e),
        }
    }
}

/// The word index of a base register plus a sign-extended offset.
pub open spec fn word_index(base: u64, imm: u32) -> int {
    (vstd::wrapping::u64_specs::wrapping_add(base, spec_sign_extend(imm as u64, 12)) / 8) as int
}

pub open spec fn brk_step(m: Machine) -> Step {
    match reg(m, 10) {
        Value::Concrete(requested) => if requested < m.program_break {
            Step::Continue(set_reg(m, 10, Value::Concrete(m.program_break)))
        } else {
            Step::Continue(Machine { program_break: requested, ..m })
        },
        _ => Step::Fail(Unsupported::NonConcreteSyscallArgument),
    }
}

/// The number of words that a read of `size` bytes fills.
pub open spec fn words_for(size: u64) -> int {
    if size % 8 == 0 {
        (size / 8) as int
    } else {
        (size / 8) as int + 1
    }
}

pub open spec fn decimal_digit(d: nat) -> char {
    seq!['0', '1', '2', '3', '4', '5', '6', '7', '8', '9'][d as int]
}

/// The decimal digits of `n`.
pub open spec fn decimal(n: nat) -> Seq<char>
    decreases n,
{
    if n < 10 {
        seq![decimal_digit(n)]
    } else {
        decimal(n / 10) + seq![decimal_digit(n % 10)]
    }
}

/// The name of the inputs that a read creates.
pub open spec fn read_label(fd: u64, buffer: u64, size: u64) -> Seq<char> {
    "read("@ + decimal(fd as nat) + ", "@ + decimal(buffer as nat) + ", "@ + decimal(size as nat)
        + ")"@
}

/// Memory after a read of `words` words at word `start` whose inputs get
/// node indices from `first` on.
pub open spec fn read_memory(memory: Seq<Value>, start: int, words: int, first: int) -> Seq<Value> {
    Seq::new(
        memory.len(),
        |a: int|
            if start <= a < start + words {
                Value::Symbolic((first + a - start) as usize)
            } else {
                memory[a]
            },
    )
}

pub open spec fn read_step(m: Machine) -> Step {
    match (reg(m, 11), reg(m, 12)) {
        (Value::Concrete(buffer), Value::Concrete(size)) => {
            let words = words_for(size);
            let start = (buffer / 8) as int;
            if start + words > m.memory.len() {
                Step::Fail(Unsupported::AddressOutOfRange)
            } else if !room(m, words) {
                Step::Fail(Unsupported::FormulaTooLarge)
            } else {
                let n = m.nodes.len() as int;
                Step::Continue(
                    Machine {
                        nodes: m.nodes + Seq::new(
                            words as nat,
                            |j: int| NodeView::Input(read_label(0, buffer, size)),
                        ),
                        memory: read_memory(m.memory, start, words, n),
                        ..m
                    },
                )
            }
        },
        _ => Step::Fail(Unsupported::NonConcreteSyscallArgument),
    }
}

pub open spec fn exit_step(m: Machine) -> Step {
    match reg(m, 10) {
        Value::Symbolic(code) => if room(m, 2) {
            let n = m.nodes.len() as int;
            Step::Root(
                with_operator(
                    with_constant(m, 0),
                    NodeView::Constrain("exit_code"@, BooleanFunction::GreaterThan),
                    code as int,
                    n,
                ),
                (n + 1) as usize,
            )
        } else {
            Step::Fail(Unsupported::FormulaTooLarge)
        },
        Value::Concrete(_) => Step::Exited(m),
        Value::Uninitialized => Step::Fail(Unsupported::UninitializedOperand),
    }
}

pub open spec fn ecall_step(m: Machine) -> Step {
    match reg(m, 17) {
        Value::Concrete(id) => if id == 214 {
            brk_step(m)
        } else if id == 63 {
            read_step(m)
        } else if id == 93 {
            exit_step(m)
        } else {
            Step::Fail(Unsupported::UnknownSyscall(id))
        },
        Value::Uninitialized => Step::Fail(Unsupported::UninitializedSyscallId),
        Value::Symbolic(_) => Step::Fail(Unsupported::SymbolicSyscallId),
    }
}

/// The effect of one instruction on the machine and the formula.
pub open spec fn step(m: Machine, i: Instruction) -> Step {
    match i {
        Instruction::Ecall => ecall_step(m),
        Instruction::Lui(u) => Step::Continue(set_reg(m, u.rd, Value::Concrete(u.imm as u64))),
        Instruction::Addi(it) => binary_step(
            m,
            i,
            it.rd,
            reg(m, it.rs1),
            Value::Concrete(spec_sign_extend(it.imm as u64, 12)),
        ),
        Instruction::Add(r) | Instruction::Sub(r) | Instruction::Mul(r) | Instruction::Divu(r)
        | Instruction::Remu(r) | Instruction::Sltu(r) => binary_step(
            m,
            i,
            r.rd,
            reg(m, r.rs1),
            reg(m, r.rs2),
        ),
        Instruction::Ld(it) => if it.rd == 0 {
            Step::Continue(m)
        } else {
            match reg(m, it.rs1) {
                Value::Concrete(base) => {
                    let w = word_index(base, it.imm);
                    if w < m.memory.len() {
                        Step::Continue(set_reg(m, it.rd, m.memory[w]))
                    } else {
                        Step::Fail(Unsupported::AddressOutOfRange)
                    }
                },
                _ => Step::Fail(Unsupported::NonConcreteAddress),
            }
        },
        Instruction::Sd(st) => match reg(m, st.rs1) {
            Value::Concrete(base) => {
                let w = word_index(base, st.imm);
                if w < m.memory.len() {
                    Step::Continue(Machine { memory: m.memory.update(w, reg(m, st.rs2)), ..m })
                } else {
                    Step::Fail(Unsupported::AddressOutOfRange)
                }
            },
            _ => Step::Fail(Unsupported::NonConcreteAddress),
        },
        Instruction::Jal(j) => Step::Continue(set_reg(m, j.rd, Value::Concrete(0))),
        Instruction::Jalr(it) => Step::Continue(set_reg(m, it.rd, Value::Concrete(0))),
        Instruction::Beq(_) => Step::Continue(m),
        Instruction::Other(_) => Step::Fail(Unsupported::UnsupportedInstruction),
    }
}

/// Runs `path` from its `k`-th instruction until a root, an exit, a
/// failure or its end.
pub open spec fn run_from(m: Machine, path: Seq<Instruction>, k: nat) -> Outcome
    decreases path.len() - k,
{
    if k >= path.len() {
        Outcome::NoRoot(m)
    } else {
        match step(m, path[k as int]) {
            Step::Continue(m2) => run_from(m2, path, k + 1),
            Step::Root(m2, r) => Outcome::Root(m2, r),
            Step::Exited(m2) => Outcome::NoRoot(m2),
            Step::Fail(e) => Outcome::Fail(k as int, e, m),
        }
    }
}

/// The number of memory words that the data segment fills, a partial
/// last word included.
pub open spec fn data_words(data: Seq<u8>) -> int {
    (data.len() as int + 7) / 8
}

/// The word of the data segment that lands at memory word `a`: its eight
/// bytes, or the bytes left of a partial last word with zeros above them.
pub open spec fn data_word(data: Seq<u8>, start: int, a: int) -> u64 {
    let lo = 8 * (a - start);
    let hi = if lo + 8 <= data.len() {
        lo + 8
    } else {
        data.len() as int
    };
    le_value(data.subrange(lo, hi)) as u64
}

/// The machine before the first instruction: registers zero but the
/// stack pointer, which holds the last word's address; the data
/// segment's words at the entry address, the rest uninitialized;
/// the break after the data segment; an empty formula.
pub open spec fn initial_machine(memory_size: usize, data: Seq<u8>, entry: u64) -> Machine {
    let start = (entry / 8) as int;
    Machine {
        regs: Seq::new(
            32,
            |r: int|
                if r == 2 {
                    Value::Concrete((memory_size - 8) as u64)
                } else {
                    Value::Concrete(0)
                },
        ),
        memory: Seq::new(
            (memory_size / 8) as nat,
            |a: int|
                if start <= a < start + data_words(data) {
                    Value::Concrete(data_word(data, start, a))
                } else {
                    Value::Uninitialized
                },
        ),
        program_break: (entry + data.len()) as u64,
        nodes: Seq::empty(),
        edges: Seq::empty(),
    }
}

/// Whether a machine can be built for these arguments.
pub open spec fn can_build(memory_size: usize, data: Seq<u8>, entry: u64) -> bool {
    &&& memory_size >= 8
    &&& (entry / 8) as int + data_words(data) <= memory_size / 8
    &&& entry + data.len() <= u64::MAX
}

pub open spec fn value_ok(v: Value, n: int) -> bool {
    match v {
        Value::Symbolic(x) => x < n,
        _ => true,
    }
}

/// The machine's shape: 32 registers, node and edge counts under the
/// graph's index limit, and every symbolic value naming an existing node.
pub open spec fn machine_wf(m: Machine) -> bool {
    &&& m.regs.len() == 32
    &&& m.nodes.len() < u32::MAX
    &&& m.edges.len() < u32::MAX
    &&& forall|r: int| 0 <= r < 32 ==> value_ok(#[trigger] m.regs[r], m.nodes.len() as int)
    &&& forall|a: int|
        0 <= a < m.memory.len() ==> value_ok(#[trigger] m.memory[a], m.nodes.len() as int)
}


/// How an instruction left the path's execution.
#[derive(Clone, Copy, Debug, PartialEq, Eq, Structural, Hash)]
pub enum Effect {
    Continue,
    Root(usize),
    Exited,
}

/// Whether an executed instruction's result and machine agree with `s`.
/// On a failure the machine is left as it was.
pub open spec fn effect_matches(s: Step, before: Machine, m: Machine, r: Result<Effect, Unsupported>) -> bool {
    match s {
        Step::Continue(m2) => r == Ok::<Effect, Unsupported>(Effect::Continue) && m == m2,
        Step::Root(m2, root) => r == Ok::<Effect, Unsupported>(Effect::Root(root)) && m == m2,
        Step::Exited(m2) => r == Ok::<Effect, Unsupported>(Effect::Exited) && m == m2,
        Step::Fail(e) => r == Err::<Effect, Unsupported>(e) && m == before,
    }
}

/// Relies on std's `Display` for `u64` (through `to_string`): its decimal
/// digits, without sign or padding.
#[verifier::external_body]
fn decimal_string(n: u64) -> (r: String)
    ensures
        r@ == decimal(n as nat),
{
    n.to_string()
}

/// The name of the inputs that a read creates: see `read_label`.
fn read_input_name(fd: u64, buffer: u64, size: u64) -> (r: String)
    ensures
        r@ == read_label(fd, buffer, size),
{
    let mut name = String::from_str("read(");
    let fd_text = decimal_string(fd);
    name.append(fd_text.as_str());
    name.append(", ");
    let buffer_text = decimal_string(buffer);
    name.append(buffer_text.as_str());
    name.append(", ");
    let size_text = decimal_string(size);
    name.append(size_text.as_str());
    name.append(")");
    name
}

/// Interprets one instruction path over concrete and symbolic values and
/// builds the formula of its failure condition.
pub struct DataFlowGraphBuilder<'a> {
    graph: Formula,
    path: &'a [Instruction],
    program_break: u64,
    regs: Vec<Value>,
    memory: Vec<Value>,
}

impl<'a> View for DataFlowGraphBuilder<'a> {
    type V = Machine;

    closed spec fn view(&self) -> Machine {
        Machine {
            regs: self.regs@,
            memory: self.memory@,
            program_break: self.program_break,
            nodes: node_views(self.graph),
            edges: formula_edges(self.graph),
        }
    }
}

impl<'a> DataFlowGraphBuilder<'a> {
    pub closed spec fn spec_path(&self) -> Seq<Instruction> {
        self.path@
    }

    pub open spec fn inv(&self) -> bool {
        &&& machine_wf(self@)
        &&& forall|i: int| 0 <= i < self.spec_path().len() ==> (#[trigger] self.spec_path()[i]).wf()
    }

    /// Creates the machine for a path: see `initial_machine`. Fails when
    /// the memory is under one word or the data segment does not fit.
    pub fn new(
        memory_size: usize,
        path: &'a [Instruction],
        data_segment: &[u8],
        elf_metadata: ElfMetadata,
    ) -> (r: Result<Self, EngineError>)
        requires
            forall|i: int| 0 <= i < path@.len() ==> (#[trigger] path@[i]).wf(),
        ensures
            r is Ok <==> can_build(memory_size, data_segment@, elf_metadata.entry_address),
            memory_size < 8 ==> r == Err::<Self, EngineError>(EngineError::MemoryTooSmall),
            memory_size >= 8 && !can_build(memory_size, data_segment@, elf_metadata.entry_address)
                ==> r == Err::<Self, EngineError>(EngineError::DataSegmentOutOfRange),
            r is Ok ==> r->Ok_0@ == initial_machine(
                memory_size,
                data_segment@,
                elf_metadata.entry_address,
            ),
            r is Ok ==> r->Ok_0.spec_path() == path@,
            r is Ok ==> r->Ok_0.inv(),
    {
        if memory_size < 8 {
            return Err(EngineError::MemoryTooSmall);
        }
        let words: usize = memory_size / 8;
        let start_u64: u64 = elf_metadata.entry_address / 8;
        let data_len: usize = data_segment.len();
        let word_count: usize = data_len / 8 + if data_len % 8 == 0 { 0 } else { 1 };
        if start_u64 > words as u64 || word_count > words - start_u64 as usize
            || data_segment.len() as u64 > u64::MAX - elf_metadata.entry_address {
            return Err(EngineError::DataSegmentOutOfRange);
        }
        let start: usize = start_u64 as usize;
        let ghost entry = elf_metadata.entry_address;
        let ghost data = data_segment@;
        let mut regs: Vec<Value> = Vec::new();
        let mut r: usize = 0;
        while r < 32
            invariant
                0 <= r <= 32,
                memory_size >= 8,
                regs@.len() == r,
                forall|j: int|
                    0 <= j < r ==> #[trigger] regs@[j] == (if j == 2 {
                        Value::Concrete((memory_size - 8) as u64)
                    } else {
                        Value::Concrete(0)
                    }),
            decreases 32 - r,
        {
            if r == REG_SP {
                regs.push(Value::Concrete(memory_size as u64 - 8));
            } else {
                regs.push(Value::Concrete(0));
            }
            r += 1;
        }
        let mut memory: Vec<Value> = Vec::new();
        let mut a: usize = 0;
        while a < words
            invariant
                0 <= a <= words,
                words == memory_size / 8,
                start == entry / 8,
                data == data_segment@,
                word_count == data_words(data),
                data_len == data.len(),
                start + word_count <= words,
                memory@.len() == a,
                forall|j: int|
                    0 <= j < a ==> #[trigger] memory@[j] == (if start <= j < start + word_count {
                        Value::Concrete(data_word(data, start as int, j))
                    } else {
                        Value::Uninitialized
                    }),
            decreases words - a,
        {
            if start <= a && a < start + word_count {
                let offset: usize = 8 * (a - start);
                if 8 <= data_len - offset {
                    let chunk = vstd::slice::slice_subrange(data_segment, offset, offset + 8);
                    let word = read_u64_le(chunk);
                    proof {
                        assert(chunk@.subrange(0, 8) =~= data.subrange(offset as int, offset + 8));
                    }
                    memory.push(Value::Concrete(word));
                } else {
                    let mut padded: Vec<u8> = Vec::new();
                    let mut b: usize = 0;
                    while b < 8
                        invariant
                            0 <= b <= 8,
                            offset < data_len,
                            data_len < offset + 8,
                            data_len == data.len(),
                            data == data_segment@,
                            padded@ =~= Seq::new(
                                b as nat,
                                |i: int|
                                    if offset + i < data_len {
                                        data[offset + i]
                                    } else {
                                        0u8
                                    },
                            ),
                        decreases 8 - b,
                    {
                        if b < data_len - offset {
                            padded.push(data_segment[offset + b]);
                        } else {
                            padded.push(0);
                        }
                        b += 1;
                    }
                    let word = read_u64_le(padded.as_slice());
                    proof {
                        let present = data.subrange(offset as int, data_len as int);
                        let k = (8 - (data_len - offset)) as nat;
                        assert(padded@.subrange(0, 8) =~= present + zero_bytes(k));
                        lemma_le_zero_pad(present, k);
                    }
                    memory.push(Value::Concrete(word));
                }
            } else {
                memory.push(Value::Uninitialized);
            }
            a += 1;
        }
        let graph = empty_formula();
        let b = DataFlowGraphBuilder {
            graph,
            program_break: elf_metadata.entry_address + (data_segment.len() as u64),
            path,
            regs,
            memory,
        };
        proof {
            let m0 = initial_machine(memory_size, data, entry);
            assert(b@.regs =~= m0.regs);
            assert(b@.memory =~= m0.memory);
            assert(b@.nodes =~= m0.nodes);
            assert(b@.edges =~= m0.edges);
        }
        Ok(b)
    }

    fn create_const_node(&mut self, value: u64) -> (r: usize)
        requires
            old(self)@.nodes.len() + 1 < u32::MAX,
        ensures
            r == old(self)@.nodes.len(),
            final(self)@ == with_constant(old(self)@, value),
            final(self).path == old(self).path,
    {
        let constant = Node::Constant(Const::new(value));
        let r = add_node(&mut self.graph, constant);
        proof {
            assert(self@.nodes =~= with_constant(old(self)@, value).nodes);
        }
        r
    }

    fn create_result_node(&mut self, node: Node) -> (r: usize)
        requires
            old(self)@.nodes.len() + 1 < u32::MAX,
        ensures
            r == old(self)@.nodes.len(),
            final(self)@ == (Machine { nodes: old(self)@.nodes.push(node@), ..old(self)@ }),
            final(self).path == old(self).path,
    {
        let r = add_node(&mut self.graph, node);
        proof {
            assert(self@.nodes =~= old(self)@.nodes.push(node@));
        }
        r
    }

    /// Feeds `lhs` and `rhs` into the node `result`.
    fn symbolic_op(&mut self, lhs: usize, rhs: usize, result: usize) -> (r: Value)
        requires
            lhs < old(self)@.nodes.len(),
            rhs < old(self)@.nodes.len(),
            result < old(self)@.nodes.len(),
            old(self)@.edges.len() + 2 < u32::MAX,
        ensures
            r == Value::Symbolic(result),
            final(self)@ == (Machine {
                edges: old(self)@.edges.push(edge(lhs as int, result as int, ArgumentSide::Lhs)).push(
                    edge(rhs as int, result as int, ArgumentSide::Rhs),
                ),
                ..old(self)@
            }),
            final(self).path == old(self).path,
    {
        add_edge(&mut self.graph, lhs, result, ArgumentSide::Lhs);
        add_edge(&mut self.graph, rhs, result, ArgumentSide::Rhs);
        proof {
            assert(self@.nodes =~= old(self)@.nodes);
        }
        Value::Symbolic(result)
    }

    fn execute_binary_op(&mut self, instruction: Instruction, lhs: Value, rhs: Value) -> (r: Result<
        Value,
        Unsupported,
    >)
        requires
            machine_wf(old(self)@),
            value_ok(lhs, old(self)@.nodes.len() as int),
            value_ok(rhs, old(self)@.nodes.len() as int),
        ensures
            final(self).path == old(self).path,
            match spec_binary_op(old(self)@, instruction, lhs, rhs) {
                Ok((m, v)) => r == Ok::<Value, Unsupported>(v) && final(self)@ == m,
                Err(e) => r == Err::<Value, Unsupported>(e) && final(self)@ == old(self)@,
            },
    {
        let n = node_count(&self.graph);
        let e = edge_count(&self.graph);
        match (lhs, rhs) {
            (Value::Concrete(v1), Value::Concrete(v2)) => Ok(Value::Concrete(evaluate(instruction, v1, v2))),
            (Value::Symbolic(v1), Value::Concrete(v2)) => {
                if n >= u32::MAX as usize - 2 || e >= u32::MAX as usize - 2 {
                    return Err(Unsupported::FormulaTooLarge);
                }
                let node = self.create_const_node(v2);
                let res = self.create_result_node(Node::Instruction(Instr::new(instruction)));
                Ok(self.symbolic_op(v1, node, res))
            },
            (Value::Concrete(v1), Value::Symbolic(v2)) => {
                if n >= u32::MAX as usize - 2 || e >= u32::MAX as usize - 2 {
                    return Err(Unsupported::FormulaTooLarge);
                }
                let node = self.create_const_node(v1);
                let res = self.create_result_node(Node::Instruction(Instr::new(instruction)));
                Ok(self.symbolic_op(node, v2, res))
            },
            (Value::Symbolic(v1), Value::Symbolic(v2)) => {
                if n >= u32::MAX as usize - 1 || e >= u32::MAX as usize - 2 {
                    return Err(Unsupported::FormulaTooLarge);
                }
                let res = self.create_result_node(Node::Instruction(Instr::new(instruction)));
                Ok(self.symbolic_op(v1, v2, res))
            },
            _ => Err(Unsupported::UninitializedOperand),
        }
    }

    fn write_reg(&mut self, rd: u32, v: Value)
        requires
            rd < 32,
            old(self)@.regs.len() == 32,
        ensures
            final(self)@ == set_reg(old(self)@, rd, v),
            final(self).path == old(self).path,
    {
        if rd != 0 {
            self.regs.set(rd as usize, v);
        }
    }

    fn execute_lui(&mut self, utype: UType) -> (r: Result<Effect, Unsupported>)
        requires
            utype.rd < 32,
            machine_wf(old(self)@),
        ensures
            final(self).path == old(self).path,
            effect_matches(step(old(self)@, Instruction::Lui(utype)), old(self)@, final(self)@, r),
    {
        self.write_reg(utype.rd, Value::Concrete(utype.imm as u64));
        Ok(Effect::Continue)
    }

    fn execute_itype(&mut self, instruction: Instruction, itype: IType) -> (r: Result<
        Effect,
        Unsupported,
    >)
        requires
            machine_wf(old(self)@),
            instruction == Instruction::Addi(itype),
            instruction.wf(),
        ensures
            final(self).path == old(self).path,
            effect_matches(step(old(self)@, instruction), old(self)@, final(self)@, r),
    {
        if itype.rd == 0 {
            return Ok(Effect::Continue);
        }
        let rs1_value = self.regs[itype.rs1 as usize];
        let immediate = sign_extend_itype_stype(itype.imm);
        match self.execute_binary_op(instruction, rs1_value, Value::Concrete(immediate)) {
            Ok(result) => {
                self.write_reg(itype.rd, result);
                Ok(Effect::Continue)
            },
            Err(e) => Err(e),
        }
    }

    fn execute_rtype(&mut self, instruction: Instruction, rtype: RType) -> (r: Result<
        Effect,
        Unsupported,
    >)
        requires
            machine_wf(old(self)@),
            instruction == Instruction::Add(rtype) || instruction == Instruction::Sub(rtype)
                || instruction == Instruction::Mul(rtype) || instruction == Instruction::Divu(rtype)
                || instruction == Instruction::Remu(rtype) || instruction == Instruction::Sltu(
                rtype,
            ),
            instruction.wf(),
        ensures
            final(self).path == old(self).path,
            effect_matches(step(old(self)@, instruction), old(self)@, final(self)@, r),
    {
        if rtype.rd == 0 {
            return Ok(Effect::Continue);
        }
        let rs1_value = self.regs[rtype.rs1 as usize];
        let rs2_value = self.regs[rtype.rs2 as usize];
        match self.execute_binary_op(instruction, rs1_value, rs2_value) {
            Ok(result) => {
                self.write_reg(rtype.rd, result);
                Ok(Effect::Continue)
            },
            Err(e) => Err(e),
        }
    }

    fn execute_brk(&mut self) -> (r: Result<Effect, Unsupported>)
        requires
            machine_wf(old(self)@),
        ensures
            final(self).path == old(self).path,
            effect_matches(brk_step(old(self)@), old(self)@, final(self)@, r),
    {
        if let Value::Concrete(new_program_break) = self.regs[REG_A0] {
            if new_program_break < self.program_break {
                let old_break = self.program_break;
                self.write_reg(REG_A0 as u32, Value::Concrete(old_break));
            } else {
                self.program_break = new_program_break;
            }
            Ok(Effect::Continue)
        } else {
            Err(Unsupported::NonConcreteSyscallArgument)
        }
    }

    fn execute_read(&mut self) -> (r: Result<Effect, Unsupported>)
        requires
            machine_wf(old(self)@),
        ensures
            final(self).path == old(self).path,
            effect_matches(read_step(old(self)@), old(self)@, final(self)@, r),
    {
        let (buffer, size) = match (self.regs[REG_A1], self.regs[REG_A2]) {
            (Value::Concrete(buffer), Value::Concrete(size)) => (buffer, size),
            _ => {
                return Err(Unsupported::NonConcreteSyscallArgument);
            },
        };
        let words: u64 = if size % 8 == 0 {
            size / 8
        } else {
            size / 8 + 1
        };
        let start: u64 = buffer / 8;
        let len: u64 = self.memory.len() as u64;
        if start > len || words > len - start {
            return Err(Unsupported::AddressOutOfRange);
        }
        let n = node_count(&self.graph);
        let e = edge_count(&self.graph);
        if n as u64 + words >= u32::MAX as u64 || e >= u32::MAX as usize - 2 {
            return Err(Unsupported::FormulaTooLarge);
        }
        let ghost m0 = self@;
        let ghost label = read_label(0, buffer, size);
        let mut i: u64 = 0;
        while i < words
            invariant
                0 <= i <= words,
                m0 == old(self)@,
                label == read_label(0, buffer, size),
                machine_wf(m0),
                reg(m0, 11) == Value::Concrete(buffer),
                reg(m0, 12) == Value::Concrete(size),
                words == words_for(size),
                start == buffer / 8,
                start + words <= m0.memory.len(),
                len == m0.memory.len(),
                n == m0.nodes.len(),
                n + words < u32::MAX,
                self.path == old(self).path,
                self@.regs == m0.regs,
                self@.program_break == m0.program_break,
                self@.edges == m0.edges,
                self@.nodes =~= m0.nodes + Seq::new(i as nat, |j: int| NodeView::Input(label)),
                self@.memory =~= read_memory(m0.memory, start as int, i as int, n as int),
            decreases words - i,
        {
            let name = read_input_name(0, buffer, size);
            let input = Node::Input(Input::new(name));
            let ghost before = self@.nodes;
            assert(formula_nodes(self.graph).len() == self@.nodes.len());
            let node_idx = add_node(&mut self.graph, input);
            assert(self@.nodes =~= before.push(NodeView::Input(label)));
            assert(start + i < self.memory.len());
            self.memory.set((start + i) as usize, Value::Symbolic(node_idx));
            proof {
                assert(node_idx == n + i);
                assert(self@.memory =~= read_memory(m0.memory, start as int, i + 1, n as int));
                assert(self@.nodes =~= m0.nodes + Seq::new(
                    (i + 1) as nat,
                    |j: int| NodeView::Input(label),
                ));
            }
            i += 1;
        }
        Ok(Effect::Continue)
    }

    fn execute_exit(&mut self) -> (r: Result<Effect, Unsupported>)
        requires
            machine_wf(old(self)@),
        ensures
            final(self).path == old(self).path,
            effect_matches(exit_step(old(self)@), old(self)@, final(self)@, r),
    {
        match self.regs[REG_A0] {
            Value::Symbolic(exit_code) => {
                let n = node_count(&self.graph);
                let e = edge_count(&self.graph);
                if n >= u32::MAX as usize - 2 || e >= u32::MAX as usize - 2 {
                    return Err(Unsupported::FormulaTooLarge);
                }
                let const_node_idx = self.create_const_node(0);
                let name = String::from_str("exit_code");
                let root = Node::Constrain(Constrain::new(name, BooleanFunction::GreaterThan));
                let root_idx = self.create_result_node(root);
                self.symbolic_op(exit_code, const_node_idx, root_idx);
                Ok(Effect::Root(root_idx))
            },
            Value::Concrete(_) => Ok(Effect::Exited),
            Value::Uninitialized => Err(Unsupported::UninitializedOperand),
        }
    }

    fn execute_ecall(&mut self) -> (r: Result<Effect, Unsupported>)
        requires
            machine_wf(old(self)@),
        ensures
            final(self).path == old(self).path,
            effect_matches(ecall_step(old(self)@), old(self)@, final(self)@, r),
    {
        match self.regs[REG_A7] {
            Value::Concrete(syscall_id) => {
                if syscall_id == SyscallId::Brk.id() {
                    self.execute_brk()
                } else if syscall_id == SyscallId::Read.id() {
                    self.execute_read()
                } else if syscall_id == SyscallId::Exit.id() {
                    self.execute_exit()
                } else {
                    Err(Unsupported::UnknownSyscall(syscall_id))
                }
            },
            Value::Uninitialized => Err(Unsupported::UninitializedSyscallId),
            Value::Symbolic(_) => Err(Unsupported::SymbolicSyscallId),
        }
    }

    fn execute_load(&mut self, instruction: Instruction, itype: IType) -> (r: Result<
        Effect,
        Unsupported,
    >)
        requires
            machine_wf(old(self)@),
            instruction == Instruction::Ld(itype),
            instruction.wf(),
        ensures
            final(self).path == old(self).path,
            effect_matches(step(old(self)@, instruction), old(self)@, final(self)@, r),
    {
        if itype.rd != 0 {
            if let Value::Concrete(base_address) = self.regs[itype.rs1 as usize] {
                let immediate = sign_extend_itype_stype(itype.imm);
                let address = base_address.wrapping_add(immediate);
                let index: u64 = address / 8;
                if index >= self.memory.len() as u64 {
                    return Err(Unsupported::AddressOutOfRange);
                }
                let value = self.memory[index as usize];
                self.write_reg(itype.rd, value);
            } else {
                return Err(Unsupported::NonConcreteAddress);
            }
        }
        Ok(Effect::Continue)
    }

    fn execute_store(&mut self, instruction: Instruction, stype: SType) -> (r: Result<
        Effect,
        Unsupported,
    >)
        requires
            machine_wf(old(self)@),
            instruction == Instruction::Sd(stype),
            instruction.wf(),
        ensures
            final(self).path == old(self).path,
            effect_matches(step(old(self)@, instruction), old(self)@, final(self)@, r),
    {
        if let Value::Concrete(base_address) = self.regs[stype.rs1 as usize] {
            let immediate = sign_extend_itype_stype(stype.imm);
            let address = base_address.wrapping_add(immediate);
            let index: u64 = address / 8;
            if index >= self.memory.len() as u64 {
                return Err(Unsupported::AddressOutOfRange);
            }
            let value = self.regs[stype.rs2 as usize];
            self.memory.set(index as usize, value);
            Ok(Effect::Continue)
        } else {
            Err(Unsupported::NonConcreteAddress)
        }
    }

    fn execute(&mut self, instruction: Instruction) -> (r: Result<Effect, Unsupported>)
        requires
            machine_wf(old(self)@),
            instruction.wf(),
        ensures
            final(self).path == old(self).path,
            effect_matches(step(old(self)@, instruction), old(self)@, final(self)@, r),
    {
        match instruction {
            Instruction::Ecall => self.execute_ecall(),
            Instruction::Lui(utype) => self.execute_lui(utype),
            Instruction::Addi(itype) => self.execute_itype(instruction, itype),
            Instruction::Add(rtype) | Instruction::Sub(rtype) | Instruction::Mul(rtype)
            | Instruction::Divu(rtype) | Instruction::Remu(rtype) | Instruction::Sltu(rtype) => {
                self.execute_rtype(instruction, rtype)
            },
            Instruction::Ld(itype) => self.execute_load(instruction, itype),
            Instruction::Sd(stype) => self.execute_store(instruction, stype),
            Instruction::Jal(jtype) => {
                self.write_reg(jtype.rd, Value::Concrete(0));
                Ok(Effect::Continue)
            },
            Instruction::Jalr(itype) => {
                self.write_reg(itype.rd, Value::Concrete(0));
                Ok(Effect::Continue)
            },
            Instruction::Beq(_) => Ok(Effect::Continue),
            Instruction::Other(_) => Err(Unsupported::UnsupportedInstruction),
        }
    }

    /// The value of register `r`.
    pub fn register(&self, r: usize) -> (v: Value)
        requires
            r < self@.regs.len(),
        ensures
            v == self@.regs[r as int],
    {
        self.regs[r]
    }

    /// The memory word with index `a`, if there is one.
    pub fn memory_word(&self, a: usize) -> (v: Option<Value>)
        ensures
            v == if a < self@.memory.len() {
                Some(self@.memory[a as int])
            } else {
                None
            },
    {
        if a < self.memory.len() {
            Some(self.memory[a])
        } else {
            None
        }
    }

    pub fn program_break(&self) -> (b: u64)
        ensures
            b == self@.program_break,
    {
        self.program_break
    }

    /// The formula built so far.
    pub fn formula(&self) -> (g: &Formula)
        ensures
            node_views(*g) == self@.nodes,
            formula_edges(*g) == self@.edges,
    {
        &self.graph
    }

    /// Runs the path: see `run_from`. On a root, hands out the formula.
    pub fn generate_graph(&mut self) -> (r: Result<Option<(Formula, usize)>, EngineError>)
        requires
            old(self).inv(),
        ensures
            match run_from(old(self)@, old(self).spec_path(), 0) {
                Outcome::Root(m, root) => {
                    &&& r is Ok
                    &&& r->Ok_0 is Some
                    &&& node_views(r->Ok_0->Some_0.0) == m.nodes
                    &&& formula_edges(r->Ok_0->Some_0.0) == m.edges
                    &&& r->Ok_0->Some_0.1 == root
                },
                Outcome::NoRoot(m) => r is Ok && r->Ok_0 is None && final(self)@ == m,
                Outcome::Fail(k, e, m) => final(self)@ == m && r == Err::<
                    Option<(Formula, usize)>,
                    EngineError,
                >(
                    EngineError::Unsupported {
                        position: k as usize,
                        instruction: old(self).spec_path()[k],
                        reason: e,
                    },
                ),
            },
    {
        let ghost path = self.path@;
        let ghost m0 = self@;
        let mut k: usize = 0;
        while k < self.path.len()
            invariant
                0 <= k <= path.len(),
                self.path@ == path,
                path == old(self).spec_path(),
                m0 == old(self)@,
                machine_wf(self@),
                forall|i: int| 0 <= i < path.len() ==> (#[trigger] path[i]).wf(),
                run_from(self@, path, k as nat) == run_from(m0, path, 0),
            decreases path.len() - k,
        {
            let instruction = self.path[k];
            let ghost before = self@;
            match self.execute(instruction) {
                Ok(Effect::Continue) => {
                    proof {
                        lemma_step_wf(before, instruction);
                    }
                    k += 1;
                },
                Ok(Effect::Root(root)) => {
                    let mut graph = empty_formula();
                    std::mem::swap(&mut graph, &mut self.graph);
                    return Ok(Some((graph, root)));
                },
                Ok(Effect::Exited) => {
                    return Ok(None);
                },
                Err(reason) => {
                    return Err(EngineError::Unsupported { position: k, instruction, reason });
                },
            }
        }
        Ok(None)
    }
}


/// Builds the formula of a path in a machine of 1,000,000 bytes.
pub fn build_dataflow_graph(
    path: &[Instruction],
    data_segment: &[u8],
    elf_metadata: ElfMetadata,
) -> (r: Result<Option<(Formula, usize)>, EngineError>)
    requires
        forall|i: int| 0 <= i < path@.len() ==> (#[trigger] path@[i]).wf(),
    ensures
        !can_build(1000000, data_segment@, elf_metadata.entry_address) ==> r
            == Err::<Option<(Formula, usize)>, EngineError>(EngineError::DataSegmentOutOfRange),
        can_build(1000000, data_segment@, elf_metadata.entry_address) ==> match run_from(
            initial_machine(1000000, data_segment@, elf_metadata.entry_address),
            path@,
            0,
        ) {
            Outcome::Root(m, root) => {
                &&& r is Ok
                &&& r->Ok_0 is Some
                &&& node_views(r->Ok_0->Some_0.0) == m.nodes
                &&& formula_edges(r->Ok_0->Some_0.0) == m.edges
                &&& r->Ok_0->Some_0.1 == root
            },
            Outcome::NoRoot(_) => r is Ok && r->Ok_0 is None,
            Outcome::Fail(k, e, _) => r == Err::<Option<(Formula, usize)>, EngineError>(
                EngineError::Unsupported { position: k as usize, instruction: path@[k], reason: e },
            ),
        },
{
    match DataFlowGraphBuilder::new(1000000, path, data_segment, elf_metadata) {
        Ok(mut builder) => builder.generate_graph(),
        Err(e) => Err(e),
    }
}

/// A step from a well-shaped machine leaves a well-shaped machine.
pub proof fn lemma_step_wf(m: Machine, i: Instruction)
    requires
        machine_wf(m),
        i.wf(),
    ensures
        step(m, i) is Continue ==> machine_wf(step(m, i)->Continue_0),
{
    let n = m.nodes.len() as int;
    match step(m, i) {
        Step::Continue(m2) => {
            assert forall|r: int| 0 <= r < 32 implies value_ok(#[trigger] m2.regs[r], m2.nodes.len() as int) by {
                assert(value_ok(m.regs[r], n));
            }
            assert forall|a: int| 0 <= a < m2.memory.len() implies value_ok(#[trigger] m2.memory[a], m2.nodes.len() as int) by {
                if a < m.memory.len() {
                    assert(value_ok(m.memory[a], n));
                }
                match i {
                    Instruction::Sd(st) => {
                        assert(value_ok(m.regs[st.rs2 as int], n));
                    },
                    _ => {},
                }
            }
        },
        _ => {},
    }
}


pub open spec fn no_constraint(nodes: Seq<NodeView>) -> bool {
    forall|j: int| 0 <= j < nodes.len() ==> !(#[trigger] nodes[j] is Constrain)
}

/// The machine's shape and its formula's invariants while a path runs:
/// the formula holds no constraint yet.
pub open spec fn engine_wf(m: Machine) -> bool {
    &&& machine_wf(m)
    &&& formula_wf(m.nodes, m.edges)
    &&& no_constraint(m.nodes)
}

proof fn lemma_push_leaf(nodes: Seq<NodeView>, edges: Seq<FormulaEdge>, v: NodeView)
    requires
        formula_wf(nodes, edges),
        no_constraint(nodes),
        v is Input || v is Constant,
    ensures
        formula_wf(nodes.push(v), edges),
        no_constraint(nodes.push(v)),
{
    lemma_degrees_above(edges, nodes.len() as int);
    assert forall|j: int| 0 <= j < nodes.len() implies nodes.push(v)[j] == nodes[j] by {}
}

proof fn lemma_push_operator(
    nodes: Seq<NodeView>,
    edges: Seq<FormulaEdge>,
    v: NodeView,
    lhs: int,
    rhs: int,
)
    requires
        formula_wf(nodes, edges),
        no_constraint(nodes),
        0 <= lhs < nodes.len(),
        0 <= rhs < nodes.len(),
        nodes.len() < u32::MAX,
        (v is Instruction && v->Instruction_0.is_binary()) || v is Constrain,
    ensures
        formula_wf(
            nodes.push(v),
            edges.push(edge(lhs, nodes.len() as int, ArgumentSide::Lhs)).push(
                edge(rhs, nodes.len() as int, ArgumentSide::Rhs),
            ),
        ),
        v is Instruction ==> no_constraint(nodes.push(v)),
{
    let n = nodes.len() as int;
    let a = edge(lhs, n, ArgumentSide::Lhs);
    let b = edge(rhs, n, ArgumentSide::Rhs);
    let e1 = edges.push(a);
    let e2 = e1.push(b);
    let nodes2 = nodes.push(v);
    lemma_degrees_above(edges, n);
    assert forall|j: int| 0 <= j < nodes2.len() implies match #[trigger] nodes2[j] {
        NodeView::Input(_) | NodeView::Constant(_) => in_degree(e2, j) == 0,
        NodeView::Instruction(op) => op.is_binary() && crate::formula::two_operands(e2, j),
        NodeView::Constrain(_, _) => crate::formula::two_operands(e2, j) && out_degree(e2, j) == 0,
    } by {
        lemma_degrees_push(edges, a, j);
        lemma_degrees_push(e1, b, j);
        if j < n {
            assert(nodes2[j] == nodes[j]);
        }
    }
    assert forall|e: int| 0 <= e < e2.len() implies (#[trigger] e2[e]).source < e2[e].target
        && e2[e].target < nodes2.len() by {
        if e < edges.len() {
            assert(e2[e] == edges[e]);
        }
    }
    if v is Instruction {
        assert forall|j: int| 0 <= j < nodes2.len() implies !(#[trigger] nodes2[j] is Constrain) by {
            if j < n {
                assert(nodes2[j] == nodes[j]);
            }
        }
    }
}

proof fn lemma_binary_wf(m: Machine, instruction: Instruction, lhs: Value, rhs: Value)
    requires
        engine_wf(m),
        instruction.is_binary(),
        value_ok(lhs, m.nodes.len() as int),
        value_ok(rhs, m.nodes.len() as int),
    ensures
        spec_binary_op(m, instruction, lhs, rhs) is Ok ==> {
            let m2 = spec_binary_op(m, instruction, lhs, rhs)->Ok_0.0;
            formula_wf(m2.nodes, m2.edges) && no_constraint(m2.nodes)
        },
{
    let n = m.nodes.len() as int;
    let op = NodeView::Instruction(instruction);
    match (lhs, rhs) {
        (Value::Symbolic(x), Value::Concrete(b)) => {
            if room(m, 2) {
                lemma_push_leaf(m.nodes, m.edges, NodeView::Constant(b));
                lemma_push_operator(m.nodes.push(NodeView::Constant(b)), m.edges, op, x as int, n);
            }
        },
        (Value::Concrete(a), Value::Symbolic(y)) => {
            if room(m, 2) {
                lemma_push_leaf(m.nodes, m.edges, NodeView::Constant(a));
                lemma_push_operator(m.nodes.push(NodeView::Constant(a)), m.edges, op, n, y as int);
            }
        },
        (Value::Symbolic(x), Value::Symbolic(y)) => {
            if room(m, 1) {
                lemma_push_operator(m.nodes, m.edges, op, x as int, y as int);
            }
        },
        _ => {},
    }
}

proof fn lemma_read_wf(m: Machine)
    requires
        engine_wf(m),
    ensures
        read_step(m) is Continue ==> {
            let m2 = read_step(m)->Continue_0;
            formula_wf(m2.nodes, m2.edges) && no_constraint(m2.nodes)
        },
{
    if read_step(m) is Continue {
        let m2 = read_step(m)->Continue_0;
        let n = m.nodes.len() as int;
        assert forall|j: int| 0 <= j < m2.nodes.len() implies match #[trigger] m2.nodes[j] {
            NodeView::Input(_) | NodeView::Constant(_) => in_degree(m2.edges, j) == 0,
            NodeView::Instruction(op) => op.is_binary() && crate::formula::two_operands(m2.edges, j),
            NodeView::Constrain(_, _) => crate::formula::two_operands(m2.edges, j) && out_degree(
                m2.edges,
                j,
            ) == 0,
        } && !(m2.nodes[j] is Constrain) by {
            if j < n {
                assert(m2.nodes[j] == m.nodes[j]);
            } else {
                lemma_degrees_above(m.edges, j);
            }
        }
    }
}

/// A step keeps the running invariant, or ends in a well-formed formula
/// whose last node is the constraint.
pub proof fn lemma_step_engine_wf(m: Machine, i: Instruction)
    requires
        engine_wf(m),
        i.wf(),
    ensures
        step(m, i) is Continue ==> engine_wf(step(m, i)->Continue_0),
        step(m, i) is Root ==> {
            let m2 = step(m, i)->Root_0;
            let root = step(m, i)->Root_1;
            &&& formula_wf(m2.nodes, m2.edges)
            &&& root as int == m2.nodes.len() - 1
            &&& m2.nodes[root as int] is Constrain
        },
{
    lemma_step_wf(m, i);
    let n = m.nodes.len() as int;
    match i {
        Instruction::Ecall => {
            lemma_read_wf(m);
            if let Value::Symbolic(code) = reg(m, 10) {
                if room(m, 2) {
                    assert(value_ok(m.regs[10], n));
                    lemma_push_leaf(m.nodes, m.edges, NodeView::Constant(0));
                    lemma_push_operator(
                        m.nodes.push(NodeView::Constant(0)),
                        m.edges,
                        NodeView::Constrain("exit_code"@, BooleanFunction::GreaterThan),
                        code as int,
                        n,
                    );
                }
            }
        },
        Instruction::Addi(it) => {
            assert(value_ok(m.regs[it.rs1 as int], n));
            lemma_binary_wf(m, i, reg(m, it.rs1), Value::Concrete(spec_sign_extend(it.imm as u64, 12)));
        },
        Instruction::Add(r) | Instruction::Sub(r) | Instruction::Mul(r) | Instruction::Divu(r)
        | Instruction::Remu(r) | Instruction::Sltu(r) => {
            assert(value_ok(m.regs[r.rs1 as int], n));
            assert(value_ok(m.regs[r.rs2 as int], n));
            lemma_binary_wf(m, i, reg(m, r.rs1), reg(m, r.rs2));
        },
        _ => {},
    }
}

proof fn lemma_run_wf(m: Machine, path: Seq<Instruction>, k: nat)
    requires
        engine_wf(m),
        forall|i: int| 0 <= i < path.len() ==> (#[trigger] path[i]).wf(),
    ensures
        run_from(m, path, k) is Root ==> {
            let m2 = run_from(m, path, k)->Root_0;
            let root = run_from(m, path, k)->Root_1;
            &&& formula_wf(m2.nodes, m2.edges)
            &&& (root as int) < m2.nodes.len()
            &&& m2.nodes[root as int] is Constrain
        },
    decreases path.len() - k,
{
    if k < path.len() {
        lemma_step_engine_wf(m, path[k as int]);
        if let Step::Continue(m2) = step(m, path[k as int]) {
            lemma_run_wf(m2, path, k + 1);
        }
    }
}

/// Every formula that a path yields is well formed (see `formula_wf`: it
/// is acyclic, inputs and constants have no operands, operator and
/// constraint nodes have exactly one operand per side, the constraint
/// feeds nothing), and its root is a constraint node.
pub proof fn lemma_generated_formula_wf(
    memory_size: usize,
    data: Seq<u8>,
    entry: u64,
    path: Seq<Instruction>,
)
    requires
        can_build(memory_size, data, entry),
        forall|i: int| 0 <= i < path.len() ==> (#[trigger] path[i]).wf(),
    ensures
        run_from(initial_machine(memory_size, data, entry), path, 0) is Root ==> {
            let m = run_from(initial_machine(memory_size, data, entry), path, 0)->Root_0;
            let root = run_from(initial_machine(memory_size, data, entry), path, 0)->Root_1;
            &&& formula_wf(m.nodes, m.edges)
            &&& (root as int) < m.nodes.len()
            &&& m.nodes[root as int] is Constrain
        },
{
    let m0 = initial_machine(memory_size, data, entry);
    assert forall|a: int| 0 <= a < m0.memory.len() implies value_ok(#[trigger] m0.memory[a], 0) by {}
    assert forall|r: int| 0 <= r < 32 implies value_ok(#[trigger] m0.regs[r], 0) by {}
    lemma_run_wf(m0, path, 0);
}


/// Whether no register or memory word holds a symbolic value.
pub open spec fn no_symbolic(m: Machine) -> bool {
    &&& forall|r: int| 0 <= r < m.regs.len() ==> !(#[trigger] m.regs[r] is Symbolic)
    &&& forall|a: int| 0 <= a < m.memory.len() ==> !(#[trigger] m.memory[a] is Symbolic)
}

/// Whether `i` is a `read` system call on machine `m`.
pub open spec fn is_read_call(m: Machine, i: Instruction) -> bool {
    i == Instruction::Ecall && reg(m, 17) == Value::Concrete(63)
}

/// Whether the run of `path` from its `k`-th instruction performs a read.
pub open spec fn run_reads(m: Machine, path: Seq<Instruction>, k: nat) -> bool
    decreases path.len() - k,
{
    if k >= path.len() {
        false
    } else if is_read_call(m, path[k as int]) {
        true
    } else {
        match step(m, path[k as int]) {
            Step::Continue(m2) => run_reads(m2, path, k + 1),
            _ => false,
        }
    }
}

proof fn lemma_concrete_step(m: Machine, i: Instruction)
    requires
        m.regs.len() == 32,
        no_symbolic(m),
        i.wf(),
        !is_read_call(m, i),
    ensures
        !(step(m, i) is Root),
        step(m, i) is Continue ==> {
            let m2 = step(m, i)->Continue_0;
            m2.nodes == m.nodes && m2.edges == m.edges && no_symbolic(m2) && m2.regs.len() == 32
        },
        step(m, i) is Exited ==> step(m, i)->Exited_0 == m,
{
    match i {
        Instruction::Addi(it) => {
            assert(!(m.regs[it.rs1 as int] is Symbolic));
        },
        Instruction::Add(r) | Instruction::Sub(r) | Instruction::Mul(r) | Instruction::Divu(r)
        | Instruction::Remu(r) | Instruction::Sltu(r) => {
            assert(!(m.regs[r.rs1 as int] is Symbolic));
            assert(!(m.regs[r.rs2 as int] is Symbolic));
        },
        Instruction::Ecall => {
            assert(!(m.regs[10] is Symbolic));
        },
        Instruction::Ld(it) => {
            if step(m, i) is Continue && it.rd != 0 {
                if let Value::Concrete(base) = reg(m, it.rs1) {
                    assert(!(m.memory[word_index(base, it.imm)] is Symbolic));
                }
            }
        },
        Instruction::Sd(st) => {
            assert(!(m.regs[st.rs2 as int] is Symbolic));
        },
        _ => {},
    }
}

/// A run that starts without symbolic values and performs no read is
/// concrete throughout: it yields no root, and wherever it ends, with or
/// without a failure, it has created no formula node or edge and holds no
/// symbolic value; its machine is a function of the start and the path
/// alone.
pub proof fn lemma_concrete_run(m: Machine, path: Seq<Instruction>, k: nat)
    requires
        m.regs.len() == 32,
        no_symbolic(m),
        forall|i: int| 0 <= i < path.len() ==> (#[trigger] path[i]).wf(),
        !run_reads(m, path, k),
    ensures
        !(run_from(m, path, k) is Root),
        run_from(m, path, k) is NoRoot ==> {
            let m2 = run_from(m, path, k)->NoRoot_0;
            m2.nodes == m.nodes && m2.edges == m.edges && no_symbolic(m2)
        },
        run_from(m, path, k) is Fail ==> {
            let m2 = run_from(m, path, k)->Fail_2;
            m2.nodes == m.nodes && m2.edges == m.edges && no_symbolic(m2)
        },
    decreases path.len() - k,
{
    if k < path.len() {
        lemma_concrete_step(m, path[k as int]);
        if let Step::Continue(m2) = step(m, path[k as int]) {
            lemma_concrete_run(m2, path, k + 1);
        }
    }
}


/// A `brk` request below the current break leaves the break and puts the
/// current break in a0; any other request becomes the break and stays in
/// a0. Nothing else changes.
pub proof fn lemma_brk(m: Machine, requested: u64)
    requires
        machine_wf(m),
        reg(m, 17) == Value::Concrete(214),
        reg(m, 10) == Value::Concrete(requested),
    ensures
        step(m, Instruction::Ecall) is Continue,
        ({
            let m2 = step(m, Instruction::Ecall)->Continue_0;
            &&& m2.program_break == if requested < m.program_break {
                m.program_break
            } else {
                requested
            }
            &&& m2.regs[10] == Value::Concrete(m2.program_break)
            &&& forall|r: int| 0 <= r < 32 && r != 10 ==> m2.regs[r] == m.regs[r]
            &&& m2.memory == m.memory
            &&& m2.nodes == m.nodes
            &&& m2.edges == m.edges
        }),
{
}

/// An `exit` with a concrete code ends the path without a root. With a
/// symbolic code (and room in the graph) it adds a constant 0 and the
/// root: a greater-than constraint fed by the code on the left and the
/// constant on the right.
pub proof fn lemma_exit(m: Machine)
    requires
        machine_wf(m),
        reg(m, 17) == Value::Concrete(93),
    ensures
        reg(m, 10) is Concrete ==> step(m, Instruction::Ecall) == Step::Exited(m),
        reg(m, 10) is Symbolic && room(m, 2) ==> {
            let n = m.nodes.len() as int;
            let code = reg(m, 10)->Symbolic_0 as int;
            &&& step(m, Instruction::Ecall) is Root
            &&& step(m, Instruction::Ecall)->Root_1 == n + 1
            &&& step(m, Instruction::Ecall)->Root_0.nodes == m.nodes.push(NodeView::Constant(0)).push(
                NodeView::Constrain("exit_code"@, BooleanFunction::GreaterThan),
            )
            &&& step(m, Instruction::Ecall)->Root_0.edges == m.edges.push(
                edge(code, n + 1, ArgumentSide::Lhs),
            ).push(edge(n, n + 1, ArgumentSide::Rhs))
        },
{
}

/// A `read` of `size` bytes at `buffer` (in memory, with room in the
/// graph) adds ceil(size / 8) input nodes and makes each of the words it
/// covers the symbolic value of its own new input.
pub proof fn lemma_read_words(m: Machine, buffer: u64, size: u64)
    requires
        machine_wf(m),
        reg(m, 17) == Value::Concrete(63),
        reg(m, 11) == Value::Concrete(buffer),
        reg(m, 12) == Value::Concrete(size),
        (buffer / 8) as int + words_for(size) <= m.memory.len(),
        room(m, words_for(size)),
    ensures
        words_for(size) == (size as int + 7) / 8,
        step(m, Instruction::Ecall) is Continue,
        ({
            let m2 = step(m, Instruction::Ecall)->Continue_0;
            let n = m.nodes.len() as int;
            let start = (buffer / 8) as int;
            &&& m2.nodes.len() == n + words_for(size)
            &&& forall|j: int| n <= j < m2.nodes.len() ==> #[trigger] m2.nodes[j] is Input
            &&& forall|w: int|
                0 <= w < words_for(size) ==> #[trigger] m2.memory[start + w] == Value::Symbolic(
                    (n + w) as usize,
                )
            &&& forall|a: int|
                0 <= a < m.memory.len() && !(start <= a < start + words_for(size)) ==> #[trigger] m2.memory[a]
                    == m.memory[a]
        }),
{
    let m2 = step(m, Instruction::Ecall)->Continue_0;
    let n = m.nodes.len() as int;
    assert forall|j: int| n <= j < m2.nodes.len() implies #[trigger] m2.nodes[j] is Input by {
        assert(m2.nodes[j] == NodeView::Input(read_label(0, buffer, size)));
    }
}

} // verus!
