use vstd::prelude::*;

use crate::mir::{Declaration, FunctionSig, ScalarType, Type};

verus! {

/// The binary operations of the IR; the backend picks the machine instruction by the
/// operands' type.
#[derive(Clone, Copy, PartialEq, Eq, Structural, Debug)]
pub enum BinaryOp {
    Add,
    Sub,
    Mul,
    Div,
    Pow,
    Eq,
    Ne,
    Lt,
    Gt,
    Le,
    Ge,
}

/// Which kind of machine instruction an operation takes: the integer one or the float one.
#[derive(Clone, Copy, PartialEq, Eq, Structural, Debug)]
pub enum Arithmetic {
    Integer,
    Float,
}

/// Operations on floats take float instructions; every other operand type, integer ones.
pub open spec fn arithmetic_of(t: Type) -> Arithmetic {
    match t {
        Type::Scalar(ScalarType::Float) => Arithmetic::Float,
        _ => Arithmetic::Integer,
    }
}

/// The kind of instruction that a binary operation on operands of type `t` is lowered to.
pub fn arithmetic(t: &Type) -> (r: Arithmetic)
    ensures
        r == arithmetic_of(*t),
{
    match t {
        Type::Scalar(ScalarType::Float) => Arithmetic::Float,
        _ => Arithmetic::Integer,
    }
}

/// One IR instruction. Operands and results are virtual variables, by index.
#[derive(Debug)]
pub enum Instruction {
    /// Writes an integer constant into a variable.
    Const(usize, u64),
    /// Writes the entry block's parameter of the given position into a variable.
    Param(usize, usize),
    /// Copies the second variable into the first.
    Copy(usize, usize),
    /// Writes the operation of the last two variables into the first.
    Binary(BinaryOp, usize, usize, usize),
    /// Calls the named function on the argument variables and writes its result into the
    /// first variable.
    Call(usize, String, Vec<usize>),
}

/// How a basic block ends.
#[derive(Clone, Copy, PartialEq, Eq, Structural, Debug)]
pub enum Terminator {
    Jump(usize),
    /// Goes to the first block if the variable is non-zero, else to the second.
    Branch(usize, usize, usize),
    /// Returns the variable's value, or nothing.
    Return(Option<usize>),
}

/// A basic block: straight-line instructions and, once finished, its terminator.
#[derive(Debug)]
pub struct Block {
    pub instructions: Vec<Instruction>,
    pub terminator: Option<Terminator>,
}

/// A lowered function. Block 0 is the entry block.
#[derive(Debug)]
pub struct Function {
    pub signature: FunctionSig,
    pub variables: Vec<Declaration>,
    pub blocks: Vec<Block>,
}

/// A lowered program.
#[derive(Debug)]
pub struct Program {
    pub functions: Vec<Function>,
}

/// Every variable the instruction names is one of the first `n`.
pub open spec fn instruction_ok(i: Instruction, n: nat) -> bool {
    match i {
        Instruction::Const(d, _) => d < n,
        Instruction::Param(d, _) => d < n,
        Instruction::Copy(d, s) => d < n && s < n,
        Instruction::Binary(_, d, a, b) => d < n && a < n && b < n,
        Instruction::Call(d, _, args) => d < n && forall|k: int|
            0 <= k < args.len() ==> #[trigger] args[k] < n,
    }
}

/// The terminator names one of the first `n` variables and jumps only to existing blocks
/// other than the entry block, which nothing jumps back to.
pub open spec fn terminator_ok(t: Terminator, n: nat, blocks: nat) -> bool {
    match t {
        Terminator::Jump(b) => 0 < b < blocks,
        Terminator::Branch(c, x, y) => c < n && 0 < x < blocks && 0 < y < blocks,
        Terminator::Return(v) => v matches Some(x) ==> x < n,
    }
}

pub open spec fn block_ok(b: Block, n: nat, blocks: nat) -> bool {
    &&& forall|j: int| 0 <= j < b.instructions.len() ==> instruction_ok(#[trigger] b.instructions[j], n)
    &&& (b.terminator matches Some(t) ==> terminator_ok(t, n, blocks))
}

/// The function is well formed: it has an entry block, and every block names only declared
/// variables and existing blocks.
pub open spec fn function_ok(f: Function) -> bool {
    &&& f.blocks.len() > 0
    &&& forall|b: int|
        0 <= b < f.blocks.len() ==> block_ok(#[trigger] f.blocks[b], f.variables@.len(), f.blocks@.len())
}

/// The variable an instruction writes.
pub open spec fn dest(i: Instruction) -> usize {
    match i {
        Instruction::Const(d, _) => d,
        Instruction::Param(d, _) => d,
        Instruction::Copy(d, _) => d,
        Instruction::Binary(_, d, _, _) => d,
        Instruction::Call(d, _, _) => d,
    }
}

/// Every instruction of the code writes a variable numbered `k` or above.
pub open spec fn writes_from(code: Seq<Instruction>, k: nat) -> bool {
    forall|j: int| 0 <= j < code.len() ==> dest(#[trigger] code[j]) >= k
}

/// A 64-bit machine integer result: the value modulo 2^64.
pub open spec fn wrap(x: int) -> u64 {
    (x % 0x1_0000_0000_0000_0000int) as u64
}

/// The integer result of an arithmetic operation on 64-bit values, which wraps.
pub open spec fn arith_result(op: BinaryOp, a: u64, b: u64) -> u64 {
    match op {
        BinaryOp::Add => wrap(a + b),
        BinaryOp::Sub => wrap(a - b),
        BinaryOp::Mul => wrap(a * b),
        _ => 0,
    }
}

/// The store after one instruction. Constants, copies and integer `+`, `-`, `*` are given
/// their meaning here; division, power, comparisons, parameters and calls are not modelled,
/// and leave the store as it is.
pub open spec fn step(i: Instruction, st: spec_fn(usize) -> u64) -> spec_fn(usize) -> u64 {
    match i {
        Instruction::Const(d, k) => |x: usize| if x == d { k } else { st(x) },
        Instruction::Copy(d, s) => |x: usize| if x == d { st(s) } else { st(x) },
        Instruction::Binary(op, d, a, b) => if op == BinaryOp::Add || op == BinaryOp::Sub || op
            == BinaryOp::Mul {
            |x: usize| if x == d { arith_result(op, st(a), st(b)) } else { st(x) }
        } else {
            st
        },
        _ => st,
    }
}

/// The store after straight-line code.
pub open spec fn run(code: Seq<Instruction>, st: spec_fn(usize) -> u64) -> spec_fn(usize) -> u64
    decreases code.len(),
{
    if code.len() == 0 {
        st
    } else {
        step(code.last(), run(code.drop_last(), st))
    }
}

/// Running two pieces of code one after the other.
pub proof fn lemma_run_concat(a: Seq<Instruction>, b: Seq<Instruction>, st: spec_fn(usize) -> u64)
    ensures
        run(a + b, st) == run(b, run(a, st)),
    decreases b.len(),
{
    if b.len() == 0 {
        assert(a + b =~= a);
    } else {
        assert((a + b).drop_last() =~= a + b.drop_last());
        assert((a + b).last() == b.last());
        lemma_run_concat(a, b.drop_last(), st);
    }
}

/// Code that writes only variables numbered `k` or above leaves the others as they were.
pub proof fn lemma_run_frame(code: Seq<Instruction>, st: spec_fn(usize) -> u64, k: nat, x: usize)
    requires
        writes_from(code, k),
        x < k,
    ensures
        run(code, st)(x) == st(x),
    decreases code.len(),
{
    if code.len() > 0 {
        assert(dest(code[code.len() - 1]) >= k);
        lemma_run_frame(code.drop_last(), st, k, x);
    }
}

} // verus!
