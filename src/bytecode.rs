//! The instruction set and the program container that code generation fills
//! and the virtual machine executes.

use vstd::prelude::*;

verus! {

/// Operation codes of the virtual machine.
#[derive(Debug, Clone, Copy, PartialEq, Eq, Structural)]
pub enum OpCode {
    // memory and control
    LEA,
    IMM,
    JMP,
    JSR,
    BZ,
    BNZ,
    ENT,
    ADJ,
    LEV,
    LI,
    LC,
    SI,
    SC,
    PSH,
    // binary operations: left operand on the stack, right in the accumulator
    OR,
    XOR,
    AND,
    EQ,
    NE,
    LT,
    GT,
    LE,
    GE,
    SHL,
    SHR,
    ADD,
    SUB,
    MUL,
    DIV,
    MOD,
    // host services
    OPEN,
    READ,
    CLOS,
    PRTF,
    MALC,
    FREE,
    MSET,
    MCMP,
    EXIT,
}

/// One instruction: an opcode in one of four operand shapes.
#[derive(Debug, Clone, Copy, PartialEq, Eq, Structural)]
pub enum Instruction {
    /// No operand.
    Instr(OpCode),
    /// An integer immediate (IMM, LEA, ENT, ADJ).
    InstrInt(OpCode, i64),
    /// A jump to an absolute instruction index.
    Jump(OpCode, usize),
    /// A subroutine call to an absolute instruction index.
    Call(OpCode, usize),
}

/// An append-only sequence of instructions, addressed by position.
#[derive(Debug)]
pub struct Chunk {
    pub code: Vec<Instruction>,
}

impl Default for Chunk {
    fn default() -> (r: Chunk)
        ensures
            r.code@ == Seq::<Instruction>::empty(),
    {
        Chunk { code: Vec::new() }
    }
}

impl Chunk {
    /// Appends an instruction without operand.
    pub fn push(&mut self, op: OpCode)
        ensures
            final(self).code@ == old(self).code@.push(Instruction::Instr(op)),
    {
        self.code.push(Instruction::Instr(op));
    }

    /// Appends an instruction with an integer immediate.
    pub fn push_int(&mut self, op: OpCode, val: i64)
        ensures
            final(self).code@ == old(self).code@.push(Instruction::InstrInt(op, val)),
    {
        self.code.push(Instruction::InstrInt(op, val));
    }

    /// Appends a jump to `target`.
    pub fn push_jump(&mut self, op: OpCode, target: usize)
        ensures
            final(self).code@ == old(self).code@.push(Instruction::Jump(op, target)),
    {
        self.code.push(Instruction::Jump(op, target));
    }

    /// Appends a subroutine call to `target`.
    pub fn push_call(&mut self, op: OpCode, target: usize)
        ensures
            final(self).code@ == old(self).code@.push(Instruction::Call(op, target)),
    {
        self.code.push(Instruction::Call(op, target));
    }

    /// Sets the target of the jump or call at `at` to `target`: the
    /// back-patching of a branch whose target was not known when it was
    /// emitted.
    pub fn patch_target(&mut self, at: usize, target: usize)
        requires
            at < old(self).code.len(),
        ensures
            final(self).code@ == old(self).code@.update(
                at as int,
                match old(self).code@[at as int] {
                    Instruction::Jump(op, _) => Instruction::Jump(op, target),
                    Instruction::Call(op, _) => Instruction::Call(op, target),
                    other => other,
                },
            ),
    {
        let patched = match self.code[at] {
            Instruction::Jump(op, _) => Instruction::Jump(op, target),
            Instruction::Call(op, _) => Instruction::Call(op, target),
            other => other,
        };
        self.code.set(at, patched);
    }
}

} // verus!
