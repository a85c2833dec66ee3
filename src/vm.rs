//! The virtual machine: an accumulator, a fixed-size operand stack that also
//! holds the locals of each frame, and a stack of saved frames.
//!
//! Calling convention: `JSR` saves a frame (return address, stack pointer,
//! frame pointer) and jumps. `ENT n` saves a frame too, sets the frame pointer
//! to the stack pointer and reserves `n` zeroed cells for locals. `LEV` leaves
//! the function: it discards the frame that `ENT` saved, if that is the one on
//! top, and restores the frame that `JSR` saved. One call thus returns once, to
//! the instruction after its `JSR`; the caller then drops the arguments with
//! `ADJ`.
//!
//! `step_spec` gives the meaning of one instruction; `VM::step` is proved to
//! follow it, and `VM::run` to return what running the program says.

use crate::bytecode::{Chunk, Instruction, OpCode};
use vstd::prelude::*;

verus! {

/// Number of cells of the operand stack.
pub const STACK_CELLS: usize = 1024 * 1024;

/// The number of instructions that `run` executes at most.
pub const MAX_STEPS: u64 = 0xffff_ffff_ffff_ffff;

/// The fatal conditions of execution.
#[derive(Debug, Clone, Copy, PartialEq, Eq, Structural)]
pub enum VmError {
    /// a push onto a full operand stack
    StackOverflow,
    /// a pop from an empty operand stack
    StackUnderflow,
    /// `LEV` with no saved frame
    CallStackUnderflow,
    /// an opcode in a shape that the machine does not execute (host
    /// services included)
    InvalidInstruction(Instruction),
    /// a load or store outside the operand stack
    BadAddress(i64),
    /// division or remainder by zero, or of the least integer by -1
    DivisionFault,
    /// the program ran for `MAX_STEPS` instructions without halting
    StepLimit,
}

/// A saved frame: return address, stack pointer, frame pointer, and whether
/// `ENT` saved it (rather than `JSR`).
pub type Frame = (usize, usize, usize, bool);

/// The machine's state, as the specification sees it.
pub struct VmState {
    pub stack: Seq<i64>,
    pub frames: Seq<Frame>,
    pub pc: usize,
    pub sp: usize,
    pub fp: usize,
    pub acc: i64,
}

/// What one instruction does.
pub enum Step {
    Continue(VmState),
    Halt(i64),
    Fault(VmError),
}

pub open spec fn state_wf(st: VmState) -> bool {
    &&& st.stack.len() == STACK_CELLS
    &&& st.sp <= STACK_CELLS
    &&& st.fp <= STACK_CELLS
    &&& forall|i: int|
        0 <= i < st.frames.len() ==> (#[trigger] st.frames[i]).1 <= STACK_CELLS
            && st.frames[i].2 <= STACK_CELLS
}

/// A fresh machine: zeroed stack, no frames, everything at zero.
pub open spec fn initial_state() -> VmState {
    VmState {
        stack: Seq::new(STACK_CELLS as nat, |i: int| 0i64),
        frames: seq![],
        pc: 0,
        sp: 0,
        fp: 0,
        acc: 0,
    }
}

pub open spec fn is_binary(op: OpCode) -> bool {
    match op {
        OpCode::ADD | OpCode::SUB | OpCode::MUL | OpCode::DIV | OpCode::MOD | OpCode::AND | OpCode::OR | OpCode::XOR | OpCode::EQ | OpCode::NE | OpCode::LT | OpCode::LE | OpCode::GT | OpCode::GE | OpCode::SHL | OpCode::SHR => true,
        _ => false,
    }
}

/// `l op r` for a binary opcode; `None` for a division fault, and for an
/// opcode that is not a binary operation. Addition, subtraction and
/// multiplication wrap; shifts take the amount modulo 64; comparisons give 1
/// or 0.
pub open spec fn binary_value(op: OpCode, l: i64, r: i64) -> Option<i64> {
    match op {
        OpCode::ADD => Some(l.wrapping_add(r)),
        OpCode::SUB => Some(l.wrapping_sub(r)),
        OpCode::MUL => Some(l.wrapping_mul(r)),
        OpCode::DIV => l.checked_div(r),
        OpCode::MOD => l.checked_rem(r),
        OpCode::AND => Some(l & r),
        OpCode::OR => Some(l | r),
        OpCode::XOR => Some(l ^ r),
        OpCode::EQ => Some(if l == r { 1 } else { 0 }),
        OpCode::NE => Some(if l != r { 1 } else { 0 }),
        OpCode::LT => Some(if l < r { 1 } else { 0 }),
        OpCode::LE => Some(if l <= r { 1 } else { 0 }),
        OpCode::GT => Some(if l > r { 1 } else { 0 }),
        OpCode::GE => Some(if l >= r { 1 } else { 0 }),
        OpCode::SHL => Some(l.wrapping_shl((r & 63) as u32)),
        OpCode::SHR => Some(l.wrapping_shr((r & 63) as u32)),
        _ => None,
    }
}

/// Whether `a` addresses a cell of the operand stack.
pub open spec fn valid_address(a: i64) -> bool {
    0 <= a < STACK_CELLS
}

/// `s` with the `n` cells from `from` set to zero.
pub open spec fn zero_cells(s: Seq<i64>, from: int, n: int) -> Seq<i64> {
    Seq::new(s.len(), |i: int| if from <= i < from + n { 0i64 } else { s[i] })
}

/// An instruction without operand, with the program counter already advanced.
pub open spec fn plain_step(op: OpCode, ins: Instruction, s: VmState) -> Step {
    if is_binary(op) {
        if s.sp == 0 {
            Step::Fault(VmError::StackUnderflow)
        } else {
            match binary_value(op, s.stack[s.sp - 1], s.acc) {
                Some(v) => Step::Continue(VmState { sp: (s.sp - 1) as usize, acc: v, ..s }),
                None => Step::Fault(VmError::DivisionFault),
            }
        }
    } else {
        match op {
            OpCode::LI => if valid_address(s.acc) {
                Step::Continue(VmState { acc: s.stack[s.acc as int], ..s })
            } else {
                Step::Fault(VmError::BadAddress(s.acc))
            },
            OpCode::LC => if valid_address(s.acc) {
                Step::Continue(VmState { acc: s.stack[s.acc as int] & 0xff, ..s })
            } else {
                Step::Fault(VmError::BadAddress(s.acc))
            },
            OpCode::SI | OpCode::SC => if s.sp == 0 {
                Step::Fault(VmError::StackUnderflow)
            } else {
                let addr = s.stack[s.sp - 1];
                let v = if op == OpCode::SI {
                    s.acc
                } else {
                    s.acc & 0xff
                };
                if valid_address(addr) {
                    Step::Continue(
                        VmState {
                            stack: s.stack.update(addr as int, v),
                            sp: (s.sp - 1) as usize,
                            acc: v,
                            ..s
                        },
                    )
                } else {
                    Step::Fault(VmError::BadAddress(addr))
                }
            },
            OpCode::PSH => if s.sp >= STACK_CELLS {
                Step::Fault(VmError::StackOverflow)
            } else {
                Step::Continue(
                    VmState { stack: s.stack.update(s.sp as int, s.acc), sp: (s.sp + 1) as usize, ..s },
                )
            },
            OpCode::LEV => if s.frames.len() == 0 {
                Step::Fault(VmError::CallStackUnderflow)
            } else {
                let top = s.frames.last();
                let rest = s.frames.drop_last();
                if !top.3 {
                    Step::Continue(VmState { frames: rest, pc: top.0, sp: top.1, fp: top.2, ..s })
                } else if rest.len() == 0 {
                    Step::Fault(VmError::CallStackUnderflow)
                } else {
                    let f = rest.last();
                    Step::Continue(
                        VmState { frames: rest.drop_last(), pc: f.0, sp: f.1, fp: f.2, ..s },
                    )
                }
            },
            OpCode::EXIT => Step::Halt(s.acc),
            _ => Step::Fault(VmError::InvalidInstruction(ins)),
        }
    }
}

/// An instruction with an integer operand, with the program counter already
/// advanced.
pub open spec fn immediate_step(op: OpCode, v: i64, ins: Instruction, s: VmState) -> Step {
    match op {
        OpCode::IMM => Step::Continue(VmState { acc: v, ..s }),
        OpCode::LEA => Step::Continue(VmState { acc: (s.fp as i64).wrapping_add(v), ..s }),
        OpCode::ADJ => if v <= 0 {
            Step::Continue(s)
        } else if v > s.sp {
            Step::Fault(VmError::StackUnderflow)
        } else {
            Step::Continue(VmState { sp: (s.sp - v) as usize, ..s })
        },
        OpCode::ENT => {
            let t = VmState { frames: s.frames.push((s.pc, s.sp, s.fp, true)), fp: s.sp, ..s };
            if v <= 0 {
                Step::Continue(t)
            } else if v > STACK_CELLS - s.sp {
                Step::Fault(VmError::StackOverflow)
            } else {
                Step::Continue(
                    VmState {
                        stack: zero_cells(t.stack, t.sp as int, v as int),
                        sp: (t.sp + v) as usize,
                        ..t
                    },
                )
            }
        },
        _ => Step::Fault(VmError::InvalidInstruction(ins)),
    }
}

/// One instruction: fetch at the program counter, advance it, execute.
/// Running past the last instruction halts with the accumulator.
pub open spec fn step_spec(code: Seq<Instruction>, st: VmState) -> Step {
    if st.pc >= code.len() {
        Step::Halt(st.acc)
    } else {
        let ins = code[st.pc as int];
        let s = VmState { pc: (st.pc + 1) as usize, ..st };
        match ins {
            Instruction::Instr(op) => plain_step(op, ins, s),
            Instruction::InstrInt(op, v) => immediate_step(op, v, ins, s),
            Instruction::Jump(op, target) => match op {
                OpCode::JMP => Step::Continue(VmState { pc: target, ..s }),
                OpCode::BZ => if s.acc == 0 {
                    Step::Continue(VmState { pc: target, ..s })
                } else {
                    Step::Continue(s)
                },
                OpCode::BNZ => if s.acc != 0 {
                    Step::Continue(VmState { pc: target, ..s })
                } else {
                    Step::Continue(s)
                },
                _ => Step::Fault(VmError::InvalidInstruction(ins)),
            },
            Instruction::Call(op, target) => match op {
                OpCode::JSR => Step::Continue(
                    VmState { frames: s.frames.push((s.pc, s.sp, s.fp, false)), pc: target, ..s },
                ),
                _ => Step::Fault(VmError::InvalidInstruction(ins)),
            },
        }
    }
}

/// The outcome of at most `fuel` instructions from `st`; `None` when the
/// program has not stopped by then.
pub open spec fn run_spec(code: Seq<Instruction>, st: VmState, fuel: nat) -> Option<
    Result<i64, VmError>,
>
    decreases fuel,
{
    if fuel == 0 {
        None
    } else {
        match step_spec(code, st) {
            Step::Continue(next) => run_spec(code, next, (fuel - 1) as nat),
            Step::Halt(v) => Some(Ok(v)),
            Step::Fault(e) => Some(Err(e)),
        }
    }
}

/// What `run` returns from `st`: the outcome within `MAX_STEPS` instructions.
pub open spec fn run_outcome(code: Seq<Instruction>, st: VmState) -> Result<i64, VmError> {
    match run_spec(code, st, MAX_STEPS as nat) {
        Some(r) => r,
        None => Err(VmError::StepLimit),
    }
}

pub struct VM {
    stack: Vec<i64>,
    frames: Vec<Frame>,
    pc: usize,
    sp: usize,
    fp: usize,
    acc: i64,
}

impl VM {
    pub closed spec fn state(&self) -> VmState {
        VmState {
            stack: self.stack@,
            frames: self.frames@,
            pc: self.pc,
            sp: self.sp,
            fp: self.fp,
            acc: self.acc,
        }
    }

    pub closed spec fn wf(&self) -> bool {
        state_wf(self.state())
    }

    /// A fresh machine.
    pub fn new() -> (r: VM)
        ensures
            r.wf(),
            r.state() == initial_state(),
    {
        let stack = vec![0i64; STACK_CELLS];
        let r = VM { stack, frames: Vec::new(), pc: 0, sp: 0, fp: 0, acc: 0 };
        assert(r.state().stack =~= initial_state().stack);
        r
    }

    /// The index of the next instruction.
    pub fn pc(&self) -> (r: usize)
        ensures
            r == self.state().pc,
    {
        self.pc
    }

    /// Pushes a value onto the operand stack.
    fn push(&mut self, val: i64) -> (r: Result<(), VmError>)
        requires
            old(self).wf(),
        ensures
            final(self).wf(),
            old(self).sp >= STACK_CELLS ==> r == Err::<(), VmError>(VmError::StackOverflow)
                && final(self).state() == old(self).state(),
            old(self).sp < STACK_CELLS ==> r is Ok && final(self).state() == (VmState {
                stack: old(self).state().stack.update(old(self).sp as int, val),
                sp: (old(self).sp + 1) as usize,
                ..old(self).state()
            }),
    {
        if self.sp >= self.stack.len() {
            return Err(VmError::StackOverflow);
        }
        self.stack.set(self.sp, val);
        self.sp = self.sp + 1;
        Ok(())
    }

    /// Pops the top of the operand stack.
    fn pop(&mut self) -> (r: Result<i64, VmError>)
        requires
            old(self).wf(),
        ensures
            final(self).wf(),
            old(self).sp == 0 ==> r == Err::<i64, VmError>(VmError::StackUnderflow)
                && final(self).state() == old(self).state(),
            old(self).sp > 0 ==> r == Ok::<i64, VmError>(old(self).stack@[old(self).sp - 1])
                && final(self).state() == (VmState {
                sp: (old(self).sp - 1) as usize,
                ..old(self).state()
            }),
    {
        if self.sp == 0 {
            return Err(VmError::StackUnderflow);
        }
        self.sp = self.sp - 1;
        Ok(self.stack[self.sp])
    }

    /// Saves the current frame: return address, stack and frame pointers, and
    /// whether `ENT` saves it.
    fn push_frame(&mut self, entered: bool)
        requires
            old(self).wf(),
        ensures
            final(self).wf(),
            final(self).state() == (VmState {
                frames: old(self).state().frames.push(
                    (old(self).pc, old(self).sp, old(self).fp, entered),
                ),
                ..old(self).state()
            }),
    {
        let ghost fs = self.frames@;
        self.frames.push((self.pc, self.sp, self.fp, entered));
        assert forall|i: int| 0 <= i < self.frames@.len() implies (
        #[trigger] self.frames@[i]).1 <= STACK_CELLS && self.frames@[i].2 <= STACK_CELLS by {
            if i < fs.len() {
                assert(self.frames@[i] == fs[i]);
            }
        }
    }

    fn exec_plain(&mut self, op: OpCode, ins: Instruction) -> (r: Option<Result<i64, VmError>>)
        requires
            old(self).wf(),
        ensures
            final(self).wf(),
            match plain_step(op, ins, old(self).state()) {
                Step::Continue(s) => r is None && final(self).state() == s,
                Step::Halt(v) => r == Some(Ok::<i64, VmError>(v)),
                Step::Fault(e) => r == Some(Err::<i64, VmError>(e)),
            },
    {
        if is_binary_op(op) {
            let l = match self.pop() {
                Ok(l) => l,
                Err(e) => return Some(Err(e)),
            };
            match binary(op, l, self.acc) {
                Some(v) => {
                    self.acc = v;
                    None
                },
                None => Some(Err(VmError::DivisionFault)),
            }
        } else {
            match op {
                OpCode::LI | OpCode::LC => {
                    if 0 <= self.acc && self.acc < STACK_CELLS as i64 {
                        let cell = self.stack[self.acc as usize];
                        self.acc = if op == OpCode::LI {
                            cell
                        } else {
                            cell & 0xff
                        };
                        None
                    } else {
                        Some(Err(VmError::BadAddress(self.acc)))
                    }
                },
                OpCode::SI | OpCode::SC => {
                    let addr = match self.pop() {
                        Ok(a) => a,
                        Err(e) => return Some(Err(e)),
                    };
                    let v = if op == OpCode::SI {
                        self.acc
                    } else {
                        self.acc & 0xff
                    };
                    if 0 <= addr && addr < STACK_CELLS as i64 {
                        self.stack.set(addr as usize, v);
                        self.acc = v;
                        None
                    } else {
                        Some(Err(VmError::BadAddress(addr)))
                    }
                },
                OpCode::PSH => match self.push(self.acc) {
                    Ok(()) => None,
                    Err(e) => Some(Err(e)),
                },
                OpCode::LEV => {
                    let ghost fs = self.frames@;
                    let top = match self.frames.pop() {
                        Some(f) => f,
                        None => return Some(Err(VmError::CallStackUnderflow)),
                    };
                    assert(top == fs[fs.len() - 1]);
                    assert(self.frames@ =~= fs.drop_last());
                    let f = if top.3 {
                        let ghost rest = self.frames@;
                        match self.frames.pop() {
                            Some(g) => {
                                assert(g == rest[rest.len() - 1]);
                                assert(self.frames@ =~= rest.drop_last());
                                assert(g == fs[fs.len() - 2]);
                                g
                            },
                            None => return Some(Err(VmError::CallStackUnderflow)),
                        }
                    } else {
                        top
                    };
                    proof {
                        assert forall|i: int| 0 <= i < self.frames@.len() implies (
                        #[trigger] self.frames@[i]).1 <= STACK_CELLS
                            && self.frames@[i].2 <= STACK_CELLS by {
                            assert(self.frames@[i] == fs[i]);
                        }
                    }
                    self.pc = f.0;
                    self.sp = f.1;
                    self.fp = f.2;
                    None
                },
                OpCode::EXIT => Some(Ok(self.acc)),
                _ => Some(Err(VmError::InvalidInstruction(ins))),
            }
        }
    }

    fn exec_immediate(&mut self, op: OpCode, v: i64, ins: Instruction) -> (r: Option<
        Result<i64, VmError>,
    >)
        requires
            old(self).wf(),
        ensures
            final(self).wf(),
            match immediate_step(op, v, ins, old(self).state()) {
                Step::Continue(s) => r is None && final(self).state() == s,
                Step::Halt(v) => r == Some(Ok::<i64, VmError>(v)),
                Step::Fault(e) => r == Some(Err::<i64, VmError>(e)),
            },
    {
        match op {
            OpCode::IMM => {
                self.acc = v;
                None
            },
            OpCode::LEA => {
                self.acc = (self.fp as i64).wrapping_add(v);
                None
            },
            OpCode::ADJ => {
                if v > 0 {
                    if v > self.sp as i64 {
                        return Some(Err(VmError::StackUnderflow));
                    }
                    self.sp = self.sp - v as usize;
                }
                None
            },
            OpCode::ENT => {
                self.push_frame(true);
                self.fp = self.sp;
                if v > 0 {
                    if v > (STACK_CELLS - self.sp) as i64 {
                        return Some(Err(VmError::StackOverflow));
                    }
                    let n = v as usize;
                    let ghost mid = self.state();
                    let ghost before = self.stack@;
                    let mut k: usize = 0;
                    assert(zero_cells(before, mid.sp as int, 0) =~= before);
                    while k < n
                        invariant
                            state_wf(mid),
                            before == mid.stack,
                            self.sp + n <= STACK_CELLS,
                            k <= n,
                            self.state() == (VmState {
                                stack: zero_cells(before, mid.sp as int, k as int),
                                ..mid
                            }),
                        decreases n - k,
                    {
                        self.stack.set(self.sp + k, 0);
                        k = k + 1;
                        assert(self.stack@ =~= zero_cells(before, self.sp as int, k as int));
                    }
                    self.sp = self.sp + n;
                }
                None
            },
            _ => Some(Err(VmError::InvalidInstruction(ins))),
        }
    }

    /// Executes one instruction. `None`: the machine goes on; `Some(Ok(v))`:
    /// it halted with `v`; `Some(Err(e))`: it stopped on fault `e`.
    pub fn step(&mut self, code: &Vec<Instruction>) -> (r: Option<Result<i64, VmError>>)
        requires
            old(self).wf(),
        ensures
            final(self).wf(),
            match step_spec(code@, old(self).state()) {
                Step::Continue(s) => r is None && final(self).state() == s,
                Step::Halt(v) => r == Some(Ok::<i64, VmError>(v)),
                Step::Fault(e) => r == Some(Err::<i64, VmError>(e)),
            },
    {
        if self.pc >= code.len() {
            return Some(Ok(self.acc));
        }
        let ins = code[self.pc];
        self.pc = self.pc + 1;
        match ins {
            Instruction::Instr(op) => self.exec_plain(op, ins),
            Instruction::InstrInt(op, v) => self.exec_immediate(op, v, ins),
            Instruction::Jump(op, target) => match op {
                OpCode::JMP => {
                    self.pc = target;
                    None
                },
                OpCode::BZ => {
                    if self.acc == 0 {
                        self.pc = target;
                    }
                    None
                },
                OpCode::BNZ => {
                    if self.acc != 0 {
                        self.pc = target;
                    }
                    None
                },
                _ => Some(Err(VmError::InvalidInstruction(ins))),
            },
            Instruction::Call(op, target) => match op {
                OpCode::JSR => {
                    self.push_frame(false);
                    self.pc = target;
                    None
                },
                _ => Some(Err(VmError::InvalidInstruction(ins))),
            },
        }
    }

    /// Executes `chunk` from the current state until it halts or faults, for
    /// at most `MAX_STEPS` instructions.
    pub fn run(&mut self, chunk: &Chunk) -> (r: Result<i64, VmError>)
        requires
            old(self).wf(),
        ensures
            final(self).wf(),
            r == run_outcome(chunk.code@, old(self).state()),
    {
        let code = &chunk.code;
        let ghost init = self.state();
        let mut fuel: u64 = MAX_STEPS;
        while fuel > 0
            invariant
                self.wf(),
                code@ == chunk.code@,
                init == old(self).state(),
                run_spec(code@, init, MAX_STEPS as nat) == run_spec(
                    code@,
                    self.state(),
                    fuel as nat,
                ),
            decreases fuel,
        {
            let ghost before = self.state();
            if let Some(r) = self.step(code) {
                assert(run_spec(code@, before, fuel as nat) == Some(r));
                return r;
            }
            fuel = fuel - 1;
        }
        Err(VmError::StepLimit)
    }
}

/// Comparisons produce exactly 0 or 1.
pub proof fn lemma_comparison_is_zero_or_one(op: OpCode, l: i64, r: i64)
    requires
        op == OpCode::EQ || op == OpCode::NE || op == OpCode::LT || op == OpCode::LE || op
            == OpCode::GT || op == OpCode::GE,
    ensures
        binary_value(op, l, r) == Some(0i64) || binary_value(op, l, r) == Some(1i64),
{
}

/// Executing a comparison instruction leaves 0 or 1 in the accumulator.
pub proof fn lemma_comparison_step(code: Seq<Instruction>, st: VmState)
    requires
        state_wf(st),
        st.pc < code.len(),
        code[st.pc as int] matches Instruction::Instr(op) && (op == OpCode::EQ || op == OpCode::NE
            || op == OpCode::LT || op == OpCode::LE || op == OpCode::GT || op == OpCode::GE),
        st.sp > 0,
    ensures
        step_spec(code, st) matches Step::Continue(s) && (s.acc == 0 || s.acc == 1),
{
}

fn is_binary_op(op: OpCode) -> (r: bool)
    ensures
        r == is_binary(op),
{
    match op {
        OpCode::ADD | OpCode::SUB | OpCode::MUL | OpCode::DIV | OpCode::MOD | OpCode::AND | OpCode::OR | OpCode::XOR | OpCode::EQ | OpCode::NE | OpCode::LT | OpCode::LE | OpCode::GT | OpCode::GE | OpCode::SHL | OpCode::SHR => true,
        _ => false,
    }
}

/// `l op r` for a binary opcode, as `binary_value` gives it.
fn binary(op: OpCode, l: i64, r: i64) -> (v: Option<i64>)
    ensures
        v == binary_value(op, l, r),
{
    match op {
        OpCode::ADD => Some(l.wrapping_add(r)),
        OpCode::SUB => Some(l.wrapping_sub(r)),
        OpCode::MUL => Some(l.wrapping_mul(r)),
        OpCode::DIV => l.checked_div(r),
        OpCode::MOD => l.checked_rem(r),
        OpCode::AND => Some(l & r),
        OpCode::OR => Some(l | r),
        OpCode::XOR => Some(l ^ r),
        OpCode::EQ => Some(if l == r { 1 } else { 0 }),
        OpCode::NE => Some(if l != r { 1 } else { 0 }),
        OpCode::LT => Some(if l < r { 1 } else { 0 }),
        OpCode::LE => Some(if l <= r { 1 } else { 0 }),
        OpCode::GT => Some(if l > r { 1 } else { 0 }),
        OpCode::GE => Some(if l >= r { 1 } else { 0 }),
        OpCode::SHL => {
            assert(0 <= r & 63 <= 63) by (bit_vector);
            Some(l.wrapping_shl((r & 63) as u32))
        },
        OpCode::SHR => {
            assert(0 <= r & 63 <= 63) by (bit_vector);
            Some(l.wrapping_shr((r & 63) as u32))
        },
        _ => None,
    }
}

} // verus!
