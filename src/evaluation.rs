//! What compiled code does when the machine runs it: literal arithmetic
//! evaluates by the operator semantics with the left operand first, and `if`
//! and `while` branch on their condition.

use crate::ast::{BinOp, Block, Expr, FuncDef, Item, Program, Stmt, Type};
use crate::bytecode::{Instruction, OpCode};
use crate::codegen::{
    binop_opcode, block_code, body_code, expr_code, find_named, frame_slots, func_code, items_code,
    program_code, stmt_code,
};
use crate::vm::{
    binary_value, initial_state, is_binary, run_outcome, run_spec, state_wf, step_spec, Step,
    VmError, VmState, MAX_STEPS, STACK_CELLS,
};
use vstd::prelude::*;

verus! {

/// The state after `n` instructions from `st`, or how the machine stopped
/// before.
pub open spec fn exec_n(code: Seq<Instruction>, st: VmState, n: nat) -> Step
    decreases n,
{
    if n == 0 {
        Step::Continue(st)
    } else {
        match step_spec(code, st) {
            Step::Continue(next) => exec_n(code, next, (n - 1) as nat),
            other => other,
        }
    }
}

/// The value of an expression built from number literals and the binary
/// operators that compile to one instruction; `None` for any other form, or
/// when a division faults.
pub open spec fn literal_value(e: Expr) -> Option<i64>
    decreases e,
{
    match e {
        Expr::Num(n) => Some(n),
        Expr::Binary { op, left, right } => match (
            binop_opcode(op),
            literal_value(*left),
            literal_value(*right),
        ) {
            (Some(code), Some(l), Some(r)) => binary_value(code, l, r),
            _ => None,
        },
        _ => None,
    }
}

/// The number of stack cells that evaluating `e` uses at most.
pub open spec fn expr_depth(e: Expr) -> nat
    decreases e,
{
    match e {
        Expr::Binary { op, left, right } => {
            let l = expr_depth(*left);
            let r = expr_depth(*right) + 1;
            if l > r {
                l
            } else {
                r
            }
        },
        _ => 0,
    }
}

/// The number of instructions that evaluating a literal expression takes.
pub open spec fn literal_steps(e: Expr) -> nat
    decreases e,
{
    match e {
        Expr::Binary { op, left, right } => literal_steps(*left) + literal_steps(*right) + 2,
        _ => 1,
    }
}

/// Running `a` then `b` instructions is running `a + b`.
pub proof fn lemma_exec_n_split(code: Seq<Instruction>, st: VmState, a: nat, b: nat)
    ensures
        exec_n(code, st, a + b) == match exec_n(code, st, a) {
            Step::Continue(s) => exec_n(code, s, b),
            other => other,
        },
    decreases a,
{
    if a > 0 {
        match step_spec(code, st) {
            Step::Continue(next) => {
                lemma_exec_n_split(code, next, (a - 1) as nat, b);
                assert((a + b - 1) as nat == ((a - 1) as nat + b) as nat);
            },
            _ => {},
        }
    }
}

/// Running with fuel goes through the states of `exec_n`.
pub proof fn lemma_run_through(code: Seq<Instruction>, st: VmState, n: nat, fuel: nat)
    requires
        exec_n(code, st, n) is Continue,
        n <= fuel,
    ensures
        run_spec(code, st, fuel) == run_spec(code, exec_n(code, st, n)->Continue_0, (fuel - n) as nat),
    decreases n,
{
    if n > 0 {
        match step_spec(code, st) {
            Step::Continue(next) => {
                lemma_run_through(code, next, (n - 1) as nat, (fuel - 1) as nat);
            },
            _ => {},
        }
    }
}

/// Evaluating the code of a literal expression leaves its value in the
/// accumulator, the stack pointer where it was and the cells below it as they
/// were, and the program counter just after the code.
pub proof fn lemma_literal_expr_runs(
    code: Seq<Instruction>,
    e: Expr,
    st: VmState,
    vars: Seq<(String, i64)>,
    funcs: Seq<(String, usize)>,
)
    requires
        state_wf(st),
        literal_value(e) is Some,
        expr_code(e, st.pc as int, vars, funcs) is Some,
        code.len() <= usize::MAX,
        st.pc + expr_code(e, st.pc as int, vars, funcs)->0.len() <= code.len(),
        code.subrange(st.pc as int, st.pc + expr_code(e, st.pc as int, vars, funcs)->0.len())
            == expr_code(e, st.pc as int, vars, funcs)->0,
        st.sp + expr_depth(e) <= STACK_CELLS,
    ensures
        exec_n(code, st, literal_steps(e)) is Continue,
        ({
            let s2 = exec_n(code, st, literal_steps(e))->Continue_0;
            &&& s2.pc == st.pc + expr_code(e, st.pc as int, vars, funcs)->0.len()
            &&& s2.acc == literal_value(e)->0
            &&& s2.sp == st.sp
            &&& s2.fp == st.fp
            &&& s2.frames == st.frames
            &&& s2.stack.len() == st.stack.len()
            &&& forall|i: int| 0 <= i < st.sp ==> s2.stack[i] == st.stack[i]
        }),
    decreases e,
{
    let at = st.pc as int;
    let c = expr_code(e, at, vars, funcs)->0;
    match e {
        Expr::Num(n) => {
            assert(code[at] == c[0]);
            assert(exec_n(code, VmState { pc: (st.pc + 1) as usize, acc: n, ..st }, 0) is Continue);
        },
        Expr::Binary { op, left, right } => {
            let opc = binop_opcode(op)->0;
            let lc = expr_code(*left, at, vars, funcs)->0;
            let rc = expr_code(*right, at + lc.len() + 1, vars, funcs)->0;
            assert(c == lc + seq![Instruction::Instr(OpCode::PSH)] + rc + seq![Instruction::Instr(opc)]);
            let nl = literal_steps(*left);
            let nr = literal_steps(*right);
            assert(code.subrange(at, at + lc.len()) =~= lc) by {
                assert(c.subrange(0, lc.len() as int) =~= lc);
            }
            lemma_literal_expr_runs(code, *left, st, vars, funcs);
            let s1 = exec_n(code, st, nl)->Continue_0;
            assert(code[at + lc.len()] == c[lc.len() as int]);
            let s2 = VmState {
                stack: s1.stack.update(s1.sp as int, s1.acc),
                sp: (s1.sp + 1) as usize,
                pc: (s1.pc + 1) as usize,
                ..s1
            };
            assert(step_spec(code, s1) == Step::Continue(s2));
            assert(exec_n(code, s1, 1) == Step::Continue(s2)) by {
                assert(exec_n(code, s2, 0) == Step::Continue(s2));
            }
            assert(code.subrange(s2.pc as int, s2.pc + rc.len()) =~= rc) by {
                assert(c.subrange(lc.len() + 1int, lc.len() + 1int + rc.len()) =~= rc);
            }
            lemma_literal_expr_runs(code, *right, s2, vars, funcs);
            let s3 = exec_n(code, s2, nr)->Continue_0;
            assert(s3.stack[st.sp as int] == s2.stack[st.sp as int]);
            assert(code[s3.pc as int] == c[lc.len() + 1int + rc.len()]);
            let s4 = VmState { sp: st.sp, acc: literal_value(e)->0, pc: (s3.pc + 1) as usize, ..s3 };
            assert(is_binary(opc));
            assert(step_spec(code, s3) == Step::Continue(s4));
            assert(exec_n(code, s3, 1) == Step::Continue(s4)) by {
                assert(exec_n(code, s4, 0) == Step::Continue(s4));
            }
            lemma_exec_n_split(code, st, nl, 1);
            lemma_exec_n_split(code, st, nl + 1, nr);
            lemma_exec_n_split(code, st, nl + 1 + nr, 1);
            assert(literal_steps(e) == nl + 1 + nr + 1);
        },
        _ => {},
    }
}

/// Where the parts of `main() { return e; ... }` land in its code: the call
/// of `main` and `EXIT`, `ENT 0`, then the code of `e` and a `LEV`.
proof fn lemma_single_main_layout(p: Program, e: Expr)
    requires
        p.items.len() == 1,
        p.items[0] is Function,
        p.items[0]->Function_0.name@ == "main"@,
        p.items[0]->Function_0.locals.len() == 0,
        p.items[0]->Function_0.body.stmts.len() >= 1,
        p.items[0]->Function_0.body.stmts[0] == Stmt::Return(Some(e)),
        program_code(p, 0) is Some,
    ensures
        ({
            let f = p.items[0]->Function_0;
            let code = program_code(p, 0)->0;
            let c = expr_code(
                e,
                3,
                crate::codegen::frame_slots(f),
                seq![(f.name, 2usize)],
            )->0;
            &&& expr_code(e, 3, crate::codegen::frame_slots(f), seq![(f.name, 2usize)]) is Some
            &&& code[0] == Instruction::Call(OpCode::JSR, 2)
            &&& code[1] == Instruction::Instr(OpCode::EXIT)
            &&& code[2] == Instruction::InstrInt(OpCode::ENT, 0)
            &&& 3 + c.len() < code.len()
            &&& code.subrange(3, 3int + c.len()) == c
            &&& code[3int + c.len()] == Instruction::Instr(OpCode::LEV)
        }),
{
    let f = p.items[0]->Function_0;
    assert(crate::codegen::is_main(p.items[0]));
    let table = seq![(f.name, 2usize)];
    let vars = crate::codegen::frame_slots(f);
    let c = expr_code(e, 3, vars, table)->0;
    let sc = stmt_code(f.body.stmts[0], 3, vars, table)->0;
    assert(sc == c + seq![Instruction::Instr(OpCode::LEV)]);
    let rest = body_code(f, 1, 3int + sc.len(), vars, table)->0;
    assert(body_code(f, 0, 3, vars, table)->0 == sc + rest);
    let fc = func_code(f, 2, table)->0;
    assert(fc == seq![Instruction::InstrInt(OpCode::ENT, 0)] + (sc + rest) + seq![
        Instruction::Instr(OpCode::LEV),
    ]);
    assert(items_code(p.items@, 1, 2int + fc.len(), table) == Some(
        (Seq::<Instruction>::empty(), table),
    ));
    assert(fc + Seq::<Instruction>::empty() =~= fc);
    assert(items_code(p.items@, 0, 2, seq![]) == Some((fc, table)));
    assert(find_named(table, "main"@) == Some(2usize));
    let code = program_code(p, 0)->0;
    assert(code == seq![Instruction::Call(OpCode::JSR, 2), Instruction::Instr(OpCode::EXIT)] + fc);
    assert(code.subrange(3, 3int + c.len()) =~= c);
    assert(code[3int + c.len()] == Instruction::Instr(OpCode::LEV));
}

/// Running code laid out as `lemma_single_main_layout` says: the call enters
/// `main`, its body evaluates `e`, the `LEV` of the return goes back to the
/// `EXIT` after the call, and the program exits with the value of `e`.
proof fn lemma_single_main_runs(
    code: Seq<Instruction>,
    e: Expr,
    vars: Seq<(String, i64)>,
    funcs: Seq<(String, usize)>,
)
    requires
        expr_code(e, 3, vars, funcs) is Some,
        code[0] == Instruction::Call(OpCode::JSR, 2),
        code[1] == Instruction::Instr(OpCode::EXIT),
        code[2] == Instruction::InstrInt(OpCode::ENT, 0),
        3 + expr_code(e, 3, vars, funcs)->0.len() < code.len(),
        code.subrange(3, 3int + expr_code(e, 3, vars, funcs)->0.len()) == expr_code(
            e,
            3,
            vars,
            funcs,
        )->0,
        code[3int + expr_code(e, 3, vars, funcs)->0.len()] == Instruction::Instr(OpCode::LEV),
        code.len() <= usize::MAX,
        literal_value(e) is Some,
        expr_depth(e) < STACK_CELLS,
        literal_steps(e) < 0x1_0000_0000,
    ensures
        run_outcome(code, initial_state()) == Ok::<i64, VmError>(literal_value(e)->0),
{
    let v = literal_value(e)->0;
    let s0 = initial_state();
    let s1 = VmState { frames: seq![(1usize, 0usize, 0usize, false)], pc: 2, ..s0 };
    let s2 = VmState { frames: seq![(1usize, 0usize, 0usize, false), (3usize, 0usize, 0usize, true)], pc: 3, ..s1 };
    assert(step_spec(code, s0) == Step::Continue(s1));
    assert(s1.frames.push((3usize, 0usize, 0usize, true)) =~= s2.frames);
    assert(step_spec(code, s1) == Step::Continue(s2));
    assert(exec_n(code, s0, 2) == Step::Continue(s2)) by {
        assert(exec_n(code, s2, 0) == Step::Continue(s2));
        assert(exec_n(code, s1, 1) == Step::Continue(s2));
    }
    let k = literal_steps(e);
    lemma_literal_expr_runs(code, e, s2, vars, funcs);
    let s3 = exec_n(code, s2, k)->Continue_0;
    let s4 = VmState { frames: seq![], pc: 1, sp: 0, fp: 0, ..s3 };
    assert(s3.frames.drop_last() =~= seq![(1usize, 0usize, 0usize, false)]);
    assert(s3.frames.drop_last().drop_last() =~= Seq::<(usize, usize, usize, bool)>::empty());
    assert(step_spec(code, s3) == Step::Continue(s4));
    assert(exec_n(code, s3, 1) == Step::Continue(s4)) by {
        assert(exec_n(code, s4, 0) == Step::Continue(s4));
    }
    assert(step_spec(code, s4) == Step::Halt(v));
    lemma_exec_n_split(code, s0, 2, k);
    lemma_exec_n_split(code, s0, 2 + k, 1);
    let n = 2 + k + 1;
    assert(exec_n(code, s0, n) == Step::Continue(s4));
    lemma_run_through(code, s0, n, MAX_STEPS as nat);
    assert(run_spec(code, s4, (MAX_STEPS - n) as nat) == Some(Ok::<i64, VmError>(v)));
}

/// The program `main() { return e; ... }`, for an expression `e` of number
/// literals and arithmetic, comparison, bitwise and shift operators, runs to
/// `e`'s value: the value of the arithmetic by the operator semantics, left
/// operand first. (`Program::compile` produces `program_code`, and
/// `VM::run` on a fresh machine returns `run_outcome` from `initial_state`.)
pub proof fn lemma_literal_program_result(p: Program, e: Expr)
    requires
        p.items.len() == 1,
        p.items[0] is Function,
        p.items[0]->Function_0.name@ == "main"@,
        p.items[0]->Function_0.locals.len() == 0,
        p.items[0]->Function_0.body.stmts.len() >= 1,
        p.items[0]->Function_0.body.stmts[0] == Stmt::Return(Some(e)),
        literal_value(e) is Some,
        expr_depth(e) < STACK_CELLS,
        literal_steps(e) < 0x1_0000_0000,
        program_code(p, 0) is Some,
        program_code(p, 0)->0.len() <= usize::MAX,
    ensures
        run_outcome(program_code(p, 0)->0, initial_state()) == Ok::<i64, VmError>(
            literal_value(e)->0,
        ),
{
    let f = p.items[0]->Function_0;
    lemma_single_main_layout(p, e);
    lemma_single_main_runs(
        program_code(p, 0)->0,
        e,
        crate::codegen::frame_slots(f),
        seq![(f.name, 2usize)],
    );
}

/// A binary operator applies to its operands in source order: the left
/// operand is pushed first, and the operator combines that pushed value with
/// the right operand (`10 - 3` is 7, never -7).
pub proof fn lemma_left_operand_first(
    code: Seq<Instruction>,
    op: BinOp,
    l: i64,
    r: i64,
    st: VmState,
    vars: Seq<(String, i64)>,
    funcs: Seq<(String, usize)>,
)
    requires
        state_wf(st),
        binop_opcode(op) is Some,
        binary_value(binop_opcode(op)->0, l, r) is Some,
        code.len() <= usize::MAX,
        st.sp < STACK_CELLS,
        ({
            let c = expr_code(
                Expr::Binary { op, left: Box::new(Expr::Num(l)), right: Box::new(Expr::Num(r)) },
                st.pc as int,
                vars,
                funcs,
            )->0;
            st.pc + c.len() <= code.len() && code.subrange(st.pc as int, st.pc + c.len()) == c
        }),
    ensures
        expr_code(
            Expr::Binary { op, left: Box::new(Expr::Num(l)), right: Box::new(Expr::Num(r)) },
            st.pc as int,
            vars,
            funcs,
        )->0 == seq![
            Instruction::InstrInt(OpCode::IMM, l),
            Instruction::Instr(OpCode::PSH),
            Instruction::InstrInt(OpCode::IMM, r),
            Instruction::Instr(binop_opcode(op)->0),
        ],
        exec_n(code, st, 4) is Continue,
        exec_n(code, st, 4)->Continue_0.acc == binary_value(binop_opcode(op)->0, l, r)->0,
{
    let e = Expr::Binary { op, left: Box::new(Expr::Num(l)), right: Box::new(Expr::Num(r)) };
    reveal_with_fuel(literal_steps, 2);
    reveal_with_fuel(literal_value, 2);
    reveal_with_fuel(expr_depth, 2);
    reveal_with_fuel(expr_code, 2);
    assert(literal_steps(e) == 4);
    lemma_literal_expr_runs(code, e, st, vars, funcs);
}

/// Storing a value into a frame slot and loading the same slot gives the value
/// back: `LEA k; PSH; IMM v; SI; LEA k; LI` leaves `v` in the accumulator, for
/// any slot `k` of the frame that lies on the stack.
pub proof fn lemma_frame_store_load(code: Seq<Instruction>, st: VmState, k: i64, v: i64)
    requires
        state_wf(st),
        code.len() <= usize::MAX,
        st.pc + 6 <= code.len(),
        code.subrange(st.pc as int, st.pc + 6) == seq![
            Instruction::InstrInt(OpCode::LEA, k),
            Instruction::Instr(OpCode::PSH),
            Instruction::InstrInt(OpCode::IMM, v),
            Instruction::Instr(OpCode::SI),
            Instruction::InstrInt(OpCode::LEA, k),
            Instruction::Instr(OpCode::LI),
        ],
        0 <= k,
        st.fp + k < STACK_CELLS,
        st.sp < STACK_CELLS,
    ensures
        exec_n(code, st, 6) is Continue,
        exec_n(code, st, 6)->Continue_0.acc == v,
        exec_n(code, st, 6)->Continue_0.pc == st.pc + 6,
        exec_n(code, st, 6)->Continue_0.sp == st.sp,
        exec_n(code, st, 6)->Continue_0.stack[st.fp + k] == v,
{
    let at = st.pc as int;
    let slot = (st.fp + k) as i64;
    assert((st.fp as i64).wrapping_add(k) == slot);
    assert(code[at] == Instruction::InstrInt(OpCode::LEA, k));
    assert(code[at + 1] == Instruction::Instr(OpCode::PSH));
    assert(code[at + 2] == Instruction::InstrInt(OpCode::IMM, v));
    assert(code[at + 3] == Instruction::Instr(OpCode::SI));
    assert(code[at + 4] == Instruction::InstrInt(OpCode::LEA, k));
    assert(code[at + 5] == Instruction::Instr(OpCode::LI));
    let s1 = VmState { acc: slot, pc: (at + 1) as usize, ..st };
    let s2 = VmState {
        stack: st.stack.update(st.sp as int, slot),
        sp: (st.sp + 1) as usize,
        pc: (at + 2) as usize,
        ..s1
    };
    let s3 = VmState { acc: v, pc: (at + 3) as usize, ..s2 };
    let s4 = VmState {
        stack: s2.stack.update(slot as int, v),
        sp: st.sp,
        acc: v,
        pc: (at + 4) as usize,
        ..s3
    };
    let s5 = VmState { acc: slot, pc: (at + 5) as usize, ..s4 };
    let s6 = VmState { acc: v, pc: (at + 6) as usize, ..s5 };
    assert(step_spec(code, st) == Step::Continue(s1));
    assert(step_spec(code, s1) == Step::Continue(s2));
    assert(step_spec(code, s2) == Step::Continue(s3));
    assert(step_spec(code, s3) == Step::Continue(s4));
    assert(step_spec(code, s4) == Step::Continue(s5));
    assert(step_spec(code, s5) == Step::Continue(s6));
    assert(exec_n(code, s6, 0) == Step::Continue(s6));
    assert(exec_n(code, s5, 1) == Step::Continue(s6));
    assert(exec_n(code, s4, 2) == Step::Continue(s6));
    assert(exec_n(code, s3, 3) == Step::Continue(s6));
    assert(exec_n(code, s2, 4) == Step::Continue(s6));
    assert(exec_n(code, s1, 5) == Step::Continue(s6));
    assert(exec_n(code, st, 6) == Step::Continue(s6));
}

/// Runs the condition of a statement whose code starts with a literal
/// condition's code and a `BZ`: after the condition and the branch, the
/// program counter is the `BZ` target when the condition is 0, and just past
/// the `BZ` otherwise; nothing else of the frame changes.
proof fn lemma_condition_branch(
    code: Seq<Instruction>,
    cond: Expr,
    target: usize,
    st: VmState,
    vars: Seq<(String, i64)>,
    funcs: Seq<(String, usize)>,
)
    requires
        state_wf(st),
        literal_value(cond) is Some,
        expr_code(cond, st.pc as int, vars, funcs) is Some,
        code.len() <= usize::MAX,
        st.pc + expr_code(cond, st.pc as int, vars, funcs)->0.len() < code.len(),
        code.subrange(st.pc as int, st.pc + expr_code(cond, st.pc as int, vars, funcs)->0.len())
            == expr_code(cond, st.pc as int, vars, funcs)->0,
        code[st.pc + expr_code(cond, st.pc as int, vars, funcs)->0.len()] == Instruction::Jump(
            OpCode::BZ,
            target,
        ),
        st.sp + expr_depth(cond) <= STACK_CELLS,
    ensures
        exec_n(code, st, literal_steps(cond) + 1) is Continue,
        ({
            let s = exec_n(code, st, literal_steps(cond) + 1)->Continue_0;
            &&& s.pc == if literal_value(cond)->0 == 0 {
                target as int
            } else {
                st.pc + expr_code(cond, st.pc as int, vars, funcs)->0.len() + 1
            }
            &&& s.sp == st.sp
            &&& s.fp == st.fp
            &&& s.frames == st.frames
        }),
{
    lemma_literal_expr_runs(code, cond, st, vars, funcs);
    let n = literal_steps(cond);
    let s1 = exec_n(code, st, n)->Continue_0;
    let s2 = if s1.acc == 0 {
        VmState { pc: target, ..s1 }
    } else {
        VmState { pc: (s1.pc + 1) as usize, ..s1 }
    };
    assert(step_spec(code, s1) == Step::Continue(s2));
    assert(exec_n(code, s1, 1) == Step::Continue(s2)) by {
        assert(exec_n(code, s2, 0) == Step::Continue(s2));
    }
    lemma_exec_n_split(code, st, n, 1);
}

/// An `if` whose condition is false skips its then-branch: after the
/// condition, control is at the start of the else-branch's code, or at the
/// end of the statement's code when there is no else-branch. A true condition
/// goes on into the then-branch.
pub proof fn lemma_if_branches(
    code: Seq<Instruction>,
    s: Stmt,
    st: VmState,
    vars: Seq<(String, i64)>,
    funcs: Seq<(String, usize)>,
)
    requires
        state_wf(st),
        s is If,
        literal_value(s->If_cond) is Some,
        stmt_code(s, st.pc as int, vars, funcs) is Some,
        code.len() <= usize::MAX,
        st.pc + stmt_code(s, st.pc as int, vars, funcs)->0.len() <= code.len(),
        code.subrange(st.pc as int, st.pc + stmt_code(s, st.pc as int, vars, funcs)->0.len())
            == stmt_code(s, st.pc as int, vars, funcs)->0,
        st.sp + expr_depth(s->If_cond) <= STACK_CELLS,
    ensures
        exec_n(code, st, literal_steps(s->If_cond) + 1) is Continue,
        ({
            let at = st.pc as int;
            let cc = expr_code(s->If_cond, at, vars, funcs)->0;
            let then_at = at + cc.len() + 1;
            let tc = stmt_code(*s->If_then_branch, then_at, vars, funcs)->0;
            let next = exec_n(code, st, literal_steps(s->If_cond) + 1)->Continue_0;
            &&& literal_value(s->If_cond)->0 == 0 && s->If_else_branch is Some ==> next.pc
                == then_at + tc.len() + 1
            &&& literal_value(s->If_cond)->0 == 0 && s->If_else_branch is None ==> next.pc
                == at + stmt_code(s, at, vars, funcs)->0.len()
            &&& literal_value(s->If_cond)->0 != 0 ==> next.pc == then_at
            &&& next.sp == st.sp && next.fp == st.fp && next.frames == st.frames
        }),
{
    let at = st.pc as int;
    let cond = s->If_cond;
    let c = stmt_code(s, at, vars, funcs)->0;
    let cc = expr_code(cond, at, vars, funcs)->0;
    let then_at = at + cc.len() + 1;
    let tc = stmt_code(*s->If_then_branch, then_at, vars, funcs)->0;
    let target: usize = match s->If_else_branch {
        Some(_) => (then_at + tc.len() + 1) as usize,
        None => (then_at + tc.len()) as usize,
    };
    assert(c.subrange(0, cc.len() as int) =~= cc);
    assert(c[cc.len() as int] == Instruction::Jump(OpCode::BZ, target));
    assert(code.subrange(at, at + cc.len()) =~= cc);
    assert(code[at + cc.len()] == c[cc.len() as int]);
    lemma_condition_branch(code, cond, target, st, vars, funcs);
}

/// A `while` whose condition is false runs its body zero times: after the
/// condition, control is at the end of the loop's code.
pub proof fn lemma_while_false_skips_body(
    code: Seq<Instruction>,
    s: Stmt,
    st: VmState,
    vars: Seq<(String, i64)>,
    funcs: Seq<(String, usize)>,
)
    requires
        state_wf(st),
        s is While,
        literal_value(s->While_cond) == Some(0i64),
        stmt_code(s, st.pc as int, vars, funcs) is Some,
        code.len() <= usize::MAX,
        st.pc + stmt_code(s, st.pc as int, vars, funcs)->0.len() <= code.len(),
        code.subrange(st.pc as int, st.pc + stmt_code(s, st.pc as int, vars, funcs)->0.len())
            == stmt_code(s, st.pc as int, vars, funcs)->0,
        st.sp + expr_depth(s->While_cond) <= STACK_CELLS,
    ensures
        exec_n(code, st, literal_steps(s->While_cond) + 1) is Continue,
        exec_n(code, st, literal_steps(s->While_cond) + 1)->Continue_0.pc == st.pc + stmt_code(
            s,
            st.pc as int,
            vars,
            funcs,
        )->0.len(),
{
    let at = st.pc as int;
    let cond = s->While_cond;
    let c = stmt_code(s, at, vars, funcs)->0;
    let cc = expr_code(cond, at, vars, funcs)->0;
    let body_at = at + cc.len() + 1;
    let bc = stmt_code(*s->While_body, body_at, vars, funcs)->0;
    let target = (body_at + bc.len() + 1) as usize;
    assert(c.subrange(0, cc.len() as int) =~= cc);
    assert(c[cc.len() as int] == Instruction::Jump(OpCode::BZ, target));
    assert(code.subrange(at, at + cc.len()) =~= cc);
    assert(code[at + cc.len()] == c[cc.len() as int]);
    lemma_condition_branch(code, cond, target, st, vars, funcs);
}

/// `while (x) x = x - 1;`
pub open spec fn countdown(x: String) -> Stmt {
    Stmt::While {
        cond: Expr::Var(x),
        body: Box::new(
            Stmt::Expr(
                Expr::Binary {
                    op: BinOp::Assign,
                    left: Box::new(Expr::Var(x)),
                    right: Box::new(
                        Expr::Binary {
                            op: BinOp::Sub,
                            left: Box::new(Expr::Var(x)),
                            right: Box::new(Expr::Num(1)),
                        },
                    ),
                },
            ),
        ),
    }
}

/// The code of `countdown` at `at`, for a variable in frame slot `slot`.
pub open spec fn countdown_code(slot: i64, at: int) -> Seq<Instruction> {
    seq![
        Instruction::InstrInt(OpCode::LEA, slot),
        Instruction::Instr(OpCode::LI),
        Instruction::Jump(OpCode::BZ, (at + 12) as usize),
        Instruction::InstrInt(OpCode::LEA, slot),
        Instruction::Instr(OpCode::PSH),
        Instruction::InstrInt(OpCode::LEA, slot),
        Instruction::Instr(OpCode::LI),
        Instruction::Instr(OpCode::PSH),
        Instruction::InstrInt(OpCode::IMM, 1),
        Instruction::Instr(OpCode::SUB),
        Instruction::Instr(OpCode::SI),
        Instruction::Jump(OpCode::JMP, at as usize),
    ]
}

proof fn lemma_countdown_compiles(
    x: String,
    at: int,
    vars: Seq<(String, i64)>,
    funcs: Seq<(String, usize)>,
)
    requires
        find_named(vars, x@) is Some,
    ensures
        stmt_code(countdown(x), at, vars, funcs) == Some(
            countdown_code(find_named(vars, x@)->0, at),
        ),
{
    let slot = find_named(vars, x@)->0;
    let s = countdown(x);
    let cond = Expr::Var(x);
    let body = s->While_body;
    let rhs = Expr::Binary {
        op: BinOp::Sub,
        left: Box::new(Expr::Var(x)),
        right: Box::new(Expr::Num(1)),
    };
    let cc = seq![Instruction::InstrInt(OpCode::LEA, slot), Instruction::Instr(OpCode::LI)];
    assert(expr_code(cond, at, vars, funcs) == Some(cc));
    let rc = seq![
        Instruction::InstrInt(OpCode::LEA, slot),
        Instruction::Instr(OpCode::LI),
        Instruction::Instr(OpCode::PSH),
        Instruction::InstrInt(OpCode::IMM, 1),
        Instruction::Instr(OpCode::SUB),
    ];
    assert(expr_code(Expr::Var(x), at + 5, vars, funcs) == Some(cc));
    assert(expr_code(Expr::Num(1), at + 8, vars, funcs) == Some(
        seq![Instruction::InstrInt(OpCode::IMM, 1)],
    ));
    assert(expr_code(rhs, at + 5, vars, funcs) == Some(rc)) by {
        assert(cc + seq![Instruction::Instr(OpCode::PSH)] + seq![
            Instruction::InstrInt(OpCode::IMM, 1),
        ] + seq![Instruction::Instr(OpCode::SUB)] =~= rc);
    }
    let bc = seq![
        Instruction::InstrInt(OpCode::LEA, slot),
        Instruction::Instr(OpCode::PSH),
    ] + rc + seq![Instruction::Instr(OpCode::SI)];
    assert(stmt_code(*body, at + 3, vars, funcs) == Some(bc));
    assert(cc + seq![Instruction::Jump(OpCode::BZ, (at + 3 + bc.len() + 1) as usize)] + bc
        + seq![Instruction::Jump(OpCode::JMP, at as usize)] =~= countdown_code(slot, at));
}

/// One turn of the countdown loop from its top, with the variable at `n > 0`:
/// twelve instructions later control is back at the top, the variable holds
/// `n - 1`, and the stack pointer is where it was.
proof fn lemma_countdown_turn(code: Seq<Instruction>, st: VmState, slot: i64, n: i64)
    requires
        state_wf(st),
        code.len() <= usize::MAX,
        st.pc + 12 <= code.len(),
        code.subrange(st.pc as int, st.pc + 12) == countdown_code(slot, st.pc as int),
        0 <= st.fp + slot < st.sp,
        st.sp + 2 <= STACK_CELLS,
        st.stack[st.fp + slot] == n,
        n > 0,
    ensures
        exec_n(code, st, 12) is Continue,
        ({
            let s = exec_n(code, st, 12)->Continue_0;
            &&& state_wf(s)
            &&& s.pc == st.pc && s.sp == st.sp && s.fp == st.fp
            &&& s.stack[st.fp + slot] == n - 1
            &&& s.stack.len() == st.stack.len()
        }),
{
    let at = st.pc as int;
    let a = (st.fp + slot) as i64;
    assert((st.fp as i64).wrapping_add(slot) == a);
    let cd = countdown_code(slot, at);
    assert forall|i: int| 0 <= i < 12 implies code[at + i] == cd[i] by {
        assert(code.subrange(at, at + 12)[i] == code[at + i]);
    }
    let s1 = VmState { acc: a, pc: (at + 1) as usize, ..st };
    let s2 = VmState { acc: n, pc: (at + 2) as usize, ..s1 };
    let s3 = VmState { pc: (at + 3) as usize, ..s2 };
    let s4 = VmState { acc: a, pc: (at + 4) as usize, ..s3 };
    let s5 = VmState {
        stack: st.stack.update(st.sp as int, a),
        sp: (st.sp + 1) as usize,
        pc: (at + 5) as usize,
        ..s4
    };
    let s6 = VmState { acc: a, pc: (at + 6) as usize, ..s5 };
    let s7 = VmState { acc: n, pc: (at + 7) as usize, ..s6 };
    let s8 = VmState {
        stack: s7.stack.update(st.sp + 1, n),
        sp: (st.sp + 2) as usize,
        pc: (at + 8) as usize,
        ..s7
    };
    let s9 = VmState { acc: 1, pc: (at + 9) as usize, ..s8 };
    let s10 = VmState { acc: (n - 1) as i64, sp: (st.sp + 1) as usize, pc: (at + 10) as usize, ..s9 };
    let s11 = VmState {
        stack: s10.stack.update(a as int, (n - 1) as i64),
        sp: st.sp,
        acc: (n - 1) as i64,
        pc: (at + 11) as usize,
        ..s10
    };
    let s12 = VmState { pc: at as usize, ..s11 };
    assert(step_spec(code, st) == Step::Continue(s1));
    assert(step_spec(code, s1) == Step::Continue(s2));
    assert(step_spec(code, s2) == Step::Continue(s3));
    assert(step_spec(code, s3) == Step::Continue(s4));
    assert(step_spec(code, s4) == Step::Continue(s5));
    assert(step_spec(code, s5) == Step::Continue(s6));
    assert(step_spec(code, s6) == Step::Continue(s7));
    assert(step_spec(code, s7) == Step::Continue(s8));
    assert(step_spec(code, s8) == Step::Continue(s9));
    assert(n.wrapping_sub(1) == n - 1);
    assert(step_spec(code, s9) == Step::Continue(s10));
    assert(step_spec(code, s10) == Step::Continue(s11));
    assert(step_spec(code, s11) == Step::Continue(s12));
    assert(exec_n(code, s12, 0) == Step::Continue(s12));
    assert(exec_n(code, s11, 1) == Step::Continue(s12));
    assert(exec_n(code, s10, 2) == Step::Continue(s12));
    assert(exec_n(code, s9, 3) == Step::Continue(s12));
    assert(exec_n(code, s8, 4) == Step::Continue(s12));
    assert(exec_n(code, s7, 5) == Step::Continue(s12));
    assert(exec_n(code, s6, 6) == Step::Continue(s12));
    assert(exec_n(code, s5, 7) == Step::Continue(s12));
    assert(exec_n(code, s4, 8) == Step::Continue(s12));
    assert(exec_n(code, s3, 9) == Step::Continue(s12));
    assert(exec_n(code, s2, 10) == Step::Continue(s12));
    assert(exec_n(code, s1, 11) == Step::Continue(s12));
    assert(exec_n(code, st, 12) == Step::Continue(s12));
}

/// The countdown loop from its top with the variable at `n`: after `12 n + 3`
/// instructions, `n` turns of twelve and a last test of three, control leaves
/// the loop with the variable at 0.
proof fn lemma_countdown_runs(code: Seq<Instruction>, st: VmState, slot: i64, n: nat)
    requires
        state_wf(st),
        code.len() <= usize::MAX,
        st.pc + 12 <= code.len(),
        code.subrange(st.pc as int, st.pc + 12) == countdown_code(slot, st.pc as int),
        0 <= st.fp + slot < st.sp,
        st.sp + 2 <= STACK_CELLS,
        n <= i64::MAX,
        st.stack[st.fp + slot] == n as i64,
    ensures
        exec_n(code, st, 12 * n + 3) is Continue,
        ({
            let s = exec_n(code, st, 12 * n + 3)->Continue_0;
            &&& s.pc == st.pc + 12
            &&& s.sp == st.sp
            &&& s.fp == st.fp
            &&& s.stack[st.fp + slot] == 0
        }),
    decreases n,
{
    let at = st.pc as int;
    if n == 0 {
        let a = (st.fp + slot) as i64;
        assert((st.fp as i64).wrapping_add(slot) == a);
        assert(code[at] == countdown_code(slot, at)[0]);
        assert(code[at + 1] == countdown_code(slot, at)[1]);
        assert(code[at + 2] == countdown_code(slot, at)[2]);
        let s1 = VmState { acc: a, pc: (at + 1) as usize, ..st };
        let s2 = VmState { acc: 0, pc: (at + 2) as usize, ..s1 };
        let s3 = VmState { pc: (at + 12) as usize, ..s2 };
        assert(step_spec(code, st) == Step::Continue(s1));
        assert(step_spec(code, s1) == Step::Continue(s2));
        assert(step_spec(code, s2) == Step::Continue(s3));
        assert(exec_n(code, s3, 0) == Step::Continue(s3));
        assert(exec_n(code, s2, 1) == Step::Continue(s3));
        assert(exec_n(code, s1, 2) == Step::Continue(s3));
        assert(exec_n(code, st, 3) == Step::Continue(s3));
    } else {
        lemma_countdown_turn(code, st, slot, n as i64);
        let s = exec_n(code, st, 12)->Continue_0;
        lemma_countdown_runs(code, s, slot, (n - 1) as nat);
        lemma_exec_n_split(code, st, 12, 12 * (n - 1) as nat + 3);
        assert(12 + (12 * (n - 1) as nat + 3) == 12 * n + 3) by (nonlinear_arith)
            requires
                n >= 1,
        ;
    }
}

/// A `while` loop that decrements its variable from `n` runs its body exactly
/// `n` times: the compiled `while (x) x = x - 1;`, started with `x` at `n`,
/// leaves its code after `12 n + 3` instructions (the body's twelve-instruction
/// turn taken `n` times, then the failing test) with `x` at 0. `x` is a
/// variable in a frame slot below the stack pointer.
pub proof fn lemma_while_countdown_runs_n_times(
    code: Seq<Instruction>,
    x: String,
    st: VmState,
    vars: Seq<(String, i64)>,
    funcs: Seq<(String, usize)>,
    n: nat,
)
    requires
        state_wf(st),
        find_named(vars, x@) is Some,
        code.len() <= usize::MAX,
        st.pc + 12 <= code.len(),
        code.subrange(st.pc as int, st.pc + 12) == stmt_code(
            countdown(x),
            st.pc as int,
            vars,
            funcs,
        )->0,
        0 <= st.fp + find_named(vars, x@)->0 < st.sp,
        st.sp + 2 <= STACK_CELLS,
        n <= i64::MAX,
        st.stack[st.fp + find_named(vars, x@)->0] == n as i64,
    ensures
        stmt_code(countdown(x), st.pc as int, vars, funcs) is Some,
        stmt_code(countdown(x), st.pc as int, vars, funcs)->0.len() == 12,
        exec_n(code, st, 12 * n + 3) is Continue,
        ({
            let s = exec_n(code, st, 12 * n + 3)->Continue_0;
            &&& s.pc == st.pc + 12
            &&& s.stack[st.fp + find_named(vars, x@)->0] == 0
            &&& s.sp == st.sp
            &&& s.fp == st.fp
        }),
{
    lemma_countdown_compiles(x, st.pc as int, vars, funcs);
    lemma_countdown_runs(code, st, find_named(vars, x@)->0, n);
}

/// `x = e;`
pub open spec fn assign(x: String, e: Expr) -> Stmt {
    Stmt::Expr(Expr::Binary { op: BinOp::Assign, left: Box::new(Expr::Var(x)), right: Box::new(e) })
}

/// `x op 1`
pub open spec fn by_one(x: String, op: BinOp) -> Expr {
    Expr::Binary { op, left: Box::new(Expr::Var(x)), right: Box::new(Expr::Num(1)) }
}

/// `p` is the program
/// `int main() { int i; int c; i = n; c = 0; while (i) { c = c + 1; i = i - 1; } return c; }`
/// as the parser gives it (its body ends with an empty statement).
pub open spec fn is_counting_main(p: Program, i: String, c: String, n: i64) -> bool {
    &&& p.items@.len() == 1
    &&& p.items@[0] is Function
    &&& {
        let f = p.items@[0]->Function_0;
        &&& f.name@ == "main"@
        &&& f.params@.len() == 0
        &&& f.locals@ == seq![(i, Type::Int), (c, Type::Int)]
        &&& f.body.stmts@.len() == 5
        &&& f.body.stmts@[0] == assign(i, Expr::Num(n))
        &&& f.body.stmts@[1] == assign(c, Expr::Num(0))
        &&& f.body.stmts@[2] is While
        &&& f.body.stmts@[2]->While_cond == Expr::Var(i)
        &&& *f.body.stmts@[2]->While_body is Block
        &&& f.body.stmts@[2]->While_body->Block_0.stmts@ == seq![
            assign(c, by_one(c, BinOp::Add)),
            assign(i, by_one(i, BinOp::Sub)),
        ]
        &&& f.body.stmts@[3] == Stmt::Return(Some(Expr::Var(c)))
        &&& f.body.stmts@[4] == Stmt::Empty
    }
}

/// The code of `x = x op 1;` for `x` in frame slot `k`.
pub open spec fn slot_update_code(k: i64, op: OpCode) -> Seq<Instruction> {
    seq![
        Instruction::InstrInt(OpCode::LEA, k),
        Instruction::Instr(OpCode::PSH),
        Instruction::InstrInt(OpCode::LEA, k),
        Instruction::Instr(OpCode::LI),
        Instruction::Instr(OpCode::PSH),
        Instruction::InstrInt(OpCode::IMM, 1),
        Instruction::Instr(op),
        Instruction::Instr(OpCode::SI),
    ]
}

/// The code that `is_counting_main` compiles to.
pub open spec fn counting_code(n: i64) -> Seq<Instruction> {
    seq![
        Instruction::Call(OpCode::JSR, 2),
        Instruction::Instr(OpCode::EXIT),
        Instruction::InstrInt(OpCode::ENT, 2),
        Instruction::InstrInt(OpCode::LEA, 0),
        Instruction::Instr(OpCode::PSH),
        Instruction::InstrInt(OpCode::IMM, n),
        Instruction::Instr(OpCode::SI),
        Instruction::InstrInt(OpCode::LEA, 1),
        Instruction::Instr(OpCode::PSH),
        Instruction::InstrInt(OpCode::IMM, 0),
        Instruction::Instr(OpCode::SI),
        Instruction::InstrInt(OpCode::LEA, 0),
        Instruction::Instr(OpCode::LI),
        Instruction::Jump(OpCode::BZ, 31),
    ] + slot_update_code(1, OpCode::ADD) + slot_update_code(0, OpCode::SUB) + seq![
        Instruction::Jump(OpCode::JMP, 11),
        Instruction::InstrInt(OpCode::LEA, 1),
        Instruction::Instr(OpCode::LI),
        Instruction::Instr(OpCode::LEV),
        Instruction::Instr(OpCode::LEV),
    ]
}

proof fn lemma_slot_update_compiles(
    x: String,
    k: i64,
    op: BinOp,
    opc: OpCode,
    at: int,
    vars: Seq<(String, i64)>,
    funcs: Seq<(String, usize)>,
)
    requires
        find_named(vars, x@) == Some(k),
        binop_opcode(op) == Some(opc),
    ensures
        stmt_code(assign(x, by_one(x, op)), at, vars, funcs) == Some(slot_update_code(k, opc)),
{
    let lc = seq![Instruction::InstrInt(OpCode::LEA, k), Instruction::Instr(OpCode::LI)];
    assert(expr_code(Expr::Var(x), at + 2, vars, funcs) == Some(lc));
    assert(expr_code(Expr::Num(1), at + 5, vars, funcs) == Some(
        seq![Instruction::InstrInt(OpCode::IMM, 1)],
    ));
    let rc = lc + seq![Instruction::Instr(OpCode::PSH)] + seq![
        Instruction::InstrInt(OpCode::IMM, 1),
    ] + seq![Instruction::Instr(opc)];
    assert(expr_code(by_one(x, op), at + 2, vars, funcs) == Some(rc));
    assert(seq![Instruction::InstrInt(OpCode::LEA, k), Instruction::Instr(OpCode::PSH)] + rc
        + seq![Instruction::Instr(OpCode::SI)] =~= slot_update_code(k, opc));
}

/// The code of the loop statement of `is_counting_main`, placed at 11.
pub open spec fn counting_loop_code() -> Seq<Instruction> {
    seq![
        Instruction::InstrInt(OpCode::LEA, 0),
        Instruction::Instr(OpCode::LI),
        Instruction::Jump(OpCode::BZ, 31),
    ] + slot_update_code(1, OpCode::ADD) + slot_update_code(0, OpCode::SUB) + seq![
        Instruction::Jump(OpCode::JMP, 11),
    ]
}

proof fn lemma_counting_loop_compiles(
    w: Stmt,
    i: String,
    c: String,
    vars: Seq<(String, i64)>,
    funcs: Seq<(String, usize)>,
)
    requires
        w is While,
        w->While_cond == Expr::Var(i),
        *w->While_body is Block,
        w->While_body->Block_0.stmts@ == seq![
            assign(c, by_one(c, BinOp::Add)),
            assign(i, by_one(i, BinOp::Sub)),
        ],
        find_named(vars, i@) == Some(0i64),
        find_named(vars, c@) == Some(1i64),
    ensures
        stmt_code(w, 11, vars, funcs) == Some(counting_loop_code()),
{
    let blk = *w->While_body;
    lemma_slot_update_compiles(c, 1, BinOp::Add, OpCode::ADD, 14, vars, funcs);
    lemma_slot_update_compiles(i, 0, BinOp::Sub, OpCode::SUB, 22, vars, funcs);
    let bc = slot_update_code(1, OpCode::ADD) + slot_update_code(0, OpCode::SUB);
    assert(blk->Block_0.stmts@[0] == assign(c, by_one(c, BinOp::Add)));
    assert(blk->Block_0.stmts@[1] == assign(i, by_one(i, BinOp::Sub)));
    assert(block_code(blk, 2, 30, vars, funcs) == Some(Seq::<Instruction>::empty()));
    assert(block_code(blk, 1, 22, vars, funcs) == Some(slot_update_code(0, OpCode::SUB))) by {
        assert(slot_update_code(0, OpCode::SUB) + Seq::<Instruction>::empty() =~= slot_update_code(
            0,
            OpCode::SUB,
        ));
    }
    assert(block_code(blk, 0, 14, vars, funcs) == Some(bc));
    assert(stmt_code(blk, 14, vars, funcs) == Some(bc));
    let cc = seq![Instruction::InstrInt(OpCode::LEA, 0), Instruction::Instr(OpCode::LI)];
    assert(expr_code(Expr::Var(i), 11, vars, funcs) == Some(cc));
    assert(cc + seq![Instruction::Jump(OpCode::BZ, 31)] + bc + seq![
        Instruction::Jump(OpCode::JMP, 11),
    ] =~= counting_loop_code());
}

/// The code of the body of `is_counting_main`, placed at 3.
pub open spec fn counting_body_code(n: i64) -> Seq<Instruction> {
    store_code(0, n) + (store_code(1, 0) + (counting_loop_code() + seq![
        Instruction::InstrInt(OpCode::LEA, 1),
        Instruction::Instr(OpCode::LI),
        Instruction::Instr(OpCode::LEV),
    ]))
}

/// The frame slots of the counting `main`: `i` in 0, `c` in 1.
proof fn lemma_counting_slots(p: Program, i: String, c: String, n: i64)
    requires
        is_counting_main(p, i, c, n),
        i@ != c@,
    ensures
        find_named(frame_slots(p.items@[0]->Function_0), i@) == Some(0i64),
        find_named(frame_slots(p.items@[0]->Function_0), c@) == Some(1i64),
{
    let vars = frame_slots(p.items@[0]->Function_0);
    assert(vars[0] == (i, 0i64));
    assert(vars[1] == (c, 1i64));
    assert(vars.len() == 2);
    assert(vars.drop_first()[0] == (c, 1i64));
    assert(find_named(vars.drop_first(), c@) == Some(1i64));
}

/// The code of the straight-line statements of the counting `main`.
proof fn lemma_counting_stmts_compile(p: Program, i: String, c: String, n: i64)
    requires
        is_counting_main(p, i, c, n),
        i@ != c@,
    ensures
        ({
            let f = p.items@[0]->Function_0;
            let vars = frame_slots(f);
            let table = seq![(f.name, 2usize)];
            &&& stmt_code(f.body.stmts@[0], 3, vars, table) == Some(store_code(0, n))
            &&& stmt_code(f.body.stmts@[1], 7, vars, table) == Some(store_code(1, 0))
            &&& stmt_code(f.body.stmts@[3], 31, vars, table) == Some(
                seq![
                    Instruction::InstrInt(OpCode::LEA, 1),
                    Instruction::Instr(OpCode::LI),
                    Instruction::Instr(OpCode::LEV),
                ],
            )
            &&& stmt_code(f.body.stmts@[4], 34, vars, table) == Some(Seq::<Instruction>::empty())
        }),
{
    let f = p.items@[0]->Function_0;
    let vars = frame_slots(f);
    let table = seq![(f.name, 2usize)];
    lemma_counting_slots(p, i, c, n);
    assert(expr_code(Expr::Num(n), 5, vars, table) == Some(seq![Instruction::InstrInt(OpCode::IMM, n)]));
    assert(seq![Instruction::InstrInt(OpCode::LEA, 0), Instruction::Instr(OpCode::PSH)] + seq![
        Instruction::InstrInt(OpCode::IMM, n),
    ] + seq![Instruction::Instr(OpCode::SI)] =~= store_code(0, n));
    assert(expr_code(Expr::Num(0), 9, vars, table) == Some(seq![Instruction::InstrInt(OpCode::IMM, 0)]));
    assert(seq![Instruction::InstrInt(OpCode::LEA, 1), Instruction::Instr(OpCode::PSH)] + seq![
        Instruction::InstrInt(OpCode::IMM, 0),
    ] + seq![Instruction::Instr(OpCode::SI)] =~= store_code(1, 0));
    assert(expr_code(Expr::Var(c), 31, vars, table) == Some(
        seq![Instruction::InstrInt(OpCode::LEA, 1), Instruction::Instr(OpCode::LI)],
    ));
    assert(seq![Instruction::InstrInt(OpCode::LEA, 1), Instruction::Instr(OpCode::LI)] + seq![
        Instruction::Instr(OpCode::LEV),
    ] =~= seq![
        Instruction::InstrInt(OpCode::LEA, 1),
        Instruction::Instr(OpCode::LI),
        Instruction::Instr(OpCode::LEV),
    ]);
}

/// One statement of a body, then the rest.
proof fn lemma_body_step(
    f: FuncDef,
    k: int,
    at: int,
    vars: Seq<(String, i64)>,
    funcs: Seq<(String, usize)>,
    c: Seq<Instruction>,
    rest: Seq<Instruction>,
)
    requires
        0 <= k < f.body.stmts.len(),
        stmt_code(f.body.stmts@[k], at, vars, funcs) == Some(c),
        body_code(f, k + 1, at + c.len(), vars, funcs) == Some(rest),
    ensures
        body_code(f, k, at, vars, funcs) == Some(c + rest),
{
}

#[verifier::rlimit(100)]
proof fn lemma_counting_body_compiles(p: Program, i: String, c: String, n: i64)
    requires
        is_counting_main(p, i, c, n),
        i@ != c@,
    ensures
        body_code(
            p.items@[0]->Function_0,
            0,
            3,
            frame_slots(p.items@[0]->Function_0),
            seq![(p.items@[0]->Function_0.name, 2usize)],
        ) == Some(counting_body_code(n)),
{
    let f = p.items@[0]->Function_0;
    let vars = frame_slots(f);
    let table = seq![(f.name, 2usize)];
    lemma_counting_slots(p, i, c, n);
    lemma_counting_stmts_compile(p, i, c, n);
    lemma_counting_loop_compiles(f.body.stmts@[2], i, c, vars, table);
    let e = Seq::<Instruction>::empty();
    let s3 = seq![
        Instruction::InstrInt(OpCode::LEA, 1),
        Instruction::Instr(OpCode::LI),
        Instruction::Instr(OpCode::LEV),
    ];
    assert(body_code(f, 5, 34, vars, table) == Some(e));
    lemma_body_step(f, 4, 34, vars, table, e, e);
    assert(e + e =~= e);
    lemma_body_step(f, 3, 31, vars, table, s3, e);
    assert(s3 + e =~= s3);
    lemma_body_step(f, 2, 11, vars, table, counting_loop_code(), s3);
    lemma_body_step(f, 1, 7, vars, table, store_code(1, 0), counting_loop_code() + s3);
    lemma_body_step(
        f,
        0,
        3,
        vars,
        table,
        store_code(0, n),
        store_code(1, 0) + (counting_loop_code() + s3),
    );
}

/// `is_counting_main` compiles to `counting_code`.
proof fn lemma_counting_main_layout(p: Program, i: String, c: String, n: i64)
    requires
        is_counting_main(p, i, c, n),
        i@ != c@,
    ensures
        program_code(p, 0) == Some(counting_code(n)),
{
    let f = p.items@[0]->Function_0;
    let table = seq![(f.name, 2usize)];
    lemma_counting_body_compiles(p, i, c, n);
    let fc = seq![Instruction::InstrInt(OpCode::ENT, 2)] + counting_body_code(n) + seq![
        Instruction::Instr(OpCode::LEV),
    ];
    assert(f.locals.len() == 2);
    assert(func_code(f, 2, table) == Some(fc));
    assert(items_code(p.items@, 1, 2int + fc.len(), table) == Some(
        (Seq::<Instruction>::empty(), table),
    ));
    assert(fc + Seq::<Instruction>::empty() =~= fc);
    assert(items_code(p.items@, 0, 2, seq![]) == Some((fc, table)));
    assert(crate::codegen::is_main(p.items[0]));
    assert(find_named(table, "main"@) == Some(2usize));
    assert(seq![Instruction::Call(OpCode::JSR, 2), Instruction::Instr(OpCode::EXIT)] + fc
        =~= counting_code(n));
}

/// Eight instructions of `slot_update_code(k, op)` at the program counter:
/// the frame slot `k` goes from `x` to `x op 1`, the stack pointer is where it
/// was, and no other cell below it changes.
proof fn lemma_slot_update_runs(code: Seq<Instruction>, st: VmState, k: i64, op: OpCode)
    requires
        state_wf(st),
        code.len() <= usize::MAX,
        st.pc + 8 <= code.len(),
        code.subrange(st.pc as int, st.pc + 8) == slot_update_code(k, op),
        op == OpCode::ADD || op == OpCode::SUB,
        0 <= k,
        st.fp + k < st.sp,
        st.sp + 2 <= STACK_CELLS,
    ensures
        exec_n(code, st, 8) is Continue,
        ({
            let s = exec_n(code, st, 8)->Continue_0;
            &&& state_wf(s)
            &&& s.pc == st.pc + 8 && s.sp == st.sp && s.fp == st.fp && s.frames == st.frames
            &&& s.stack[st.fp + k] == binary_value(op, st.stack[st.fp + k], 1)->0
            &&& forall|j: int| 0 <= j < st.sp && j != st.fp + k ==> s.stack[j] == st.stack[j]
        }),
{
    let at = st.pc as int;
    let a = (st.fp + k) as i64;
    let x = st.stack[a as int];
    let v = binary_value(op, x, 1)->0;
    assert((st.fp as i64).wrapping_add(k) == a);
    let cd = slot_update_code(k, op);
    assert forall|j: int| 0 <= j < 8 implies code[at + j] == cd[j] by {
        assert(code.subrange(at, at + 8)[j] == code[at + j]);
    }
    let s1 = VmState { acc: a, pc: (at + 1) as usize, ..st };
    let s2 = VmState {
        stack: st.stack.update(st.sp as int, a),
        sp: (st.sp + 1) as usize,
        pc: (at + 2) as usize,
        ..s1
    };
    let s3 = VmState { acc: a, pc: (at + 3) as usize, ..s2 };
    let s4 = VmState { acc: x, pc: (at + 4) as usize, ..s3 };
    let s5 = VmState {
        stack: s4.stack.update(st.sp + 1, x),
        sp: (st.sp + 2) as usize,
        pc: (at + 5) as usize,
        ..s4
    };
    let s6 = VmState { acc: 1, pc: (at + 6) as usize, ..s5 };
    let s7 = VmState { acc: v, sp: (st.sp + 1) as usize, pc: (at + 7) as usize, ..s6 };
    let s8 = VmState {
        stack: s7.stack.update(a as int, v),
        sp: st.sp,
        acc: v,
        pc: (at + 8) as usize,
        ..s7
    };
    assert(step_spec(code, st) == Step::Continue(s1));
    assert(step_spec(code, s1) == Step::Continue(s2));
    assert(step_spec(code, s2) == Step::Continue(s3));
    assert(step_spec(code, s3) == Step::Continue(s4));
    assert(step_spec(code, s4) == Step::Continue(s5));
    assert(step_spec(code, s5) == Step::Continue(s6));
    assert(step_spec(code, s6) == Step::Continue(s7));
    assert(step_spec(code, s7) == Step::Continue(s8));
    assert(exec_n(code, s8, 0) == Step::Continue(s8));
    assert(exec_n(code, s7, 1) == Step::Continue(s8));
    assert(exec_n(code, s6, 2) == Step::Continue(s8));
    assert(exec_n(code, s5, 3) == Step::Continue(s8));
    assert(exec_n(code, s4, 4) == Step::Continue(s8));
    assert(exec_n(code, s3, 5) == Step::Continue(s8));
    assert(exec_n(code, s2, 6) == Step::Continue(s8));
    assert(exec_n(code, s1, 7) == Step::Continue(s8));
    assert(exec_n(code, st, 8) == Step::Continue(s8));
}

/// The loop of `counting_code` from its test, with `i` at `m` and `c` at
/// `acc`: after `20 m + 3` instructions control leaves the loop with `c` at
/// `acc + m`.
proof fn lemma_counting_loop(code: Seq<Instruction>, st: VmState, m: nat, acc: int)
    requires
        exists|n: i64| code == counting_code(n),
        state_wf(st),
        st.pc == 11,
        st.fp == 0,
        st.sp == 2,
        st.stack[0] == m as i64,
        st.stack[1] == acc,
        0 <= acc,
        acc + m <= i64::MAX,
    ensures
        exec_n(code, st, 20 * m + 3) is Continue,
        ({
            let s = exec_n(code, st, 20 * m + 3)->Continue_0;
            &&& state_wf(s)
            &&& s.pc == 31 && s.sp == 2 && s.fp == 0 && s.frames == st.frames
            &&& s.stack[1] == acc + m
        }),
    decreases m,
{
    let cd = code;
    assert(cd.len() == 35);
    assert(cd[11] == Instruction::InstrInt(OpCode::LEA, 0));
    assert(cd[12] == Instruction::Instr(OpCode::LI));
    assert(cd[13] == Instruction::Jump(OpCode::BZ, 31));
    assert(cd[30] == Instruction::Jump(OpCode::JMP, 11));
    assert((0i64).wrapping_add(0) == 0);
    let t1 = VmState { acc: 0, pc: 12, ..st };
    let t2 = VmState { acc: m as i64, pc: 13, ..t1 };
    assert(step_spec(code, st) == Step::Continue(t1));
    assert(step_spec(code, t1) == Step::Continue(t2));
    if m == 0 {
        let t3 = VmState { pc: 31, ..t2 };
        assert(step_spec(code, t2) == Step::Continue(t3));
        assert(exec_n(code, t3, 0) == Step::Continue(t3));
        assert(exec_n(code, t2, 1) == Step::Continue(t3));
        assert(exec_n(code, t1, 2) == Step::Continue(t3));
        assert(exec_n(code, st, 3) == Step::Continue(t3));
    } else {
        let t3 = VmState { pc: 14, ..t2 };
        assert(step_spec(code, t2) == Step::Continue(t3));
        assert(exec_n(code, t3, 0) == Step::Continue(t3));
        assert(exec_n(code, t2, 1) == Step::Continue(t3));
        assert(exec_n(code, t1, 2) == Step::Continue(t3));
        assert(exec_n(code, st, 3) == Step::Continue(t3));
        assert(code.subrange(14, 22) =~= slot_update_code(1, OpCode::ADD));
        lemma_slot_update_runs(code, t3, 1, OpCode::ADD);
        let t4 = exec_n(code, t3, 8)->Continue_0;
        assert(code.subrange(22, 30) =~= slot_update_code(0, OpCode::SUB));
        lemma_slot_update_runs(code, t4, 0, OpCode::SUB);
        let t5 = exec_n(code, t4, 8)->Continue_0;
        let t6 = VmState { pc: 11, ..t5 };
        assert(step_spec(code, t5) == Step::Continue(t6));
        assert(exec_n(code, t6, 0) == Step::Continue(t6));
        assert(exec_n(code, t5, 1) == Step::Continue(t6));
        assert(t6.stack[0] == (m - 1) as nat as i64);
        assert(t6.stack[1] == acc + 1);
        lemma_counting_loop(code, t6, (m - 1) as nat, acc + 1);
        lemma_exec_n_split(code, st, 3, 8);
        lemma_exec_n_split(code, st, 11, 8);
        lemma_exec_n_split(code, st, 19, 1);
        lemma_exec_n_split(code, st, 20, 20 * (m - 1) as nat + 3);
        assert(20 + (20 * (m - 1) as nat + 3) == 20 * m + 3) by (nonlinear_arith)
            requires
                m >= 1,
        ;
    }
}

/// A whole compiled program with a loop returns once, with its value:
/// `int main() { int i; int c; i = n; c = 0; while (i) { c = c + 1; i = i - 1; } return c; }`
/// compiles, and running it returns `n`; the loop body runs exactly `n` times.
/// The run takes `20 n + 17` instructions, which must fit in `MAX_STEPS`.
pub proof fn lemma_counting_main_returns_n(p: Program, i: String, c: String, n: i64)
    requires
        is_counting_main(p, i, c, n),
        i@ != c@,
        0 <= n,
        20 * n + 17 <= MAX_STEPS,
    ensures
        program_code(p, 0) is Some,
        run_outcome(program_code(p, 0)->0, initial_state()) == Ok::<i64, VmError>(n),
{
    lemma_counting_main_layout(p, i, c, n);
    let code = counting_code(n);
    assert(code.len() == 35);
    assert(code[0] == Instruction::Call(OpCode::JSR, 2));
    assert(code[1] == Instruction::Instr(OpCode::EXIT));
    assert(code[2] == Instruction::InstrInt(OpCode::ENT, 2));
    assert(code[31] == Instruction::InstrInt(OpCode::LEA, 1));
    assert(code[32] == Instruction::Instr(OpCode::LI));
    assert(code[33] == Instruction::Instr(OpCode::LEV));
    let s0 = initial_state();
    let s1 = VmState { frames: seq![(1usize, 0usize, 0usize, false)], pc: 2, ..s0 };
    let s2 = VmState {
        stack: crate::vm::zero_cells(s1.stack, 0, 2),
        frames: seq![(1usize, 0usize, 0usize, false), (3usize, 0usize, 0usize, true)],
        sp: 2,
        pc: 3,
        ..s1
    };
    assert(step_spec(code, s0) == Step::Continue(s1));
    assert(s1.frames.push((3usize, 0usize, 0usize, true)) =~= s2.frames);
    assert(step_spec(code, s1) == Step::Continue(s2));
    assert(exec_n(code, s2, 0) == Step::Continue(s2));
    assert(exec_n(code, s1, 1) == Step::Continue(s2));
    assert(exec_n(code, s0, 2) == Step::Continue(s2));
    assert(code.subrange(3, 7) =~= store_code(0, n));
    lemma_slot_store_runs(code, s2, 0, n);
    let s3 = exec_n(code, s2, 4)->Continue_0;
    assert(code.subrange(7, 11) =~= store_code(1, 0));
    lemma_slot_store_runs(code, s3, 1, 0);
    let s4 = exec_n(code, s3, 4)->Continue_0;
    assert(s4.stack[0] == n);
    assert(s4.stack[1] == 0);
    lemma_counting_loop(code, s4, n as nat, 0);
    let s5 = exec_n(code, s4, 20 * (n as nat) + 3)->Continue_0;
    let s6 = VmState { acc: 1, pc: 32, ..s5 };
    let s7 = VmState { acc: n, pc: 33, ..s6 };
    let s8 = VmState { frames: seq![], pc: 1, sp: 0, fp: 0, ..s7 };
    assert((0i64).wrapping_add(1) == 1);
    assert(step_spec(code, s5) == Step::Continue(s6));
    assert(step_spec(code, s6) == Step::Continue(s7));
    assert(s7.frames.drop_last() =~= seq![(1usize, 0usize, 0usize, false)]);
    assert(s7.frames.drop_last().drop_last() =~= Seq::<(usize, usize, usize, bool)>::empty());
    assert(step_spec(code, s7) == Step::Continue(s8));
    assert(step_spec(code, s8) == Step::Halt(n));
    assert(exec_n(code, s8, 0) == Step::Continue(s8));
    assert(exec_n(code, s7, 1) == Step::Continue(s8));
    assert(exec_n(code, s6, 2) == Step::Continue(s8));
    assert(exec_n(code, s5, 3) == Step::Continue(s8));
    let k = 20 * (n as nat) + 3;
    lemma_exec_n_split(code, s0, 2, 4);
    lemma_exec_n_split(code, s0, 6, 4);
    lemma_exec_n_split(code, s0, 10, k);
    lemma_exec_n_split(code, s0, 10 + k, 3);
    let steps = 10 + k + 3;
    assert(exec_n(code, s0, steps) == Step::Continue(s8));
    lemma_run_through(code, s0, steps, MAX_STEPS as nat);
    assert(run_spec(code, s8, (MAX_STEPS - steps) as nat) == Some(Ok::<i64, VmError>(n)));
}

/// `LEA k; PSH; IMM v; SI`: the code of `x = v;` for `x` in frame slot `k`.
pub open spec fn store_code(k: i64, v: i64) -> Seq<Instruction> {
    seq![
        Instruction::InstrInt(OpCode::LEA, k),
        Instruction::Instr(OpCode::PSH),
        Instruction::InstrInt(OpCode::IMM, v),
        Instruction::Instr(OpCode::SI),
    ]
}

/// Four instructions of `store_code(k, v)` at the program counter set frame
/// slot `k` to `v` and change no other cell below the stack pointer.
proof fn lemma_slot_store_runs(code: Seq<Instruction>, st: VmState, k: i64, v: i64)
    requires
        state_wf(st),
        code.len() <= usize::MAX,
        st.pc + 4 <= code.len(),
        code.subrange(st.pc as int, st.pc + 4) == store_code(k, v),
        0 <= k,
        st.fp + k < st.sp,
        st.sp < STACK_CELLS,
    ensures
        exec_n(code, st, 4) is Continue,
        ({
            let s = exec_n(code, st, 4)->Continue_0;
            &&& state_wf(s)
            &&& s.pc == st.pc + 4 && s.sp == st.sp && s.fp == st.fp && s.frames == st.frames
            &&& s.stack[st.fp + k] == v
            &&& forall|j: int| 0 <= j < st.sp && j != st.fp + k ==> s.stack[j] == st.stack[j]
        }),
{
    let at = st.pc as int;
    let a = (st.fp + k) as i64;
    assert((st.fp as i64).wrapping_add(k) == a);
    let cd = store_code(k, v);
    assert forall|j: int| 0 <= j < 4 implies code[at + j] == cd[j] by {
        assert(code.subrange(at, at + 4)[j] == code[at + j]);
    }
    let s1 = VmState { acc: a, pc: (at + 1) as usize, ..st };
    let s2 = VmState {
        stack: st.stack.update(st.sp as int, a),
        sp: (st.sp + 1) as usize,
        pc: (at + 2) as usize,
        ..s1
    };
    let s3 = VmState { acc: v, pc: (at + 3) as usize, ..s2 };
    let s4 = VmState {
        stack: s2.stack.update(a as int, v),
        sp: st.sp,
        acc: v,
        pc: (at + 4) as usize,
        ..s3
    };
    assert(step_spec(code, st) == Step::Continue(s1));
    assert(step_spec(code, s1) == Step::Continue(s2));
    assert(step_spec(code, s2) == Step::Continue(s3));
    assert(step_spec(code, s3) == Step::Continue(s4));
    assert(exec_n(code, s4, 0) == Step::Continue(s4));
    assert(exec_n(code, s3, 1) == Step::Continue(s4));
    assert(exec_n(code, s2, 2) == Step::Continue(s4));
    assert(exec_n(code, s1, 3) == Step::Continue(s4));
    assert(exec_n(code, st, 4) == Step::Continue(s4));
}

/// Running `ENT n; LEA k; PSH; IMM v; SI; LEA k; LI; EXIT` on a fresh machine
/// returns `v`: a value stored into a frame slot within the declared local
/// count is loaded back unchanged.
pub proof fn lemma_frame_slot_program(code: Seq<Instruction>, n: i64, k: i64, v: i64)
    requires
        0 <= k < n < STACK_CELLS,
        code == seq![
            Instruction::InstrInt(OpCode::ENT, n),
            Instruction::InstrInt(OpCode::LEA, k),
            Instruction::Instr(OpCode::PSH),
            Instruction::InstrInt(OpCode::IMM, v),
            Instruction::Instr(OpCode::SI),
            Instruction::InstrInt(OpCode::LEA, k),
            Instruction::Instr(OpCode::LI),
            Instruction::Instr(OpCode::EXIT),
        ],
    ensures
        run_outcome(code, initial_state()) == Ok::<i64, VmError>(v),
{
    let s0 = initial_state();
    let s1 = VmState {
        stack: crate::vm::zero_cells(s0.stack, 0, n as int),
        frames: seq![(1usize, 0usize, 0usize, true)],
        sp: n as usize,
        pc: 1,
        ..s0
    };
    assert(s0.frames.push((1usize, 0usize, 0usize, true)) =~= s1.frames);
    assert(step_spec(code, s0) == Step::Continue(s1));
    assert(exec_n(code, s1, 0) == Step::Continue(s1));
    assert(exec_n(code, s0, 1) == Step::Continue(s1));
    assert(code.subrange(1, 7) =~= seq![
        Instruction::InstrInt(OpCode::LEA, k),
        Instruction::Instr(OpCode::PSH),
        Instruction::InstrInt(OpCode::IMM, v),
        Instruction::Instr(OpCode::SI),
        Instruction::InstrInt(OpCode::LEA, k),
        Instruction::Instr(OpCode::LI),
    ]);
    lemma_frame_store_load(code, s1, k, v);
    let s2 = exec_n(code, s1, 6)->Continue_0;
    assert(step_spec(code, s2) == Step::Halt(v));
    lemma_exec_n_split(code, s0, 1, 6);
    lemma_run_through(code, s0, 7, MAX_STEPS as nat);
}

/// Running `IMM a; PSH; IMM b; OP; EXIT` on a fresh machine gives `a OP b`,
/// the pushed left operand combined with the right one in the accumulator,
/// never `b OP a` (or the division fault).
pub proof fn lemma_binary_program(code: Seq<Instruction>, op: OpCode, a: i64, b: i64)
    requires
        is_binary(op),
        code == seq![
            Instruction::InstrInt(OpCode::IMM, a),
            Instruction::Instr(OpCode::PSH),
            Instruction::InstrInt(OpCode::IMM, b),
            Instruction::Instr(op),
            Instruction::Instr(OpCode::EXIT),
        ],
    ensures
        run_outcome(code, initial_state()) == match binary_value(op, a, b) {
            Some(v) => Ok::<i64, VmError>(v),
            None => Err(VmError::DivisionFault),
        },
{
    let s0 = initial_state();
    let s1 = VmState { acc: a, pc: 1, ..s0 };
    let s2 = VmState { stack: s0.stack.update(0, a), sp: 1, pc: 2, ..s1 };
    let s3 = VmState { acc: b, pc: 3, ..s2 };
    assert(step_spec(code, s0) == Step::Continue(s1));
    assert(step_spec(code, s1) == Step::Continue(s2));
    assert(step_spec(code, s2) == Step::Continue(s3));
    assert(exec_n(code, s3, 0) == Step::Continue(s3));
    assert(exec_n(code, s2, 1) == Step::Continue(s3));
    assert(exec_n(code, s1, 2) == Step::Continue(s3));
    assert(exec_n(code, s0, 3) == Step::Continue(s3));
    lemma_run_through(code, s0, 3, MAX_STEPS as nat);
    match binary_value(op, a, b) {
        Some(v) => {
            let s4 = VmState { sp: 0, acc: v, pc: 4, ..s3 };
            assert(step_spec(code, s3) == Step::Continue(s4));
            assert(step_spec(code, s4) == Step::Halt(v));
            assert(run_spec(code, s4, (MAX_STEPS - 4) as nat) == Some(Ok::<i64, VmError>(v)));
            assert(run_spec(code, s3, (MAX_STEPS - 3) as nat) == Some(Ok::<i64, VmError>(v)));
        },
        None => {
            assert(step_spec(code, s3) == Step::Fault(VmError::DivisionFault));
        },
    }
}

} // verus!

