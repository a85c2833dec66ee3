use c4::ast::{BinOp, Block, Expr, FuncDef, Item, Program, Stmt, Type};
use c4::bytecode::{Chunk, Instruction, OpCode};
use c4::parser::Parser;
use c4::vm::{VmError, VM};

fn run_chunk(chunk: Chunk) -> i64 {
    let mut vm = VM::new();
    vm.run(&chunk).unwrap()
}

#[test]
fn test_addition() {
    let mut chunk = Chunk::default();
    chunk.push_int(OpCode::IMM, 40);
    chunk.push(OpCode::PSH);
    chunk.push_int(OpCode::IMM, 2);
    chunk.push(OpCode::ADD);
    chunk.push(OpCode::EXIT);

    assert_eq!(run_chunk(chunk), 42);
}

#[test]
fn test_comparisons() {
    let mut chunk = Chunk::default();
    chunk.push_int(OpCode::IMM, 10);
    chunk.push(OpCode::PSH);
    chunk.push_int(OpCode::IMM, 20);
    chunk.push(OpCode::LT);
    chunk.push(OpCode::EXIT);
    assert_eq!(run_chunk(chunk), 1);
}

#[test]
fn test_conditional_jump_false() {
    let mut chunk = Chunk::default();
    chunk.push_int(OpCode::IMM, 0);
    chunk.push_jump(OpCode::BZ, 4);
    chunk.push_int(OpCode::IMM, 100);
    chunk.push(OpCode::JMP);
    chunk.push_int(OpCode::IMM, 42);
    chunk.push(OpCode::EXIT);

    assert_eq!(run_chunk(chunk), 42);
}

#[test]
fn test_conditional_jump_true() {
    let mut chunk = Chunk::default();
    chunk.push_int(OpCode::IMM, 1);
    chunk.push_jump(OpCode::BZ, 4);
    chunk.push_int(OpCode::IMM, 42);
    chunk.push(OpCode::EXIT);
    chunk.push_int(OpCode::IMM, 999);

    assert_eq!(run_chunk(chunk), 42);
}

#[test]
fn test_stack_and_load_store() {
    let mut body = Chunk::default();
    body.push_int(OpCode::ENT, 1);
    body.push_int(OpCode::IMM, 123);
    body.push(OpCode::PSH);
    body.push_int(OpCode::LEA, 0);
    body.push(OpCode::SI);
    body.push_int(OpCode::LEA, 0);
    body.push(OpCode::LI);
    body.push(OpCode::LEV);

    let mut wrapper = Chunk::default();
    let entry_point = wrapper.code.len() + 2;
    wrapper.push_call(OpCode::JSR, entry_point);
    wrapper.push(OpCode::EXIT);
    wrapper.code.extend(body.code);

    // ENT saves a frame (§4.3) and LEV returns through the frame JSR saved
    // (§4.4), so the body runs once. SI pops the address and stores the
    // accumulator (§4.4): the address popped is 123 and the value stored 0,
    // so the local read back is 0.
    assert_eq!(run_chunk(wrapper), 0);
}

#[test]
fn test_nested_arithmetic() {
    let mut chunk = Chunk::default();
    chunk.push_int(OpCode::IMM, 5);
    chunk.push(OpCode::PSH);
    chunk.push_int(OpCode::IMM, 3);
    chunk.push(OpCode::ADD);
    chunk.push(OpCode::PSH);
    chunk.push_int(OpCode::IMM, 2);
    chunk.push(OpCode::MUL);
    chunk.push(OpCode::EXIT);

    assert_eq!(run_chunk(chunk), 16);
}

#[test]
fn test_equality_logic() {
    let mut chunk = Chunk::default();
    chunk.push_int(OpCode::IMM, 10);
    chunk.push(OpCode::PSH);
    chunk.push_int(OpCode::IMM, 10);
    chunk.push(OpCode::EQ);
    chunk.push(OpCode::EXIT);

    assert_eq!(run_chunk(chunk), 1);
}

#[test]
fn test_call_and_return() {
    let mut chunk = Chunk::default();
    chunk.push_call(OpCode::JSR, 2);
    chunk.push(OpCode::EXIT);
    chunk.push_int(OpCode::IMM, 42);
    chunk.push(OpCode::LEV);

    assert_eq!(run_chunk(chunk), 42);
}

#[test]
fn test_ent_adj_lev_function_frame() {
    let mut body = Chunk::default();
    body.push_int(OpCode::ENT, 1);
    body.push_int(OpCode::IMM, 99);
    body.push(OpCode::PSH);
    body.push_int(OpCode::LEA, 0);
    body.push(OpCode::SI);
    body.push_int(OpCode::LEA, 0);
    body.push(OpCode::LI);
    body.push(OpCode::LEV);

    let mut chunk = Chunk::default();
    let func_start = chunk.code.len() + 2;
    chunk.push_call(OpCode::JSR, func_start);
    chunk.push(OpCode::EXIT);
    chunk.code.extend(body.code);

    // As in `test_stack_and_load_store`: the body runs once, SI stores 0 at
    // address 99, and the local read back is 0.
    assert_eq!(run_chunk(chunk), 0);
}

fn run_ast(program: Program) -> i64 {
    let mut chunk = Chunk::default();
    program.compile(&mut chunk).unwrap();
    let mut vm = VM::new();
    vm.run(&chunk).unwrap()
}

fn main_returning(stmts: Vec<Stmt>) -> Program {
    Program {
        items: vec![Item::Function(FuncDef {
            name: "main".into(),
            params: vec![],
            locals: vec![],
            ret: Type::Int,
            body: Block { stmts },
        })],
    }
}

#[test]
fn test_ast_simple_return() {
    let program = main_returning(vec![Stmt::Return(Some(Expr::Num(42)))]);
    assert_eq!(run_ast(program), 42);
}

#[test]
fn test_ast_addition() {
    let program = main_returning(vec![Stmt::Return(Some(Expr::Binary {
        op: BinOp::Add,
        left: Box::new(Expr::Num(20)),
        right: Box::new(Expr::Num(22)),
    }))]);
    assert_eq!(run_ast(program), 42);
}

#[test]
fn test_ast_nested_binary_expression() {
    let program = main_returning(vec![Stmt::Return(Some(Expr::Binary {
        op: BinOp::Mul,
        left: Box::new(Expr::Binary {
            op: BinOp::Add,
            left: Box::new(Expr::Num(2)),
            right: Box::new(Expr::Num(3)),
        }),
        right: Box::new(Expr::Num(8)),
    }))]);
    assert_eq!(run_ast(program), 40);
}

#[test]
fn test_ast_expression_stmt_discarded() {
    let program = main_returning(vec![
        Stmt::Expr(Expr::Binary {
            op: BinOp::Add,
            left: Box::new(Expr::Num(1)),
            right: Box::new(Expr::Num(2)),
        }),
        Stmt::Return(Some(Expr::Num(5))),
    ]);
    assert_eq!(run_ast(program), 5);
}

/// Parses, compiles and runs a source program.
fn run_source(src: &str) -> Result<i64, VmError> {
    let program = Parser::new(src).and_then(|mut p| p.parse_program()).expect("parse");
    let mut chunk = Chunk::default();
    program.compile(&mut chunk).expect("compile");
    VM::new().run(&chunk)
}

#[test]
fn source_literal_arithmetic_round_trip() {
    assert_eq!(run_source("int main(){ return 40 + 2; }"), Ok(42));
    assert_eq!(run_source("int main(){ return (5+3)*2; }"), Ok(16));
    assert_eq!(run_source("int main(){ return 7 % 4 + 100 / 7 - (1 << 4) + (256 >> 2); }"), Ok(3 + 14 - 16 + 64));
    assert_eq!(run_source("int main(){ return (6 & 3) | (8 ^ 1); }"), Ok(2 | 9));
}

#[test]
fn comparisons_give_zero_or_one() {
    assert_eq!(run_source("int main(){ return 10 < 20; }"), Ok(1));
    assert_eq!(run_source("int main(){ return 10 == 11; }"), Ok(0));
    assert_eq!(run_source("int main(){ return 3 >= 3; }"), Ok(1));
    assert_eq!(run_source("int main(){ return 3 != 3; }"), Ok(0));
}

#[test]
fn operands_keep_left_right_order() {
    assert_eq!(run_source("int main(){ return 10 - 3; }"), Ok(7));
    assert_eq!(run_source("int main(){ return 20 / 5; }"), Ok(4));
    assert_eq!(run_source("int main(){ return 1 << 3; }"), Ok(8));
    assert_eq!(run_source("int main(){ return 2 < 1; }"), Ok(0));
}

#[test]
fn if_false_takes_the_else_branch() {
    assert_eq!(run_source("int main(){ if (0) return 1; else return 2; }"), Ok(2));
    assert_eq!(run_source("int main(){ if (3 > 1) return 1; else return 2; }"), Ok(1));
    assert_eq!(run_source("int main(){ if (0) return 1; return 9; }"), Ok(9));
    assert_eq!(run_source("int main(){ return 0 ? 5 : 6; }"), Ok(6));
}

#[test]
fn while_with_false_condition_runs_zero_times() {
    assert_eq!(run_source("int main(){ while (0) return 1; return 2; }"), Ok(2));
}

/// Bytecode for: n = start; c = 0; while (n) { n = n - 1; c = c + 1; } exit(c),
/// with `n` and `c` in stack cells 100 and 101.
fn counting_loop(start: i64) -> Chunk {
    let mut k = Chunk::default();
    for (cell, value) in [(100, start), (101, 0)] {
        k.push_int(OpCode::IMM, cell);
        k.push(OpCode::PSH);
        k.push_int(OpCode::IMM, value);
        k.push(OpCode::SI);
    }
    let top = k.code.len();
    k.push_int(OpCode::IMM, 100);
    k.push(OpCode::LI);
    let exit_branch = k.code.len();
    k.push_jump(OpCode::BZ, 0);
    for (cell, delta) in [(100, OpCode::SUB), (101, OpCode::ADD)] {
        k.push_int(OpCode::IMM, cell);
        k.push(OpCode::PSH);
        k.push_int(OpCode::IMM, cell);
        k.push(OpCode::LI);
        k.push(OpCode::PSH);
        k.push_int(OpCode::IMM, 1);
        k.push(delta);
        k.push(OpCode::SI);
    }
    k.push_jump(OpCode::JMP, top);
    let done = k.code.len();
    k.patch_target(exit_branch, done);
    k.push_int(OpCode::IMM, 101);
    k.push(OpCode::LI);
    k.push(OpCode::EXIT);
    k
}

#[test]
fn loop_runs_exactly_n_times() {
    assert_eq!(run_chunk(counting_loop(0)), 0);
    assert_eq!(run_chunk(counting_loop(1)), 1);
    assert_eq!(run_chunk(counting_loop(5)), 5);
}

#[test]
fn store_then_load_returns_the_value() {
    for slot in 0..3 {
        let mut k = Chunk::default();
        k.push_int(OpCode::ENT, 3);
        k.push_int(OpCode::LEA, slot);
        k.push(OpCode::PSH);
        k.push_int(OpCode::IMM, -77);
        k.push(OpCode::SI);
        k.push_int(OpCode::LEA, slot);
        k.push(OpCode::LI);
        k.push(OpCode::EXIT);
        assert_eq!(run_chunk(k), -77);
    }
}

#[test]
fn store_char_masks_to_a_byte() {
    let mut k = Chunk::default();
    k.push_int(OpCode::IMM, 5);
    k.push(OpCode::PSH);
    k.push_int(OpCode::IMM, 0x1ff);
    k.push(OpCode::SC);
    k.push(OpCode::EXIT);
    assert_eq!(run_chunk(k), 0xff);
}

#[test]
fn faults_are_reported() {
    let mut k = Chunk::default();
    k.push(OpCode::ADD);
    assert_eq!(VM::new().run(&k), Err(VmError::StackUnderflow));

    let mut k = Chunk::default();
    k.push(OpCode::LEV);
    assert_eq!(VM::new().run(&k), Err(VmError::CallStackUnderflow));

    let mut k = Chunk::default();
    k.push_jump(OpCode::PRTF, 0);
    assert_eq!(VM::new().run(&k), Err(VmError::InvalidInstruction(Instruction::Jump(OpCode::PRTF, 0))));

    let mut k = Chunk::default();
    k.push_int(OpCode::IMM, -1);
    k.push(OpCode::LI);
    assert_eq!(VM::new().run(&k), Err(VmError::BadAddress(-1)));

    let mut k = Chunk::default();
    k.push_int(OpCode::IMM, 1);
    k.push(OpCode::PSH);
    k.push_int(OpCode::IMM, 0);
    k.push(OpCode::DIV);
    assert_eq!(VM::new().run(&k), Err(VmError::DivisionFault));

    let mut k = Chunk::default();
    k.push_int(OpCode::ENT, (1024 * 1024 + 1) as i64);
    assert_eq!(VM::new().run(&k), Err(VmError::StackOverflow));
}

#[test]
fn running_off_the_end_returns_the_accumulator() {
    let mut k = Chunk::default();
    k.push_int(OpCode::IMM, 13);
    assert_eq!(VM::new().run(&k), Ok(13));
}

#[test]
fn step_reports_each_instruction() {
    let mut k = Chunk::default();
    k.push_int(OpCode::IMM, 4);
    k.push(OpCode::EXIT);
    let mut vm = VM::new();
    assert_eq!(vm.pc(), 0);
    assert_eq!(vm.step(&k.code), None);
    assert_eq!(vm.pc(), 1);
    assert_eq!(vm.step(&k.code), Some(Ok(4)));
}

#[test]
fn call_to_main_is_patched_to_its_entry() {
    let src = "int twice(int x) { return x + x; } int main() { return twice(21); }";
    let program = Parser::new(src).and_then(|mut p| p.parse_program()).expect("parse");
    let mut chunk = Chunk::default();
    program.compile(&mut chunk).expect("compile");
    assert_eq!(chunk.code[0], Instruction::Call(OpCode::JSR, 2 + 9));
    assert_eq!(chunk.code[1], Instruction::Instr(OpCode::EXIT));
}

#[test]
fn unsupported_forms_are_compile_errors() {
    for (src, msg) in [
        ("int main() { return a; }", "unknown variable: a"),
        ("int main() { return f(1); }", "unsupported function call: f"),
        ("int main() { return 1 && 2; }", "unsupported operator"),
        ("int main() { return \"s\"; }", "unsupported expression"),
        ("int main() { return g(); } int g() { return 1; }", "unsupported function call: g"),
        ("int main() { int x; 3 = x; }", "assignment to something other than a variable"),
        ("int main() { return a[0](1); }", "callee must be a named function"),
    ] {
        let program = Parser::new(src).and_then(|mut p| p.parse_program()).expect("parse");
        let mut chunk = Chunk::default();
        chunk.push(OpCode::PSH);
        assert_eq!(program.compile(&mut chunk), Err(msg.to_string()), "{}", src);
        assert_eq!(chunk.code, vec![Instruction::Instr(OpCode::PSH)]);
    }
}

#[test]
fn if_compiles_with_patched_branches() {
    let program = main_returning(vec![Stmt::If {
        cond: Expr::Num(0),
        then_branch: Box::new(Stmt::Return(Some(Expr::Num(1)))),
        else_branch: Some(Box::new(Stmt::Return(Some(Expr::Num(2))))),
    }]);
    let mut chunk = Chunk::default();
    program.compile(&mut chunk).unwrap();
    assert_eq!(
        chunk.code,
        vec![
            Instruction::Call(OpCode::JSR, 2),
            Instruction::Instr(OpCode::EXIT),
            Instruction::InstrInt(OpCode::ENT, 0),
            Instruction::InstrInt(OpCode::IMM, 0),
            Instruction::Jump(OpCode::BZ, 8),
            Instruction::InstrInt(OpCode::IMM, 1),
            Instruction::Instr(OpCode::LEV),
            Instruction::Jump(OpCode::JMP, 10),
            Instruction::InstrInt(OpCode::IMM, 2),
            Instruction::Instr(OpCode::LEV),
            Instruction::Instr(OpCode::LEV),
        ]
    );
}

#[test]
fn counting_loop_program_returns_n() {
    for n in [0, 1, 5, 37] {
        let src = format!(
            "int main() {{ int i; int c; i = {}; c = 0; while (i) {{ c = c + 1; i = i - 1; }} return c; }}",
            n
        );
        assert_eq!(run_source(&src), Ok(n));
    }
}

#[test]
fn locals_keep_their_values() {
    assert_eq!(run_source("int main() { int a; int b; a = 7; b = 2; return a; }"), Ok(7));
    assert_eq!(run_source("int main() { int a; int b; a = 7; b = 2; return a - b; }"), Ok(5));
}

#[test]
fn calls_pass_arguments_and_return_once() {
    let src = "int twice(int x) { return x + x; } int main() { return twice(21); }";
    assert_eq!(run_source(src), Ok(42));
    let src = "int sub(int a, int b) { return a - b; } int main() { return sub(10, 3); }";
    assert_eq!(run_source(src), Ok(7));
}

#[test]
fn frame_slot_store_then_load_through_run() {
    let mut k = Chunk::default();
    k.push_int(OpCode::ENT, 4);
    k.push_int(OpCode::LEA, 2);
    k.push(OpCode::PSH);
    k.push_int(OpCode::IMM, 123);
    k.push(OpCode::SI);
    k.push_int(OpCode::LEA, 2);
    k.push(OpCode::LI);
    k.push(OpCode::EXIT);
    assert_eq!(run_chunk(k), 123);
}

#[test]
fn leave_frame_returns_through_the_call_frame() {
    // JSR 2; EXIT; ENT 0; IMM 7; LEV: ENT's frame is dropped and LEV goes back
    // to the EXIT after the call, once.
    let mut k = Chunk::default();
    k.push_call(OpCode::JSR, 2);
    k.push(OpCode::EXIT);
    k.push_int(OpCode::ENT, 0);
    k.push_int(OpCode::IMM, 7);
    k.push(OpCode::LEV);
    let mut vm = VM::new();
    assert_eq!(vm.step(&k.code), None);
    assert_eq!(vm.step(&k.code), None);
    assert_eq!(vm.step(&k.code), None);
    assert_eq!(vm.step(&k.code), None);
    assert_eq!(vm.pc(), 1);
    assert_eq!(vm.step(&k.code), Some(Ok(7)));

    let mut k = Chunk::default();
    k.push_int(OpCode::ENT, 0);
    k.push(OpCode::LEV);
    assert_eq!(VM::new().run(&k), Err(VmError::CallStackUnderflow));
}
