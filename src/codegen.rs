//! Code generation: lowers a syntax tree to bytecode.
//!
//! The code for each construct is given by a spec function of the construct,
//! the index at which its code starts (jump targets are absolute), the
//! variables in scope with their frame slots, and the functions compiled so
//! far with their entry indices. The compile methods are proved to append
//! exactly that code, and to fail exactly when it is undefined.
//!
//! Lowering: a binary expression evaluates its left operand, pushes it,
//! evaluates its right operand and applies the operator; `if`, `while` and
//! `?:` branch with `BZ`/`JMP` whose targets are patched once known; a call
//! pushes its arguments left to right, calls the callee's entry, then drops
//! the arguments. Locals live at frame offsets `0..`, parameters just below
//! the frame pointer. Only functions defined earlier (or the function being
//! compiled) can be called.

use crate::ast::{BinOp, Expr, FuncDef, Item, Program, Stmt};
use crate::bytecode::{Chunk, Instruction, OpCode};
use vstd::prelude::*;
use vstd::string::*;

verus! {

/// The value bound to the first entry of `s` whose name is `name`.
pub open spec fn find_named<T>(s: Seq<(String, T)>, name: Seq<char>) -> Option<T>
    decreases s.len(),
{
    if s.len() == 0 {
        None
    } else if s[0].0@ == name {
        Some(s[0].1)
    } else {
        find_named(s.drop_first(), name)
    }
}

/// The opcode of a binary operator that maps to one instruction.
pub open spec fn binop_opcode(op: BinOp) -> Option<OpCode> {
    match op {
        BinOp::Add => Some(OpCode::ADD),
        BinOp::Sub => Some(OpCode::SUB),
        BinOp::Mul => Some(OpCode::MUL),
        BinOp::Div => Some(OpCode::DIV),
        BinOp::Mod => Some(OpCode::MOD),
        BinOp::Eq => Some(OpCode::EQ),
        BinOp::Ne => Some(OpCode::NE),
        BinOp::Lt => Some(OpCode::LT),
        BinOp::Le => Some(OpCode::LE),
        BinOp::Gt => Some(OpCode::GT),
        BinOp::Ge => Some(OpCode::GE),
        BinOp::BitAnd => Some(OpCode::AND),
        BinOp::BitOr => Some(OpCode::OR),
        BinOp::Xor => Some(OpCode::XOR),
        BinOp::Shl => Some(OpCode::SHL),
        BinOp::Shr => Some(OpCode::SHR),
        _ => None,
    }
}

/// The code of expression `e` placed at index `at`; `None` when `e` uses a
/// form that is not compiled, an unknown variable or an unknown function.
pub open spec fn expr_code(
    e: Expr,
    at: int,
    vars: Seq<(String, i64)>,
    funcs: Seq<(String, usize)>,
) -> Option<Seq<Instruction>>
    decreases e, 1int, 0int,
{
    match e {
        Expr::Num(n) => Some(seq![Instruction::InstrInt(OpCode::IMM, n)]),
        Expr::Var(name) => match find_named(vars, name@) {
            Some(slot) => Some(
                seq![Instruction::InstrInt(OpCode::LEA, slot), Instruction::Instr(OpCode::LI)],
            ),
            None => None,
        },
        Expr::Binary { op, left, right } => if op == BinOp::Assign {
            match *left {
                Expr::Var(name) => match find_named(vars, name@) {
                    Some(slot) => match expr_code(*right, at + 2, vars, funcs) {
                        Some(rc) => Some(
                            seq![
                                Instruction::InstrInt(OpCode::LEA, slot),
                                Instruction::Instr(OpCode::PSH),
                            ] + rc + seq![Instruction::Instr(OpCode::SI)],
                        ),
                        None => None,
                    },
                    None => None,
                },
                _ => None,
            }
        } else {
            match binop_opcode(op) {
                Some(code) => match expr_code(*left, at, vars, funcs) {
                    Some(lc) => match expr_code(*right, at + lc.len() + 1, vars, funcs) {
                        Some(rc) => Some(
                            lc + seq![Instruction::Instr(OpCode::PSH)] + rc + seq![
                                Instruction::Instr(code),
                            ],
                        ),
                        None => None,
                    },
                    None => None,
                },
                None => None,
            }
        },
        Expr::Conditional { cond, then_expr, else_expr } => match expr_code(
            *cond,
            at,
            vars,
            funcs,
        ) {
            Some(cc) => {
                let t_at = at + cc.len() + 1;
                match expr_code(*then_expr, t_at, vars, funcs) {
                    Some(tc) => {
                        let e_at = t_at + tc.len() + 1;
                        match expr_code(*else_expr, e_at, vars, funcs) {
                            Some(ec) => Some(
                                cc + seq![Instruction::Jump(OpCode::BZ, e_at as usize)] + tc
                                    + seq![Instruction::Jump(OpCode::JMP, (e_at + ec.len()) as usize)]
                                    + ec,
                            ),
                            None => None,
                        }
                    },
                    None => None,
                }
            },
            None => None,
        },
        Expr::Call { callee, args } => match *callee {
            Expr::Var(name) => match find_named(funcs, name@) {
                Some(entry) => match args_code(e, 0, at, vars, funcs) {
                    Some(ac) => Some(
                        ac + seq![
                            Instruction::Call(OpCode::JSR, entry),
                            Instruction::InstrInt(OpCode::ADJ, args.len() as i64),
                        ],
                    ),
                    None => None,
                },
                None => None,
            },
            _ => None,
        },
        _ => None,
    }
}

/// The code that pushes the arguments of call `e` from the `i`-th on, placed
/// at `at`: each argument's code followed by `PSH`.
pub open spec fn args_code(
    e: Expr,
    i: int,
    at: int,
    vars: Seq<(String, i64)>,
    funcs: Seq<(String, usize)>,
) -> Option<Seq<Instruction>>
    decreases e, 0int, if e is Call && 0 <= i <= e->Call_args.len() {
        e->Call_args.len() - i
    } else {
        0
    },
{
    match e {
        Expr::Call { callee, args } => if i < 0 || i >= args.len() {
            Some(seq![])
        } else {
            match expr_code(args[i], at, vars, funcs) {
                Some(c) => match args_code(e, i + 1, at + c.len() + 1, vars, funcs) {
                    Some(rest) => Some(c + seq![Instruction::Instr(OpCode::PSH)] + rest),
                    None => None,
                },
                None => None,
            }
        },
        _ => None,
    }
}

/// The code of statement `s` placed at `at`.
pub open spec fn stmt_code(
    s: Stmt,
    at: int,
    vars: Seq<(String, i64)>,
    funcs: Seq<(String, usize)>,
) -> Option<Seq<Instruction>>
    decreases s, 1int, 0int,
{
    match s {
        Stmt::Expr(e) => expr_code(e, at, vars, funcs),
        Stmt::Return(value) => match value {
            Some(e) => match expr_code(e, at, vars, funcs) {
                Some(c) => Some(c + seq![Instruction::Instr(OpCode::LEV)]),
                None => None,
            },
            None => Some(seq![Instruction::Instr(OpCode::LEV)]),
        },
        Stmt::Block(b) => block_code(s, 0, at, vars, funcs),
        Stmt::Empty => Some(seq![]),
        Stmt::If { cond, then_branch, else_branch } => match expr_code(cond, at, vars, funcs) {
            Some(cc) => {
                let t_at = at + cc.len() + 1;
                match stmt_code(*then_branch, t_at, vars, funcs) {
                    Some(tc) => match else_branch {
                        None => Some(
                            cc + seq![Instruction::Jump(OpCode::BZ, (t_at + tc.len()) as usize)]
                                + tc,
                        ),
                        Some(eb) => {
                            let e_at = t_at + tc.len() + 1;
                            match stmt_code(*eb, e_at, vars, funcs) {
                                Some(ec) => Some(
                                    cc + seq![Instruction::Jump(OpCode::BZ, e_at as usize)] + tc
                                        + seq![
                                        Instruction::Jump(OpCode::JMP, (e_at + ec.len()) as usize),
                                    ] + ec,
                                ),
                                None => None,
                            }
                        },
                    },
                    None => None,
                }
            },
            None => None,
        },
        Stmt::While { cond, body } => match expr_code(cond, at, vars, funcs) {
            Some(cc) => {
                let b_at = at + cc.len() + 1;
                match stmt_code(*body, b_at, vars, funcs) {
                    Some(bc) => Some(
                        cc + seq![Instruction::Jump(OpCode::BZ, (b_at + bc.len() + 1) as usize)]
                            + bc + seq![Instruction::Jump(OpCode::JMP, at as usize)],
                    ),
                    None => None,
                }
            },
            None => None,
        },
    }
}

/// The code of the statements of block statement `s` from the `i`-th on.
pub open spec fn block_code(
    s: Stmt,
    i: int,
    at: int,
    vars: Seq<(String, i64)>,
    funcs: Seq<(String, usize)>,
) -> Option<Seq<Instruction>>
    decreases s, 0int, if s is Block && 0 <= i <= s->Block_0.stmts.len() {
        s->Block_0.stmts.len() - i
    } else {
        0
    },
{
    match s {
        Stmt::Block(b) => if i < 0 || i >= b.stmts.len() {
            Some(seq![])
        } else {
            match stmt_code(b.stmts[i], at, vars, funcs) {
                Some(c) => match block_code(s, i + 1, at + c.len(), vars, funcs) {
                    Some(rest) => Some(c + rest),
                    None => None,
                },
                None => None,
            }
        },
        _ => None,
    }
}

/// The frame slots of a function's names: locals at `0..`, parameters at
/// `-n..-1` in order (they are pushed by the caller before the call).
pub open spec fn frame_slots(f: FuncDef) -> Seq<(String, i64)> {
    Seq::new(f.locals.len() as nat, |i: int| (f.locals[i].0, i as i64)) + Seq::new(
        f.params.len() as nat,
        |i: int| (f.params[i].0, (i - f.params.len()) as i64),
    )
}

/// The code of the statements of `f`'s body from the `i`-th on.
pub open spec fn body_code(
    f: FuncDef,
    i: int,
    at: int,
    vars: Seq<(String, i64)>,
    funcs: Seq<(String, usize)>,
) -> Option<Seq<Instruction>>
    decreases f.body.stmts.len() - i,
{
    if i < 0 || i >= f.body.stmts.len() {
        Some(seq![])
    } else {
        match stmt_code(f.body.stmts[i], at, vars, funcs) {
            Some(c) => match body_code(f, i + 1, at + c.len(), vars, funcs) {
                Some(rest) => Some(c + rest),
                None => None,
            },
            None => None,
        }
    }
}

/// The code of function `f` placed at `at`: `ENT` with its local count, its
/// body, and a final `LEV`.
pub open spec fn func_code(f: FuncDef, at: int, funcs: Seq<(String, usize)>) -> Option<
    Seq<Instruction>,
> {
    match body_code(f, 0, at + 1, frame_slots(f), funcs) {
        Some(bc) => Some(
            seq![Instruction::InstrInt(OpCode::ENT, f.locals.len() as i64)] + bc + seq![
                Instruction::Instr(OpCode::LEV),
            ],
        ),
        None => None,
    }
}

/// The code of items `i..` placed at `at`, with the function table grown from
/// `funcs`: each function is entered in the table at its entry before its body
/// is compiled. Globals and enums produce no code.
pub open spec fn items_code(
    items: Seq<Item>,
    i: int,
    at: int,
    funcs: Seq<(String, usize)>,
) -> Option<(Seq<Instruction>, Seq<(String, usize)>)>
    decreases items.len() - i,
{
    if i < 0 || i >= items.len() {
        Some((seq![], funcs))
    } else {
        match items[i] {
            Item::Function(f) => {
                let table = funcs.push((f.name, at as usize));
                match func_code(f, at, table) {
                    Some(c) => match items_code(items, i + 1, at + c.len(), table) {
                        Some((rest, fin)) => Some((c + rest, fin)),
                        None => None,
                    },
                    None => None,
                }
            },
            _ => items_code(items, i + 1, at, funcs),
        }
    }
}

pub open spec fn is_main(item: Item) -> bool {
    item is Function && item->Function_0.name@ == "main"@
}

/// The code of a program placed at `at`. When it defines `main`, the code
/// starts with a call to `main`'s entry and `EXIT`.
pub open spec fn program_code(p: Program, at: int) -> Option<Seq<Instruction>> {
    if exists|i: int| 0 <= i < p.items.len() && is_main(#[trigger] p.items[i]) {
        match items_code(p.items@, 0, at + 2, seq![]) {
            Some((c, fin)) => {
                let entry = match find_named(fin, "main"@) {
                    Some(e) => e,
                    None => 0,
                };
                Some(
                    seq![
                        Instruction::Call(OpCode::JSR, entry),
                        Instruction::Instr(OpCode::EXIT),
                    ] + c,
                )
            },
            None => None,
        }
    } else {
        match items_code(p.items@, 0, at, seq![]) {
            Some((c, _)) => Some(c),
            None => None,
        }
    }
}

/// The message of the first construct of `e` that does not compile, as
/// `expr_code` meets them (meaningful where `expr_code` is `None`).
pub open spec fn expr_error(
    e: Expr,
    at: int,
    vars: Seq<(String, i64)>,
    funcs: Seq<(String, usize)>,
) -> Seq<char>
    decreases e, 1int, 0int,
{
    match e {
        Expr::Var(name) => "unknown variable: "@ + name@,
        Expr::Binary { op, left, right } => if op == BinOp::Assign {
            match *left {
                Expr::Var(name) => match find_named(vars, name@) {
                    Some(_) => expr_error(*right, at + 2, vars, funcs),
                    None => "unknown variable: "@ + name@,
                },
                _ => "assignment to something other than a variable"@,
            }
        } else {
            match binop_opcode(op) {
                Some(_) => match expr_code(*left, at, vars, funcs) {
                    Some(lc) => expr_error(*right, at + lc.len() + 1, vars, funcs),
                    None => expr_error(*left, at, vars, funcs),
                },
                None => "unsupported operator"@,
            }
        },
        Expr::Conditional { cond, then_expr, else_expr } => match expr_code(
            *cond,
            at,
            vars,
            funcs,
        ) {
            Some(cc) => {
                let t_at = at + cc.len() + 1;
                match expr_code(*then_expr, t_at, vars, funcs) {
                    Some(tc) => expr_error(*else_expr, t_at + tc.len() + 1, vars, funcs),
                    None => expr_error(*then_expr, t_at, vars, funcs),
                }
            },
            None => expr_error(*cond, at, vars, funcs),
        },
        Expr::Call { callee, args } => match *callee {
            Expr::Var(name) => match find_named(funcs, name@) {
                Some(_) => args_error(e, 0, at, vars, funcs),
                None => "unsupported function call: "@ + name@,
            },
            _ => "callee must be a named function"@,
        },
        _ => "unsupported expression"@,
    }
}

/// The message of the first argument of call `e`, from the `i`-th on, that
/// does not compile.
pub open spec fn args_error(
    e: Expr,
    i: int,
    at: int,
    vars: Seq<(String, i64)>,
    funcs: Seq<(String, usize)>,
) -> Seq<char>
    decreases e, 0int, if e is Call && 0 <= i <= e->Call_args.len() {
        e->Call_args.len() - i
    } else {
        0
    },
{
    match e {
        Expr::Call { callee, args } => if 0 <= i < args.len() {
            match expr_code(args[i], at, vars, funcs) {
                Some(c) => args_error(e, i + 1, at + c.len() + 1, vars, funcs),
                None => expr_error(args[i], at, vars, funcs),
            }
        } else {
            seq![]
        },
        _ => seq![],
    }
}

/// The message of the first construct of statement `s` that does not compile.
pub open spec fn stmt_error(
    s: Stmt,
    at: int,
    vars: Seq<(String, i64)>,
    funcs: Seq<(String, usize)>,
) -> Seq<char>
    decreases s, 1int, 0int,
{
    match s {
        Stmt::Expr(e) => expr_error(e, at, vars, funcs),
        Stmt::Return(Some(e)) => expr_error(e, at, vars, funcs),
        Stmt::Block(_) => block_error(s, 0, at, vars, funcs),
        Stmt::If { cond, then_branch, else_branch } => match expr_code(cond, at, vars, funcs) {
            Some(cc) => {
                let t_at = at + cc.len() + 1;
                match stmt_code(*then_branch, t_at, vars, funcs) {
                    Some(tc) => match else_branch {
                        Some(eb) => stmt_error(*eb, t_at + tc.len() + 1, vars, funcs),
                        None => seq![],
                    },
                    None => stmt_error(*then_branch, t_at, vars, funcs),
                }
            },
            None => expr_error(cond, at, vars, funcs),
        },
        Stmt::While { cond, body } => match expr_code(cond, at, vars, funcs) {
            Some(cc) => stmt_error(*body, at + cc.len() + 1, vars, funcs),
            None => expr_error(cond, at, vars, funcs),
        },
        _ => seq![],
    }
}

/// The message of the first statement of block statement `s`, from the
/// `i`-th on, that does not compile.
pub open spec fn block_error(
    s: Stmt,
    i: int,
    at: int,
    vars: Seq<(String, i64)>,
    funcs: Seq<(String, usize)>,
) -> Seq<char>
    decreases s, 0int, if s is Block && 0 <= i <= s->Block_0.stmts.len() {
        s->Block_0.stmts.len() - i
    } else {
        0
    },
{
    match s {
        Stmt::Block(b) => if 0 <= i < b.stmts.len() {
            match stmt_code(b.stmts[i], at, vars, funcs) {
                Some(c) => block_error(s, i + 1, at + c.len(), vars, funcs),
                None => stmt_error(b.stmts[i], at, vars, funcs),
            }
        } else {
            seq![]
        },
        _ => seq![],
    }
}

/// The message of the first statement of `f`'s body, from the `i`-th on,
/// that does not compile.
pub open spec fn body_error(
    f: FuncDef,
    i: int,
    at: int,
    vars: Seq<(String, i64)>,
    funcs: Seq<(String, usize)>,
) -> Seq<char>
    decreases f.body.stmts.len() - i,
{
    if i < 0 || i >= f.body.stmts.len() {
        seq![]
    } else {
        match stmt_code(f.body.stmts[i], at, vars, funcs) {
            Some(c) => body_error(f, i + 1, at + c.len(), vars, funcs),
            None => stmt_error(f.body.stmts[i], at, vars, funcs),
        }
    }
}

/// The message of the first construct of function `f` that does not compile.
pub open spec fn func_error(f: FuncDef, at: int, funcs: Seq<(String, usize)>) -> Seq<char> {
    body_error(f, 0, at + 1, frame_slots(f), funcs)
}

/// The message of the first item, from the `i`-th on, that does not compile.
pub open spec fn items_error(
    items: Seq<Item>,
    i: int,
    at: int,
    funcs: Seq<(String, usize)>,
) -> Seq<char>
    decreases items.len() - i,
{
    if i < 0 || i >= items.len() {
        seq![]
    } else {
        match items[i] {
            Item::Function(f) => {
                let table = funcs.push((f.name, at as usize));
                match func_code(f, at, table) {
                    Some(c) => items_error(items, i + 1, at + c.len(), table),
                    None => func_error(f, at, table),
                }
            },
            _ => items_error(items, i + 1, at, funcs),
        }
    }
}

/// The message of the first construct of program `p` that does not compile.
pub open spec fn program_error(p: Program, at: int) -> Seq<char> {
    if exists|i: int| 0 <= i < p.items.len() && is_main(#[trigger] p.items[i]) {
        items_error(p.items@, 0, at + 2, seq![])
    } else {
        items_error(p.items@, 0, at, seq![])
    }
}

/// `new` is `old` followed by `code`, and the call succeeded, when `code` is
/// defined; the call failed with message `error` when it is not.
pub open spec fn appended(
    old: Seq<Instruction>,
    new: Seq<Instruction>,
    code: Option<Seq<Instruction>>,
    ok: bool,
    msg: Seq<char>,
    error: Seq<char>,
) -> bool {
    match code {
        Some(c) => ok && new == old + c,
        None => !ok && msg == error,
    }
}

/// Looks `name` up in a table of names.
pub fn lookup<T: Copy>(table: &Vec<(String, T)>, name: &String) -> (r: Option<T>)
    ensures
        r == find_named(table@, name@),
{
    let mut i: usize = 0;
    assert(table@.subrange(0, table@.len() as int) =~= table@);
    while i < table.len()
        invariant
            i <= table.len(),
            find_named(table@, name@) == find_named(
                table@.subrange(i as int, table@.len() as int),
                name@,
            ),
        decreases table.len() - i,
    {
        assert(table@.subrange(i as int, table@.len() as int).drop_first() =~= table@.subrange(
            i + 1,
            table@.len() as int,
        ));
        if table[i].0 == *name {
            return Some(table[i].1);
        }
        i = i + 1;
    }
    None
}

fn binop_code(op: BinOp) -> (r: Option<OpCode>)
    ensures
        r == binop_opcode(op),
{
    match op {
        BinOp::Add => Some(OpCode::ADD),
        BinOp::Sub => Some(OpCode::SUB),
        BinOp::Mul => Some(OpCode::MUL),
        BinOp::Div => Some(OpCode::DIV),
        BinOp::Mod => Some(OpCode::MOD),
        BinOp::Eq => Some(OpCode::EQ),
        BinOp::Ne => Some(OpCode::NE),
        BinOp::Lt => Some(OpCode::LT),
        BinOp::Le => Some(OpCode::LE),
        BinOp::Gt => Some(OpCode::GT),
        BinOp::Ge => Some(OpCode::GE),
        BinOp::BitAnd => Some(OpCode::AND),
        BinOp::BitOr => Some(OpCode::OR),
        BinOp::Xor => Some(OpCode::XOR),
        BinOp::Shl => Some(OpCode::SHL),
        BinOp::Shr => Some(OpCode::SHR),
        _ => None,
    }
}

/// An error message naming what could not be compiled.
fn unsupported(what: &str, name: &String) -> (r: String)
    ensures
        r@ == what@ + name@,
{
    let mut m = String::from_str(what);
    m.append(name.as_str());
    m
}

impl Expr {
    /// Appends the code of this expression; its value ends in the accumulator.
    pub fn compile(
        &self,
        chunk: &mut Chunk,
        vars: &Vec<(String, i64)>,
        funcs: &Vec<(String, usize)>,
    ) -> (r: Result<(), String>)
        ensures
            appended(
                old(chunk).code@,
                final(chunk).code@,
                expr_code(*self, old(chunk).code@.len() as int, vars@, funcs@),
                r is Ok,
                r->Err_0@,
                expr_error(*self, old(chunk).code@.len() as int, vars@, funcs@),
            ),
        decreases self, 1int,
    {
        let ghost c0 = chunk.code@;
        match self {
            Expr::Num(n) => {
                chunk.push_int(OpCode::IMM, *n);
                assert(chunk.code@ =~= c0 + seq![Instruction::InstrInt(OpCode::IMM, *n)]);
                Ok(())
            },
            Expr::Var(name) => match lookup(vars, name) {
                Some(slot) => {
                    chunk.push_int(OpCode::LEA, slot);
                    chunk.push(OpCode::LI);
                    assert(chunk.code@ =~= c0 + seq![
                        Instruction::InstrInt(OpCode::LEA, slot),
                        Instruction::Instr(OpCode::LI),
                    ]);
                    Ok(())
                },
                None => Err(unsupported("unknown variable: ", name)),
            },
            Expr::Binary { .. } => Expr::compile_binary(self, chunk, vars, funcs),
            Expr::Conditional { .. } => Expr::compile_conditional(self, chunk, vars, funcs),
            Expr::Call { .. } => Expr::compile_call(self, chunk, vars, funcs),
            _ => Err(String::from_str("unsupported expression")),
        }
    }

    /// A binary expression or an assignment.
    #[verifier::loop_isolation(false)]
    fn compile_binary(
        e: &Expr,
        chunk: &mut Chunk,
        vars: &Vec<(String, i64)>,
        funcs: &Vec<(String, usize)>,
    ) -> (r: Result<(), String>)
        requires
            *e is Binary,
        ensures
            appended(
                old(chunk).code@,
                final(chunk).code@,
                expr_code(*e, old(chunk).code@.len() as int, vars@, funcs@),
                r is Ok,
                r->Err_0@,
                expr_error(*e, old(chunk).code@.len() as int, vars@, funcs@),
            ),
        decreases e, 0int,
    {
        let ghost c0 = chunk.code@;
        match e {
            Expr::Binary { op, left, right } => {
                if *op == BinOp::Assign {
                    match &**left {
                        Expr::Var(name) => match lookup(vars, name) {
                            Some(slot) => {
                                chunk.push_int(OpCode::LEA, slot);
                                chunk.push(OpCode::PSH);
                                let ghost c1 = chunk.code@;
                                right.compile(chunk, vars, funcs)?;
                                let ghost rc = expr_code(**right, c1.len() as int, vars@, funcs@)->0;
                                assert(chunk.code@ =~= c1 + rc);
                                chunk.push(OpCode::SI);
                                assert(chunk.code@ =~= c0 + (seq![
                                    Instruction::InstrInt(OpCode::LEA, slot),
                                    Instruction::Instr(OpCode::PSH),
                                ] + rc + seq![Instruction::Instr(OpCode::SI)]));
                                Ok(())
                            },
                            None => Err(unsupported("unknown variable: ", name)),
                        },
                        _ => Err(String::from_str("assignment to something other than a variable")),
                    }
                } else {
                    match binop_code(*op) {
                        Some(code) => {
                            left.compile(chunk, vars, funcs)?;
                            let ghost lc = expr_code(**left, c0.len() as int, vars@, funcs@)->0;
                            assert(chunk.code@ =~= c0 + lc);
                            chunk.push(OpCode::PSH);
                            let ghost c1 = chunk.code@;
                            right.compile(chunk, vars, funcs)?;
                            let ghost rc = expr_code(**right, c1.len() as int, vars@, funcs@)->0;
                            assert(chunk.code@ =~= c1 + rc);
                            chunk.push(code);
                            assert(chunk.code@ =~= c0 + (lc + seq![Instruction::Instr(OpCode::PSH)] + rc
                                + seq![Instruction::Instr(code)]));
                            Ok(())
                        },
                        None => Err(String::from_str("unsupported operator")),
                    }
                }
            },
            _ => Err(String::from_str("unsupported expression")),
        }
    }

    /// `c ? a : b`, with both branch targets patched.
    #[verifier::loop_isolation(false)]
    fn compile_conditional(
        e: &Expr,
        chunk: &mut Chunk,
        vars: &Vec<(String, i64)>,
        funcs: &Vec<(String, usize)>,
    ) -> (r: Result<(), String>)
        requires
            *e is Conditional,
        ensures
            appended(
                old(chunk).code@,
                final(chunk).code@,
                expr_code(*e, old(chunk).code@.len() as int, vars@, funcs@),
                r is Ok,
                r->Err_0@,
                expr_error(*e, old(chunk).code@.len() as int, vars@, funcs@),
            ),
        decreases e, 0int,
    {
        let ghost c0 = chunk.code@;
        match e {
            Expr::Conditional { cond, then_expr, else_expr } => {
                cond.compile(chunk, vars, funcs)?;
                let ghost cc = expr_code(**cond, c0.len() as int, vars@, funcs@)->0;
                assert(chunk.code@ =~= c0 + cc);
                let bz = chunk.code.len();
                chunk.push_jump(OpCode::BZ, 0);
                let ghost c1 = chunk.code@;
                then_expr.compile(chunk, vars, funcs)?;
                let ghost tc = expr_code(**then_expr, c1.len() as int, vars@, funcs@)->0;
                assert(chunk.code@ =~= c1 + tc);
                let jmp = chunk.code.len();
                chunk.push_jump(OpCode::JMP, 0);
                let e_at = chunk.code.len();
                chunk.patch_target(bz, e_at);
                let ghost c2 = chunk.code@;
                else_expr.compile(chunk, vars, funcs)?;
                let ghost ec = expr_code(**else_expr, c2.len() as int, vars@, funcs@)->0;
                assert(chunk.code@ =~= c2 + ec);
                let end = chunk.code.len();
                chunk.patch_target(jmp, end);
                assert(chunk.code@ =~= c0 + (cc + seq![Instruction::Jump(OpCode::BZ, e_at)] + tc
                    + seq![Instruction::Jump(OpCode::JMP, end)] + ec));
                Ok(())
            },
            _ => Err(String::from_str("unsupported expression")),
        }
    }

    /// A call of a named function: arguments pushed in order, the call, then the
    /// arguments dropped.
    #[verifier::loop_isolation(false)]
    fn compile_call(
        e: &Expr,
        chunk: &mut Chunk,
        vars: &Vec<(String, i64)>,
        funcs: &Vec<(String, usize)>,
    ) -> (r: Result<(), String>)
        requires
            *e is Call,
        ensures
            appended(
                old(chunk).code@,
                final(chunk).code@,
                expr_code(*e, old(chunk).code@.len() as int, vars@, funcs@),
                r is Ok,
                r->Err_0@,
                expr_error(*e, old(chunk).code@.len() as int, vars@, funcs@),
            ),
        decreases e, 0int,
    {
        let ghost c0 = chunk.code@;
        match e {
            Expr::Call { callee, args } => match &**callee {
                Expr::Var(name) => match lookup(funcs, name) {
                    Some(entry) => {
                        let mut i: usize = 0;
                        assert(chunk.code@.subrange(c0.len() as int, chunk.code@.len() as int)
                            =~= Seq::<Instruction>::empty());
                        assert(forall|x: Seq<Instruction>| Seq::<Instruction>::empty() + x =~= x);
                        while i < args.len()
                            invariant
                                i <= args.len(),
                                c0.len() <= chunk.code@.len(),
                                chunk.code@.subrange(0, c0.len() as int) == c0,
                                args_error(*e, 0, c0.len() as int, vars@, funcs@) == args_error(
                                    *e,
                                    i as int,
                                    chunk.code@.len() as int,
                                    vars@,
                                    funcs@,
                                ),
                                args_code(*e, 0, c0.len() as int, vars@, funcs@) == match args_code(
                                    *e,
                                    i as int,
                                    chunk.code@.len() as int,
                                    vars@,
                                    funcs@,
                                ) {
                                    Some(rest) => Some(
                                        chunk.code@.subrange(c0.len() as int, chunk.code@.len() as int)
                                            + rest,
                                    ),
                                    None => None,
                                },
                            decreases args.len() - i,
                        {
                            let ghost c1 = chunk.code@;
                            args[i].compile(chunk, vars, funcs)?;
                            let ghost ac = expr_code(args@[i as int], c1.len() as int, vars@, funcs@)->0;
                            assert(chunk.code@ =~= c1 + ac);
                            chunk.push(OpCode::PSH);
                            i = i + 1;
                            assert(chunk.code@.subrange(0, c0.len() as int) =~= c0);
                            let ghost done = c1.subrange(c0.len() as int, c1.len() as int);
                            let ghost psh = seq![Instruction::Instr(OpCode::PSH)];
                            assert(chunk.code@.subrange(c0.len() as int, chunk.code@.len() as int)
                                =~= done + (ac + psh));
                            assert(forall|rest: Seq<Instruction>|
                                done + (ac + psh + rest) =~= chunk.code@.subrange(
                                    c0.len() as int,
                                    chunk.code@.len() as int,
                                ) + rest);
                        }
                        let ghost ac = chunk.code@.subrange(c0.len() as int, chunk.code@.len() as int);
                        assert(ac + seq![] =~= ac);
                        assert(chunk.code@ =~= c0 + ac);
                        chunk.push_call(OpCode::JSR, entry);
                        chunk.push_int(OpCode::ADJ, args.len() as i64);
                        assert(chunk.code@ =~= c0 + (ac + seq![
                            Instruction::Call(OpCode::JSR, entry),
                            Instruction::InstrInt(OpCode::ADJ, args.len() as i64),
                        ]));
                        Ok(())
                    },
                    None => Err(unsupported("unsupported function call: ", name)),
                },
                _ => Err(String::from_str("callee must be a named function")),
            },
            _ => Err(String::from_str("unsupported expression")),
        }
    }
}

impl Stmt {
    /// Appends the code of this statement.
    pub fn compile(
        &self,
        chunk: &mut Chunk,
        vars: &Vec<(String, i64)>,
        funcs: &Vec<(String, usize)>,
    ) -> (r: Result<(), String>)
        ensures
            appended(
                old(chunk).code@,
                final(chunk).code@,
                stmt_code(*self, old(chunk).code@.len() as int, vars@, funcs@),
                r is Ok,
                r->Err_0@,
                stmt_error(*self, old(chunk).code@.len() as int, vars@, funcs@),
            ),
        decreases self, 1int,
    {
        let ghost c0 = chunk.code@;
        match self {
            Stmt::Expr(e) => e.compile(chunk, vars, funcs),
            Stmt::Return(Some(e)) => {
                e.compile(chunk, vars, funcs)?;
                let ghost c = expr_code(*e, c0.len() as int, vars@, funcs@)->0;
                chunk.push(OpCode::LEV);
                assert(chunk.code@ =~= c0 + (c + seq![Instruction::Instr(OpCode::LEV)]));
                Ok(())
            },
            Stmt::Return(None) => {
                chunk.push(OpCode::LEV);
                assert(chunk.code@ =~= c0 + seq![Instruction::Instr(OpCode::LEV)]);
                Ok(())
            },
            Stmt::Block(_) => Stmt::compile_block(self, chunk, vars, funcs),
            Stmt::Empty => {
                assert(chunk.code@ =~= c0 + Seq::<Instruction>::empty());
                Ok(())
            },
            Stmt::If { .. } => Stmt::compile_if(self, chunk, vars, funcs),
            Stmt::While { .. } => Stmt::compile_while(self, chunk, vars, funcs),
        }
    }

    /// The statements of a block, in order.
    #[verifier::loop_isolation(false)]
    fn compile_block(
        s: &Stmt,
        chunk: &mut Chunk,
        vars: &Vec<(String, i64)>,
        funcs: &Vec<(String, usize)>,
    ) -> (r: Result<(), String>)
        requires
            *s is Block,
        ensures
            appended(
                old(chunk).code@,
                final(chunk).code@,
                stmt_code(*s, old(chunk).code@.len() as int, vars@, funcs@),
                r is Ok,
                r->Err_0@,
                stmt_error(*s, old(chunk).code@.len() as int, vars@, funcs@),
            ),
        decreases s, 0int,
    {
        let ghost c0 = chunk.code@;
        match s {
            Stmt::Block(b) => {
                let mut i: usize = 0;
                assert(chunk.code@.subrange(c0.len() as int, chunk.code@.len() as int)
                    =~= Seq::<Instruction>::empty());
                assert(forall|x: Seq<Instruction>| Seq::<Instruction>::empty() + x =~= x);
                while i < b.stmts.len()
                    invariant
                        i <= b.stmts.len(),
                        c0.len() <= chunk.code@.len(),
                        chunk.code@.subrange(0, c0.len() as int) == c0,
                        block_error(*s, 0, c0.len() as int, vars@, funcs@) == block_error(
                            *s,
                            i as int,
                            chunk.code@.len() as int,
                            vars@,
                            funcs@,
                        ),
                        block_code(*s, 0, c0.len() as int, vars@, funcs@) == match block_code(
                            *s,
                            i as int,
                            chunk.code@.len() as int,
                            vars@,
                            funcs@,
                        ) {
                            Some(rest) => Some(
                                chunk.code@.subrange(c0.len() as int, chunk.code@.len() as int)
                                    + rest,
                            ),
                            None => None,
                        },
                    decreases b.stmts.len() - i,
                {
                    let ghost c1 = chunk.code@;
                    b.stmts[i].compile(chunk, vars, funcs)?;
                    let ghost sc = stmt_code(b.stmts@[i as int], c1.len() as int, vars@, funcs@)->0;
                    i = i + 1;
                    assert(chunk.code@.subrange(0, c0.len() as int) =~= c0);
                    assert(chunk.code@.subrange(c0.len() as int, chunk.code@.len() as int) =~= c1.subrange(
                        c0.len() as int,
                        c1.len() as int,
                    ) + sc);
                    assert(forall|rest: Seq<Instruction>|
                        c1.subrange(c0.len() as int, c1.len() as int) + (sc + rest)
                            =~= chunk.code@.subrange(c0.len() as int, chunk.code@.len() as int)
                            + rest);
                }
                let ghost bc = chunk.code@.subrange(c0.len() as int, chunk.code@.len() as int);
                assert(bc + seq![] =~= bc);
                assert(chunk.code@ =~= c0 + bc);
                Ok(())
            },
            _ => Err(String::from_str("unsupported statement")),
        }
    }

    /// `if`: the condition, a `BZ` past the then-branch (to the else-branch,
    /// which a `JMP` from the end of the then-branch skips).
    #[verifier::loop_isolation(false)]
    #[verifier::rlimit(100)]
    fn compile_if(
        s: &Stmt,
        chunk: &mut Chunk,
        vars: &Vec<(String, i64)>,
        funcs: &Vec<(String, usize)>,
    ) -> (r: Result<(), String>)
        requires
            *s is If,
        ensures
            appended(
                old(chunk).code@,
                final(chunk).code@,
                stmt_code(*s, old(chunk).code@.len() as int, vars@, funcs@),
                r is Ok,
                r->Err_0@,
                stmt_error(*s, old(chunk).code@.len() as int, vars@, funcs@),
            ),
        decreases s, 0int,
    {
        let ghost c0 = chunk.code@;
        match s {
            Stmt::If { cond, then_branch, else_branch } => {
                cond.compile(chunk, vars, funcs)?;
                let ghost cc = expr_code(*cond, c0.len() as int, vars@, funcs@)->0;
                let bz = chunk.code.len();
                chunk.push_jump(OpCode::BZ, 0);
                let ghost c1 = chunk.code@;
                then_branch.compile(chunk, vars, funcs)?;
                let ghost tc = stmt_code(**then_branch, c1.len() as int, vars@, funcs@)->0;
                match else_branch {
                    None => {
                        let end = chunk.code.len();
                        chunk.patch_target(bz, end);
                        assert(chunk.code@ =~= c0 + (cc + seq![Instruction::Jump(OpCode::BZ, end)]
                            + tc));
                        Ok(())
                    },
                    Some(eb) => {
                        let jmp = chunk.code.len();
                        chunk.push_jump(OpCode::JMP, 0);
                        let e_at = chunk.code.len();
                        chunk.patch_target(bz, e_at);
                        let ghost c2 = chunk.code@;
                        eb.compile(chunk, vars, funcs)?;
                        let ghost ec = stmt_code(**eb, c2.len() as int, vars@, funcs@)->0;
                        let end = chunk.code.len();
                        chunk.patch_target(jmp, end);
                        assert(chunk.code@ =~= c0 + (cc + seq![Instruction::Jump(OpCode::BZ, e_at)]
                            + tc + seq![Instruction::Jump(OpCode::JMP, end)] + ec));
                        Ok(())
                    },
                }
            },
            _ => Err(String::from_str("unsupported statement")),
        }
    }

    /// `while`: the condition, a `BZ` past the loop, the body, and a `JMP`
    /// back to the condition.
    #[verifier::loop_isolation(false)]
    fn compile_while(
        s: &Stmt,
        chunk: &mut Chunk,
        vars: &Vec<(String, i64)>,
        funcs: &Vec<(String, usize)>,
    ) -> (r: Result<(), String>)
        requires
            *s is While,
        ensures
            appended(
                old(chunk).code@,
                final(chunk).code@,
                stmt_code(*s, old(chunk).code@.len() as int, vars@, funcs@),
                r is Ok,
                r->Err_0@,
                stmt_error(*s, old(chunk).code@.len() as int, vars@, funcs@),
            ),
        decreases s, 0int,
    {
        let ghost c0 = chunk.code@;
        let start = chunk.code.len();
        match s {
            Stmt::While { cond, body } => {
                cond.compile(chunk, vars, funcs)?;
                let ghost cc = expr_code(*cond, c0.len() as int, vars@, funcs@)->0;
                let bz = chunk.code.len();
                chunk.push_jump(OpCode::BZ, 0);
                let ghost c1 = chunk.code@;
                body.compile(chunk, vars, funcs)?;
                let ghost bc = stmt_code(**body, c1.len() as int, vars@, funcs@)->0;
                chunk.push_jump(OpCode::JMP, start);
                let end = chunk.code.len();
                chunk.patch_target(bz, end);
                assert(chunk.code@ =~= c0 + (cc + seq![Instruction::Jump(OpCode::BZ, end)] + bc
                    + seq![Instruction::Jump(OpCode::JMP, start)]));
                Ok(())
            },
            _ => Err(String::from_str("unsupported statement")),
        }
    }
}

impl FuncDef {
    /// The frame slot of each local and parameter, as `frame_slots` gives them.
    fn frame_vars(&self) -> (r: Vec<(String, i64)>)
        ensures
            r@ == frame_slots(*self),
    {
        let mut vars: Vec<(String, i64)> = Vec::new();
        let mut i: usize = 0;
        while i < self.locals.len()
            invariant
                i <= self.locals.len(),
                vars@ == Seq::new(i as nat, |k: int| (self.locals@[k].0, k as i64)),
            decreases self.locals.len() - i,
        {
            vars.push((self.locals[i].0.clone(), i as i64));
            i = i + 1;
            assert(vars@ =~= Seq::new(i as nat, |k: int| (self.locals@[k].0, k as i64)));
        }
        let ghost local_part = vars@;
        let n = self.params.len();
        let mut j: usize = 0;
        assert(local_part + Seq::new(0, |k: int| (self.params@[k].0, (k - n) as i64)) =~= local_part);
        while j < n
            invariant
                j <= n == self.params.len(),
                vars@ == local_part + Seq::new(j as nat, |k: int| (self.params@[k].0, (k - n) as i64)),
            decreases n - j,
        {
            vars.push((self.params[j].0.clone(), (j as i128 - n as i128) as i64));
            j = j + 1;
            assert(vars@ =~= local_part + Seq::new(j as nat, |k: int| (self.params@[k].0, (k - n) as i64)));
        }
        assert(vars@ =~= frame_slots(*self));
        vars
    }

    /// Appends the code of this function: `ENT` with its local count, the
    /// body, `LEV`. `funcs` holds the functions it may call.
    #[verifier::loop_isolation(false)]
    pub fn compile(&self, chunk: &mut Chunk, funcs: &Vec<(String, usize)>) -> (r: Result<(), String>)
        ensures
            appended(
                old(chunk).code@,
                final(chunk).code@,
                func_code(*self, old(chunk).code@.len() as int, funcs@),
                r is Ok,
                r->Err_0@,
                func_error(*self, old(chunk).code@.len() as int, funcs@),
            ),
    {
        let vars = self.frame_vars();
        let ghost c0 = chunk.code@;
        chunk.push_int(OpCode::ENT, self.locals.len() as i64);
        let ghost base = chunk.code@;
        let mut i: usize = 0;
        assert(chunk.code@.subrange(base.len() as int, chunk.code@.len() as int)
            =~= Seq::<Instruction>::empty());
        assert(forall|x: Seq<Instruction>| Seq::<Instruction>::empty() + x =~= x);
        while i < self.body.stmts.len()
            invariant
                i <= self.body.stmts.len(),
                base.len() <= chunk.code@.len(),
                chunk.code@.subrange(0, base.len() as int) == base,
                body_error(*self, 0, base.len() as int, vars@, funcs@) == body_error(
                    *self,
                    i as int,
                    chunk.code@.len() as int,
                    vars@,
                    funcs@,
                ),
                body_code(*self, 0, base.len() as int, vars@, funcs@) == match body_code(
                    *self,
                    i as int,
                    chunk.code@.len() as int,
                    vars@,
                    funcs@,
                ) {
                    Some(rest) => Some(
                        chunk.code@.subrange(base.len() as int, chunk.code@.len() as int) + rest,
                    ),
                    None => None,
                },
            decreases self.body.stmts.len() - i,
        {
            let ghost c1 = chunk.code@;
            self.body.stmts[i].compile(chunk, &vars, funcs)?;
            let ghost sc = stmt_code(self.body.stmts@[i as int], c1.len() as int, vars@, funcs@)->0;
            i = i + 1;
            assert(chunk.code@.subrange(0, base.len() as int) =~= base);
            assert(chunk.code@.subrange(base.len() as int, chunk.code@.len() as int) =~= c1.subrange(
                base.len() as int,
                c1.len() as int,
            ) + sc);
            assert(forall|rest: Seq<Instruction>|
                c1.subrange(base.len() as int, c1.len() as int) + (sc + rest) =~= chunk.code@.subrange(
                    base.len() as int,
                    chunk.code@.len() as int,
                ) + rest);
        }
        let ghost bc = chunk.code@.subrange(base.len() as int, chunk.code@.len() as int);
        assert(bc + seq![] =~= bc);
        assert(chunk.code@ =~= base + bc);
        chunk.push(OpCode::LEV);
        assert(chunk.code@ =~= c0 + (seq![Instruction::InstrInt(OpCode::ENT, self.locals.len() as i64)]
            + bc + seq![Instruction::Instr(OpCode::LEV)]));
        Ok(())
    }
}

impl Item {
    /// Appends the code of this item. A function is first entered in `funcs`
    /// at its entry index, so that it can call itself; other items produce
    /// no code.
    pub fn compile(&self, chunk: &mut Chunk, funcs: &mut Vec<(String, usize)>) -> (r: Result<
        (),
        String,
    >)
        ensures
            match *self {
                Item::Function(f) => final(funcs)@ == old(funcs)@.push(
                    (f.name, old(chunk).code@.len() as usize),
                ) && appended(
                    old(chunk).code@,
                    final(chunk).code@,
                    func_code(f, old(chunk).code@.len() as int, final(funcs)@),
                    r is Ok,
                    r->Err_0@,
                    func_error(f, old(chunk).code@.len() as int, final(funcs)@),
                ),
                _ => r is Ok && final(chunk).code@ == old(chunk).code@ && final(funcs)@ == old(
                    funcs,
                )@,
            },
    {
        match self {
            Item::Function(f) => {
                funcs.push((f.name.clone(), chunk.code.len()));
                f.compile(chunk, funcs)
            },
            _ => Ok(()),
        }
    }
}

/// Whether string `s` is the text `lit`.
fn text_is(s: &String, lit: &str) -> (r: bool)
    ensures
        r == (s@ == lit@),
{
    let a = s.as_str();
    let n = a.unicode_len();
    if n != lit.unicode_len() {
        return false;
    }
    let mut k: usize = 0;
    while k < n
        invariant
            a@ == s@,
            n == a@.len() == lit@.len(),
            k <= n,
            forall|j: int| 0 <= j < k ==> a@[j] == lit@[j],
        decreases n - k,
    {
        if a.get_char(k) != lit.get_char(k) {
            return false;
        }
        k = k + 1;
    }
    assert(a@ =~= lit@);
    true
}

impl Program {
    /// Whether the program defines a function named `main`.
    fn defines_main(&self) -> (r: bool)
        ensures
            r == exists|i: int| 0 <= i < self.items.len() && is_main(#[trigger] self.items@[i]),
    {
        let mut i: usize = 0;
        while i < self.items.len()
            invariant
                i <= self.items.len(),
                forall|j: int| 0 <= j < i ==> !is_main(#[trigger] self.items@[j]),
            decreases self.items.len() - i,
        {
            if let Item::Function(f) = &self.items[i] {
                if text_is(&f.name, "main") {
                    assert(is_main(self.items@[i as int]));
                    return true;
                }
            }
            i = i + 1;
        }
        false
    }

    /// Appends the code of every item in order, and returns the table of
    /// functions with their entries.
    #[verifier::loop_isolation(false)]
    #[verifier::rlimit(50)]
    fn compile_items(&self, chunk: &mut Chunk) -> (r: Result<Vec<(String, usize)>, String>)
        ensures
            match items_code(self.items@, 0, old(chunk).code@.len() as int, seq![]) {
                Some((c, fin)) => r matches Ok(f) && f@ == fin && final(chunk).code@ == old(
                    chunk,
                ).code@ + c,
                None => r is Err && r->Err_0@ == items_error(
                    self.items@,
                    0,
                    old(chunk).code@.len() as int,
                    seq![],
                ),
            },
    {
        let ghost base = chunk.code@;
        let mut funcs: Vec<(String, usize)> = Vec::new();
        let mut i: usize = 0;
        assert(chunk.code@.subrange(base.len() as int, chunk.code@.len() as int)
            =~= Seq::<Instruction>::empty());
        assert(forall|x: Seq<Instruction>| Seq::<Instruction>::empty() + x =~= x);
        while i < self.items.len()
            invariant
                i <= self.items.len(),
                base.len() <= chunk.code@.len(),
                chunk.code@.subrange(0, base.len() as int) == base,
                items_error(self.items@, 0, base.len() as int, seq![]) == items_error(
                    self.items@,
                    i as int,
                    chunk.code@.len() as int,
                    funcs@,
                ),
                items_code(self.items@, 0, base.len() as int, seq![]) == match items_code(
                    self.items@,
                    i as int,
                    chunk.code@.len() as int,
                    funcs@,
                ) {
                    Some((rest, fin)) => Some(
                        (chunk.code@.subrange(base.len() as int, chunk.code@.len() as int) + rest, fin),
                    ),
                    None => None,
                },
            decreases self.items.len() - i,
        {
            let ghost c1 = chunk.code@;
            self.items[i].compile(chunk, &mut funcs)?;
            let ghost ic = chunk.code@.subrange(c1.len() as int, chunk.code@.len() as int);
            assert(chunk.code@ =~= c1 + ic);
            i = i + 1;
            assert(chunk.code@.subrange(0, base.len() as int) =~= base);
            assert(chunk.code@.subrange(base.len() as int, chunk.code@.len() as int) =~= c1.subrange(
                base.len() as int,
                c1.len() as int,
            ) + ic);
            assert(forall|rest: Seq<Instruction>|
                c1.subrange(base.len() as int, c1.len() as int) + (ic + rest) =~= chunk.code@.subrange(
                    base.len() as int,
                    chunk.code@.len() as int,
                ) + rest);
            assert(c1.subrange(base.len() as int, c1.len() as int) + Seq::<Instruction>::empty()
                =~= c1.subrange(base.len() as int, c1.len() as int));
        }
        let ghost body = chunk.code@.subrange(base.len() as int, chunk.code@.len() as int);
        assert(body + seq![] =~= body);
        assert(chunk.code@ =~= base + body);
        Ok(funcs)
    }

    /// Appends the code of the whole program: a call to `main` and `EXIT`
    /// first, when `main` is defined, then every item in order. On error the
    /// chunk is left as it was.
    pub fn compile(&self, chunk: &mut Chunk) -> (r: Result<(), String>)
        ensures
            match program_code(*self, old(chunk).code@.len() as int) {
                Some(c) => r is Ok && final(chunk).code@ == old(chunk).code@ + c,
                None => r is Err && final(chunk).code@ == old(chunk).code@ && r->Err_0@
                    == program_error(*self, old(chunk).code@.len() as int),
            },
    {
        let ghost c0 = chunk.code@;
        let at0 = chunk.code.len();
        let saved = copy_code(&chunk.code);
        let has_main = self.defines_main();
        if has_main {
            chunk.push_call(OpCode::JSR, 0);
            chunk.push(OpCode::EXIT);
        }
        let ghost base = chunk.code@;
        let funcs = match self.compile_items(chunk) {
            Ok(f) => f,
            Err(e) => {
                chunk.code = saved;
                return Err(e);
            },
        };
        let ghost body = chunk.code@.subrange(base.len() as int, chunk.code@.len() as int);
        assert(chunk.code@ =~= base + body);
        if has_main {
            let main_name = String::from_str("main");
            if let Some(entry) = lookup(&funcs, &main_name) {
                chunk.patch_target(at0, entry);
            }
            assert(chunk.code@ =~= c0 + (seq![
                Instruction::Call(OpCode::JSR, chunk.code@[at0 as int]->Call_1),
                Instruction::Instr(OpCode::EXIT),
            ] + body));
        } else {
            assert(chunk.code@ =~= c0 + body);
        }
        Ok(())
    }
}

/// A copy of a sequence of instructions.
fn copy_code(code: &Vec<Instruction>) -> (r: Vec<Instruction>)
    ensures
        r@ == code@,
{
    let mut r: Vec<Instruction> = Vec::new();
    let mut i: usize = 0;
    while i < code.len()
        invariant
            i <= code.len(),
            r@ == code@.subrange(0, i as int),
        decreases code.len() - i,
    {
        r.push(code[i]);
        i = i + 1;
        assert(r@ =~= code@.subrange(0, i as int));
    }
    assert(r@ =~= code@);
    r
}

} // verus!
