//! The grammar that the parser recognizes, as spec functions over parser
//! states: a state is the position of the lexer in the text and the
//! lookahead token. Each function gives what one parsing function returns
//! from a state and the state after it, or why it fails (a syntax
//! error, or a lexical error with the lexer's message). Every step that
//! recurses first checks that input was consumed, which bounds the recursion.

use crate::ast::{BinOp, ExprView, FuncView, ItemView, StmtView, Type, UnOp};
use crate::lexer::{lex_next, Token, TokenView};
use vstd::prelude::*;

verus! {

/// The lexer's position and the lookahead token.
pub struct PState {
    pub pos: int,
    pub cur: TokenView,
}

/// The view of a token without payload.
pub open spec fn fixed(t: Token) -> TokenView {
    TokenView::Fixed(t)
}

/// A bound on the tokens left from `st`.
pub open spec fn pfuel(s: Seq<char>, st: PState) -> nat {
    ((if 0 <= st.pos <= s.len() {
        s.len() - st.pos
    } else {
        0
    }) + if st.cur == fixed(Token::Eof) {
        0int
    } else {
        1int
    }) as nat
}

/// `later` has strictly less input left than `st`.
pub open spec fn before(s: Seq<char>, later: PState, st: PState) -> bool {
    pfuel(s, later) < pfuel(s, st)
}

/// Why parsing failed: a lexical error with the lexer's message, or a
/// syntax error with its message.
pub enum PErr {
    Lex(Seq<char>),
    Syntax(Seq<char>),
}

/// What the derived `Debug` of a token prints; it depends on the token alone.
pub uninterp spec fn debug_text(t: TokenView) -> Seq<char>;

/// The message of a syntax error: `what`, then the text of the lookahead.
pub open spec fn found_message(what: Seq<char>, found: TokenView) -> Seq<char> {
    what + debug_text(found)
}

/// The state after consuming the lookahead; the lexer's error if the next
/// token does not lex.
pub open spec fn adv(s: Seq<char>, st: PState) -> Result<PState, PErr> {
    match lex_next(s, st.pos).0 {
        Ok(t) => Ok(PState { pos: lex_next(s, st.pos).1, cur: t }),
        Err(m) => Err(PErr::Lex(m)),
    }
}

/// Consumes the lookahead, which must be `t`.
pub open spec fn expect_tok(s: Seq<char>, st: PState, t: Token) -> Result<PState, PErr> {
    if st.cur == fixed(t) {
        adv(s, st)
    } else {
        Err(PErr::Syntax(found_message("expected "@ + debug_text(fixed(t)) + ", got "@, st.cur)))
    }
}

pub type PExpr = Result<(ExprView, PState), PErr>;

/// An exec result agrees with what the grammar gives: on success, the value
/// and the state after it; otherwise failure, with the failure's message.
pub open spec fn outcome<T>(
    g: Result<(T, PState), PErr>,
    ok: bool,
    value: T,
    after: PState,
    msg: Seq<char>,
) -> bool {
    match g {
        Ok((v, st)) => ok && value == v && after == st,
        Err(e) => !ok && failed_with(e, msg),
    }
}

/// An error message is the one the grammar's failure carries.
pub open spec fn failed_with(e: PErr, msg: Seq<char>) -> bool {
    match e {
        PErr::Lex(m) => msg == m,
        PErr::Syntax(m) => msg == m,
    }
}

/// `void`, `int` or `char` followed by `*`s.
pub open spec fn g_type(s: Seq<char>, st: PState) -> Result<(Type, PState), PErr> {
    let base = if st.cur == fixed(Token::KwVoid) {
        Some(Type::Void)
    } else if st.cur == fixed(Token::KwInt) {
        Some(Type::Int)
    } else if st.cur == fixed(Token::KwChar) {
        Some(Type::Char)
    } else {
        None
    };
    match base {
        Some(b) => match adv(s, st) {
            Ok(st1) => g_stars(s, st1, b),
            Err(e) => Err(e),
        },
        None => Err(PErr::Syntax(found_message("expected type, got "@, st.cur))),
    }
}

/// Wraps `ty` in a pointer for each `*` from `st` on.
pub open spec fn g_stars(s: Seq<char>, st: PState, ty: Type) -> Result<(Type, PState), PErr>
    decreases pfuel(s, st),
{
    if st.cur == fixed(Token::Star) {
        match adv(s, st) {
            Ok(st1) => if before(s, st1, st) {
                g_stars(s, st1, Type::Ptr(Box::new(ty)))
            } else {
                Err(PErr::Syntax(seq![]))
            },
            Err(e) => Err(e),
        }
    } else {
        Ok((ty, st))
    }
}

/// Assignment: a conditional, then optionally `=` and an assignment.
pub open spec fn g_assignment(s: Seq<char>, st: PState) -> PExpr
    decreases pfuel(s, st), 40nat,
{
    match g_conditional(s, st) {
        Ok((l, st1)) => if st1.cur == fixed(Token::Assign) {
            match adv(s, st1) {
                Ok(st2) => if before(s, st2, st) {
                    match g_assignment(s, st2) {
                        Ok((r, st3)) => Ok(
                            (ExprView::Binary(BinOp::Assign, Box::new(l), Box::new(r)), st3),
                        ),
                        Err(e) => Err(e),
                    }
                } else {
                    Err(PErr::Syntax(seq![]))
                },
                Err(e) => Err(e),
            }
        } else {
            Ok((l, st1))
        },
        Err(e) => Err(e),
    }
}

/// A logical-or expression, then optionally `? assignment : assignment`.
pub open spec fn g_conditional(s: Seq<char>, st: PState) -> PExpr
    decreases pfuel(s, st), 38nat,
{
    match g_level(s, st, 14) {
        Ok((c, st1)) => if st1.cur == fixed(Token::Question) {
            match adv(s, st1) {
                Ok(st2) => if before(s, st2, st) {
                    match g_assignment(s, st2) {
                        Ok((t, st3)) => match expect_tok(s, st3, Token::Colon) {
                            Ok(st4) => if before(s, st4, st) {
                                match g_assignment(s, st4) {
                                    Ok((f, st5)) => Ok(
                                        (
                                            ExprView::Conditional(
                                                Box::new(c),
                                                Box::new(t),
                                                Box::new(f),
                                            ),
                                            st5,
                                        ),
                                    ),
                                    Err(e) => Err(e),
                                }
                            } else {
                                Err(PErr::Syntax(seq![]))
                            },
                            Err(e) => Err(e),
                        },
                        Err(e) => Err(e),
                    }
                } else {
                    Err(PErr::Syntax(seq![]))
                },
                Err(e) => Err(e),
            }
        } else {
            Ok((c, st1))
        },
        Err(e) => Err(e),
    }
}

/// The operator that token `t` stands for at binary precedence level `lvl`:
/// 14 `||`, 13 `&&`, 12 `|`, 11 `^`, 10 `&`, 9 equality, 8 relational,
/// 7 shifts, 6 additive, 5 multiplicative.
pub open spec fn level_op(lvl: int, t: TokenView) -> Option<BinOp> {
    if lvl == 14 && t == fixed(Token::OrOr) {
        Some(BinOp::LogOr)
    } else if lvl == 13 && t == fixed(Token::AndAnd) {
        Some(BinOp::LogAnd)
    } else if lvl == 12 && t == fixed(Token::Or) {
        Some(BinOp::BitOr)
    } else if lvl == 11 && t == fixed(Token::Xor) {
        Some(BinOp::Xor)
    } else if lvl == 10 && t == fixed(Token::And) {
        Some(BinOp::BitAnd)
    } else if lvl == 9 && t == fixed(Token::EqEq) {
        Some(BinOp::Eq)
    } else if lvl == 9 && t == fixed(Token::Ne) {
        Some(BinOp::Ne)
    } else if lvl == 8 && t == fixed(Token::Lt) {
        Some(BinOp::Lt)
    } else if lvl == 8 && t == fixed(Token::Gt) {
        Some(BinOp::Gt)
    } else if lvl == 8 && t == fixed(Token::Le) {
        Some(BinOp::Le)
    } else if lvl == 8 && t == fixed(Token::Ge) {
        Some(BinOp::Ge)
    } else if lvl == 7 && t == fixed(Token::Shl) {
        Some(BinOp::Shl)
    } else if lvl == 7 && t == fixed(Token::Shr) {
        Some(BinOp::Shr)
    } else if lvl == 6 && t == fixed(Token::Plus) {
        Some(BinOp::Add)
    } else if lvl == 6 && t == fixed(Token::Minus) {
        Some(BinOp::Sub)
    } else if lvl == 5 && t == fixed(Token::Star) {
        Some(BinOp::Mul)
    } else if lvl == 5 && t == fixed(Token::Slash) {
        Some(BinOp::Div)
    } else if lvl == 5 && t == fixed(Token::Percent) {
        Some(BinOp::Mod)
    } else {
        None
    }
}

/// A left-associative chain of level `lvl` operators over operands of the
/// level below (unary expressions below level 5).
pub open spec fn g_level(s: Seq<char>, st: PState, lvl: int) -> PExpr
    decreases pfuel(s, st), (2 * lvl + 1) as nat,
{
    if lvl < 5 || lvl > 14 {
        Err(PErr::Syntax(seq![]))
    } else {
        let operand = if lvl == 5 {
            g_unary(s, st)
        } else {
            g_level(s, st, lvl - 1)
        };
        match operand {
            Ok((l, st1)) => if before(s, st1, st) {
                g_chain(s, st1, l, lvl)
            } else {
                Err(PErr::Syntax(seq![]))
            },
            Err(e) => Err(e),
        }
    }
}

/// The rest of a level-`lvl` chain whose left part so far is `acc`.
pub open spec fn g_chain(s: Seq<char>, st: PState, acc: ExprView, lvl: int) -> PExpr
    decreases pfuel(s, st), 0nat,
{
    if lvl < 5 || lvl > 14 {
        Err(PErr::Syntax(seq![]))
    } else {
        match level_op(lvl, st.cur) {
            None => Ok((acc, st)),
            Some(op) => match adv(s, st) {
                Ok(st2) => if before(s, st2, st) {
                    let operand = if lvl == 5 {
                        g_unary(s, st2)
                    } else {
                        g_level(s, st2, lvl - 1)
                    };
                    match operand {
                        Ok((r, st3)) => if before(s, st3, st) {
                            g_chain(s, st3, ExprView::Binary(op, Box::new(acc), Box::new(r)), lvl)
                        } else {
                            Err(PErr::Syntax(seq![]))
                        },
                        Err(e) => Err(e),
                    }
                } else {
                    Err(PErr::Syntax(seq![]))
                },
                Err(e) => Err(e),
            },
        }
    }
}

/// The prefix operator that a token stands for.
pub open spec fn prefix_op(t: TokenView) -> Option<UnOp> {
    if t == fixed(Token::Inc) {
        Some(UnOp::PreInc)
    } else if t == fixed(Token::Dec) {
        Some(UnOp::PreDec)
    } else if t == fixed(Token::Plus) {
        Some(UnOp::Plus)
    } else if t == fixed(Token::Minus) {
        Some(UnOp::Neg)
    } else if t == fixed(Token::Not) {
        Some(UnOp::Not)
    } else if t == fixed(Token::Tilde) {
        Some(UnOp::BitNot)
    } else if t == fixed(Token::Star) {
        Some(UnOp::Deref)
    } else if t == fixed(Token::And) {
        Some(UnOp::Addr)
    } else {
        None
    }
}

pub open spec fn is_type_keyword(t: TokenView) -> bool {
    t == fixed(Token::KwVoid) || t == fixed(Token::KwInt) || t == fixed(Token::KwChar)
}

/// Prefix operators, `sizeof(type)`, casts, parenthesized expressions, or a
/// postfix expression.
pub open spec fn g_unary(s: Seq<char>, st: PState) -> PExpr
    decreases pfuel(s, st), 8nat,
{
    match prefix_op(st.cur) {
        Some(op) => match adv(s, st) {
            Ok(st1) => if before(s, st1, st) {
                match g_unary(s, st1) {
                    Ok((e, st2)) => Ok((ExprView::Unary(op, Box::new(e)), st2)),
                    Err(e) => Err(e),
                }
            } else {
                Err(PErr::Syntax(seq![]))
            },
            Err(e) => Err(e),
        },
        None => if st.cur == fixed(Token::KwSizeof) {
            match adv(s, st) {
                Ok(st1) => match expect_tok(s, st1, Token::LParen) {
                    Ok(st2) => match g_type(s, st2) {
                        Ok((t, st3)) => match expect_tok(s, st3, Token::RParen) {
                            Ok(st4) => Ok((ExprView::SizeOf(t), st4)),
                            Err(e) => Err(e),
                        },
                        Err(e) => Err(e),
                    },
                    Err(e) => Err(e),
                },
                Err(e) => Err(e),
            }
        } else if st.cur == fixed(Token::LParen) {
            match adv(s, st) {
                Ok(st1) => if !before(s, st1, st) {
                    Err(PErr::Syntax(seq![]))
                } else if is_type_keyword(st1.cur) {
                    match g_type(s, st1) {
                        Ok((t, st2)) => match expect_tok(s, st2, Token::RParen) {
                            Ok(st3) => if before(s, st3, st) {
                                match g_unary(s, st3) {
                                    Ok((e, st4)) => Ok((ExprView::Cast(t, Box::new(e)), st4)),
                                    Err(e) => Err(e),
                                }
                            } else {
                                Err(PErr::Syntax(seq![]))
                            },
                            Err(e) => Err(e),
                        },
                        Err(e) => Err(e),
                    }
                } else {
                    match g_assignment(s, st1) {
                        Ok((e, st2)) => match expect_tok(s, st2, Token::RParen) {
                            Ok(st3) => Ok((e, st3)),
                            Err(e) => Err(e),
                        },
                        Err(e) => Err(e),
                    }
                },
                Err(e) => Err(e),
            }
        } else {
            g_postfix(s, st)
        },
    }
}

/// A primary expression followed by postfix operators.
pub open spec fn g_postfix(s: Seq<char>, st: PState) -> PExpr
    decreases pfuel(s, st), 6nat,
{
    match g_primary(s, st) {
        Ok((e, st1)) => if before(s, st1, st) {
            g_postfix_rest(s, st1, e)
        } else {
            Err(PErr::Syntax(seq![]))
        },
        Err(e) => Err(e),
    }
}

/// The postfix operators after `acc`: `++`, `--`, calls and indexing.
pub open spec fn g_postfix_rest(s: Seq<char>, st: PState, acc: ExprView) -> PExpr
    decreases pfuel(s, st), 5nat,
{
    if st.cur == fixed(Token::Inc) || st.cur == fixed(Token::Dec) {
        let op = if st.cur == fixed(Token::Inc) {
            UnOp::PostInc
        } else {
            UnOp::PostDec
        };
        match adv(s, st) {
            Ok(st1) => if before(s, st1, st) {
                g_postfix_rest(s, st1, ExprView::Unary(op, Box::new(acc)))
            } else {
                Err(PErr::Syntax(seq![]))
            },
            Err(e) => Err(e),
        }
    } else if st.cur == fixed(Token::LParen) {
        match adv(s, st) {
            Ok(st1) => if !before(s, st1, st) {
                Err(PErr::Syntax(seq![]))
            } else {
                let args = if st1.cur == fixed(Token::RParen) {
                    Ok((Seq::<ExprView>::empty(), st1))
                } else {
                    g_args(s, st1, seq![])
                };
                match args {
                    Ok((a, st2)) => match expect_tok(s, st2, Token::RParen) {
                        Ok(st3) => if before(s, st3, st) {
                            g_postfix_rest(s, st3, ExprView::Call(Box::new(acc), a))
                        } else {
                            Err(PErr::Syntax(seq![]))
                        },
                        Err(e) => Err(e),
                    },
                    Err(e) => Err(e),
                }
            },
            Err(e) => Err(e),
        }
    } else if st.cur == fixed(Token::LBracket) {
        match adv(s, st) {
            Ok(st1) => if before(s, st1, st) {
                match g_assignment(s, st1) {
                    Ok((i, st2)) => match expect_tok(s, st2, Token::RBracket) {
                        Ok(st3) => if before(s, st3, st) {
                            g_postfix_rest(s, st3, ExprView::Index(Box::new(acc), Box::new(i)))
                        } else {
                            Err(PErr::Syntax(seq![]))
                        },
                        Err(e) => Err(e),
                    },
                    Err(e) => Err(e),
                }
            } else {
                Err(PErr::Syntax(seq![]))
            },
            Err(e) => Err(e),
        }
    } else {
        Ok((acc, st))
    }
}

/// Call arguments: assignments separated by commas, appended to `acc`.
pub open spec fn g_args(s: Seq<char>, st: PState, acc: Seq<ExprView>) -> Result<
    (Seq<ExprView>, PState), PErr>
    decreases pfuel(s, st), 41nat,
{
    match g_assignment(s, st) {
        Ok((a, st1)) => if st1.cur == fixed(Token::Comma) {
            match adv(s, st1) {
                Ok(st2) => if before(s, st2, st) {
                    g_args(s, st2, acc.push(a))
                } else {
                    Err(PErr::Syntax(seq![]))
                },
                Err(e) => Err(e),
            }
        } else {
            Ok((acc.push(a), st1))
        },
        Err(e) => Err(e),
    }
}

/// A number, a string literal or an identifier.
pub open spec fn g_primary(s: Seq<char>, st: PState) -> PExpr {
    let e = match st.cur {
        TokenView::Num(n) => Some(ExprView::Num(n)),
        TokenView::Str(t) => Some(ExprView::Str(t)),
        TokenView::Ident(t) => Some(ExprView::Var(t)),
        _ => None,
    };
    match e {
        Some(v) => match adv(s, st) {
            Ok(st1) => Ok((v, st1)),
            Err(e) => Err(e),
        },
        None => Err(PErr::Syntax(found_message("unexpected primary "@, st.cur))),
    }
}

pub type PStmt = Result<(StmtView, PState), PErr>;

/// Names separated by commas, each declared with type `t`, appended to `acc`.
pub open spec fn g_decl_names(
    s: Seq<char>,
    st: PState,
    t: Type,
    acc: Seq<(Seq<char>, Type)>,
) -> Result<(Seq<(Seq<char>, Type)>, PState), PErr>
    decreases pfuel(s, st),
{
    match st.cur {
        TokenView::Ident(n) => match adv(s, st) {
            Ok(st1) => {
                let acc1 = acc.push((n, t));
                if st1.cur == fixed(Token::Comma) {
                    match adv(s, st1) {
                        Ok(st2) => if before(s, st2, st) {
                            g_decl_names(s, st2, t, acc1)
                        } else {
                            Err(PErr::Syntax(seq![]))
                        },
                        Err(e) => Err(e),
                    }
                } else {
                    Ok((acc1, st1))
                }
            },
            Err(e) => Err(e),
        },
        _ => Err(PErr::Syntax(found_message("expected identifier, got "@, st.cur))),
    }
}

pub open spec fn is_local_keyword(t: TokenView) -> bool {
    t == fixed(Token::KwInt) || t == fixed(Token::KwChar)
}

/// A statement. Local declarations met here are skipped.
pub open spec fn g_stmt(s: Seq<char>, st: PState) -> PStmt
    decreases pfuel(s, st), 60nat,
{
    if is_local_keyword(st.cur) {
        match g_type(s, st) {
            Ok((t, st1)) => match g_decl_names(s, st1, t, seq![]) {
                Ok((_, st2)) => match expect_tok(s, st2, Token::Semicolon) {
                    Ok(st3) => if before(s, st3, st) {
                        g_stmt(s, st3)
                    } else {
                        Err(PErr::Syntax(seq![]))
                    },
                    Err(e) => Err(e),
                },
                Err(e) => Err(e),
            },
            Err(e) => Err(e),
        }
    } else if st.cur == fixed(Token::KwIf) || st.cur == fixed(Token::KwWhile) {
        match adv(s, st) {
            Ok(st1) => match expect_tok(s, st1, Token::LParen) {
                Ok(st2) => match g_assignment(s, st2) {
                    Ok((c, st3)) => match expect_tok(s, st3, Token::RParen) {
                        Ok(st4) => if before(s, st4, st) {
                            match g_stmt(s, st4) {
                                Ok((body, st5)) => if st.cur == fixed(Token::KwWhile) {
                                    Ok((StmtView::While(c, Box::new(body)), st5))
                                } else if st5.cur == fixed(Token::KwElse) {
                                    match adv(s, st5) {
                                        Ok(st6) => if before(s, st6, st) {
                                            match g_stmt(s, st6) {
                                                Ok((e, st7)) => Ok(
                                                    (
                                                        StmtView::If(
                                                            c,
                                                            Box::new(body),
                                                            Some(Box::new(e)),
                                                        ),
                                                        st7,
                                                    ),
                                                ),
                                                Err(e) => Err(e),
                                            }
                                        } else {
                                            Err(PErr::Syntax(seq![]))
                                        },
                                        Err(e) => Err(e),
                                    }
                                } else {
                                    Ok((StmtView::If(c, Box::new(body), None), st5))
                                },
                                Err(e) => Err(e),
                            }
                        } else {
                            Err(PErr::Syntax(seq![]))
                        },
                        Err(e) => Err(e),
                    },
                    Err(e) => Err(e),
                },
                Err(e) => Err(e),
            },
            Err(e) => Err(e),
        }
    } else if st.cur == fixed(Token::KwReturn) {
        match adv(s, st) {
            Ok(st1) => if st1.cur != fixed(Token::Semicolon) {
                match g_assignment(s, st1) {
                    Ok((e, st2)) => match expect_tok(s, st2, Token::Semicolon) {
                        Ok(st3) => Ok((StmtView::Return(Some(e)), st3)),
                        Err(e) => Err(e),
                    },
                    Err(e) => Err(e),
                }
            } else {
                match adv(s, st1) {
                    Ok(st2) => Ok((StmtView::Return(None), st2)),
                    Err(e) => Err(e),
                }
            },
            Err(e) => Err(e),
        }
    } else if st.cur == fixed(Token::LBrace) {
        match g_block(s, st) {
            Ok((ss, st1)) => Ok((StmtView::Block(ss), st1)),
            Err(e) => Err(e),
        }
    } else if st.cur == fixed(Token::Semicolon) {
        match adv(s, st) {
            Ok(st1) => Ok((StmtView::Empty, st1)),
            Err(e) => Err(e),
        }
    } else {
        match g_assignment(s, st) {
            Ok((e, st1)) => match expect_tok(s, st1, Token::Semicolon) {
                Ok(st2) => Ok((StmtView::Expr(e), st2)),
                Err(e) => Err(e),
            },
            Err(e) => Err(e),
        }
    }
}

/// `{ stmt* }`
pub open spec fn g_block(s: Seq<char>, st: PState) -> Result<(Seq<StmtView>, PState), PErr>
    decreases pfuel(s, st), 59nat,
{
    match expect_tok(s, st, Token::LBrace) {
        Ok(st1) => if before(s, st1, st) {
            match g_block_rest(s, st1, seq![]) {
                Ok((ss, st2)) => match adv(s, st2) {
                    Ok(st3) => Ok((ss, st3)),
                    Err(e) => Err(e),
                },
                Err(e) => Err(e),
            }
        } else {
            Err(PErr::Syntax(seq![]))
        },
        Err(e) => Err(e),
    }
}

/// Statements up to a `}` (not consumed), appended to `acc`.
pub open spec fn g_block_rest(s: Seq<char>, st: PState, acc: Seq<StmtView>) -> Result<
    (Seq<StmtView>, PState), PErr>
    decreases pfuel(s, st), 62nat,
{
    if st.cur == fixed(Token::RBrace) {
        Ok((acc, st))
    } else {
        match g_stmt(s, st) {
            Ok((x, st1)) => if before(s, st1, st) {
                g_block_rest(s, st1, acc.push(x))
            } else {
                Err(PErr::Syntax(seq![]))
            },
            Err(e) => Err(e),
        }
    }
}

/// The variants of an enum up to its `}` (not consumed), appended to `acc`.
/// An initializer must parse to a number literal.
pub open spec fn g_variants(s: Seq<char>, st: PState, acc: Seq<(Seq<char>, Option<i64>)>) -> Result<
    (Seq<(Seq<char>, Option<i64>)>, PState), PErr>
    decreases pfuel(s, st),
{
    if st.cur == fixed(Token::RBrace) {
        Ok((acc, st))
    } else {
        match st.cur {
            TokenView::Ident(n) => match adv(s, st) {
                Ok(st1) => {
                    let init: Result<(Option<i64>, PState), PErr> = if st1.cur == fixed(Token::Assign) {
                        match adv(s, st1) {
                            Ok(st2) => match g_assignment(s, st2) {
                                Ok((ExprView::Num(v), st3)) => Ok((Some(v), st3)),
                                Ok(_) => Err(PErr::Syntax("enum initializer must be a number"@)),
                                Err(e) => Err(e),
                            },
                            Err(e) => Err(e),
                        }
                    } else {
                        Ok((None, st1))
                    };
                    match init {
                        Ok((iv, st4)) => {
                            let acc1 = acc.push((n, iv));
                            if st4.cur == fixed(Token::Comma) {
                                match adv(s, st4) {
                                    Ok(st5) => if before(s, st5, st) {
                                        g_variants(s, st5, acc1)
                                    } else {
                                        Err(PErr::Syntax(seq![]))
                                    },
                                    Err(e) => Err(e),
                                }
                            } else {
                                Ok((acc1, st4))
                            }
                        },
                        Err(e) => Err(e),
                    }
                },
                Err(e) => Err(e),
            },
            _ => Err(PErr::Syntax(found_message("expected identifier, got "@, st.cur))),
        }
    }
}

/// `enum { ... }`
pub open spec fn g_enum(s: Seq<char>, st: PState) -> Result<(Seq<(Seq<char>, Option<i64>)>, PState), PErr> {
    match expect_tok(s, st, Token::KwEnum) {
        Ok(st1) => match expect_tok(s, st1, Token::LBrace) {
            Ok(st2) => match g_variants(s, st2, seq![]) {
                Ok((vs, st3)) => match expect_tok(s, st3, Token::RBrace) {
                    Ok(st4) => Ok((vs, st4)),
                    Err(e) => Err(e),
                },
                Err(e) => Err(e),
            },
            Err(e) => Err(e),
        },
        Err(e) => Err(e),
    }
}

/// Parameters `type name` separated by commas, appended to `acc`.
pub open spec fn g_params(s: Seq<char>, st: PState, acc: Seq<(Seq<char>, Type)>) -> Result<
    (Seq<(Seq<char>, Type)>, PState), PErr>
    decreases pfuel(s, st),
{
    match g_type(s, st) {
        Ok((t, st1)) => match st1.cur {
            TokenView::Ident(n) => match adv(s, st1) {
                Ok(st2) => {
                    let acc1 = acc.push((n, t));
                    if st2.cur == fixed(Token::Comma) {
                        match adv(s, st2) {
                            Ok(st3) => if before(s, st3, st) {
                                g_params(s, st3, acc1)
                            } else {
                                Err(PErr::Syntax(seq![]))
                            },
                            Err(e) => Err(e),
                        }
                    } else {
                        Ok((acc1, st2))
                    }
                },
                Err(e) => Err(e),
            },
            _ => Err(PErr::Syntax(found_message("expected identifier, got "@, st1.cur))),
        },
        Err(e) => Err(e),
    }
}

/// Local declaration lists at the start of a body, appended to `acc`.
pub open spec fn g_locals(s: Seq<char>, st: PState, acc: Seq<(Seq<char>, Type)>) -> Result<
    (Seq<(Seq<char>, Type)>, PState), PErr>
    decreases pfuel(s, st),
{
    if is_local_keyword(st.cur) {
        match g_type(s, st) {
            Ok((t, st1)) => match g_decl_names(s, st1, t, acc) {
                Ok((acc1, st2)) => match expect_tok(s, st2, Token::Semicolon) {
                    Ok(st3) => if before(s, st3, st) {
                        g_locals(s, st3, acc1)
                    } else {
                        Err(PErr::Syntax(seq![]))
                    },
                    Err(e) => Err(e),
                },
                Err(e) => Err(e),
            },
            Err(e) => Err(e),
        }
    } else {
        Ok((acc, st))
    }
}

/// The rest of a function after its `(`: parameters, `)`, `{`, locals,
/// statements and `}`. The body ends with an extra empty statement.
pub open spec fn g_func(s: Seq<char>, st: PState, name: Seq<char>, ret: Type) -> Result<
    (FuncView, PState), PErr> {
    let params = if st.cur == fixed(Token::RParen) {
        Ok((Seq::<(Seq<char>, Type)>::empty(), st))
    } else {
        g_params(s, st, seq![])
    };
    match params {
        Ok((ps, st1)) => match expect_tok(s, st1, Token::RParen) {
            Ok(st2) => match expect_tok(s, st2, Token::LBrace) {
                Ok(st3) => match g_locals(s, st3, seq![]) {
                    Ok((ls, st4)) => match g_block_rest(s, st4, seq![]) {
                        Ok((body, st5)) => match adv(s, st5) {
                            Ok(st6) => Ok(
                                (
                                    FuncView {
                                        ret,
                                        name,
                                        params: ps,
                                        locals: ls,
                                        body: body.push(StmtView::Empty),
                                    },
                                    st6,
                                ),
                            ),
                            Err(e) => Err(e),
                        },
                        Err(e) => Err(e),
                    },
                    Err(e) => Err(e),
                },
                Err(e) => Err(e),
            },
            Err(e) => Err(e),
        },
        Err(e) => Err(e),
    }
}

/// Further `, name` globals of type `t`, appended to `acc`.
pub open spec fn g_more_globals(s: Seq<char>, st: PState, t: Type, acc: Seq<ItemView>) -> Result<
    (Seq<ItemView>, PState), PErr>
    decreases pfuel(s, st),
{
    if st.cur == fixed(Token::Comma) {
        match adv(s, st) {
            Ok(st1) => match st1.cur {
                TokenView::Ident(n) => match adv(s, st1) {
                    Ok(st2) => if before(s, st2, st) {
                        g_more_globals(s, st2, t, acc.push(ItemView::Global(n, t)))
                    } else {
                        Err(PErr::Syntax(seq![]))
                    },
                    Err(e) => Err(e),
                },
                _ => Err(PErr::Syntax(found_message("expected identifier, got "@, st1.cur))),
            },
            Err(e) => Err(e),
        }
    } else {
        Ok((acc, st))
    }
}

/// A top-level item: an enum with its `;`, a function, or globals sharing a
/// type with their `;`.
pub open spec fn g_item(s: Seq<char>, st: PState) -> Result<(Seq<ItemView>, PState), PErr> {
    if st.cur == fixed(Token::KwEnum) {
        match g_enum(s, st) {
            Ok((vs, st1)) => match expect_tok(s, st1, Token::Semicolon) {
                Ok(st2) => Ok((seq![ItemView::Enum(vs)], st2)),
                Err(e) => Err(e),
            },
            Err(e) => Err(e),
        }
    } else {
        match g_type(s, st) {
            Ok((t, st1)) => match st1.cur {
                TokenView::Ident(n) => match adv(s, st1) {
                    Ok(st2) => if st2.cur == fixed(Token::LParen) {
                        match adv(s, st2) {
                            Ok(st3) => match g_func(s, st3, n, t) {
                                Ok((f, st4)) => Ok((seq![ItemView::Function(f)], st4)),
                                Err(e) => Err(e),
                            },
                            Err(e) => Err(e),
                        }
                    } else {
                        match g_more_globals(s, st2, t, seq![ItemView::Global(n, t)]) {
                            Ok((gs, st3)) => match expect_tok(s, st3, Token::Semicolon) {
                                Ok(st4) => Ok((gs, st4)),
                                Err(e) => Err(e),
                            },
                            Err(e) => Err(e),
                        }
                    },
                    Err(e) => Err(e),
                },
                _ => Err(PErr::Syntax(found_message("expected identifier, got "@, st1.cur))),
            },
            Err(e) => Err(e),
        }
    }
}

/// Items up to the end of input, appended to `acc`.
pub open spec fn g_program(s: Seq<char>, st: PState, acc: Seq<ItemView>) -> Result<
    (Seq<ItemView>, PState), PErr>
    decreases pfuel(s, st),
{
    if st.cur == fixed(Token::Eof) {
        Ok((acc, st))
    } else {
        match g_item(s, st) {
            Ok((its, st1)) => if before(s, st1, st) {
                g_program(s, st1, acc + its)
            } else {
                Err(PErr::Syntax(seq![]))
            },
            Err(e) => Err(e),
        }
    }
}

} // verus!
