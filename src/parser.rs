//! Recursive-descent parser: one function per precedence level, with one
//! token of lookahead.
//!
//! Each parsing function is proved to return exactly what the grammar in
//! `grammar` gives from the same state (the tree, viewed, and the state after
//! it), and to fail exactly when the grammar does. Every parsing function
//! consumes input: a measure of the tokens left never grows, and shrinks on
//! success. That measure bounds the recursion.

use crate::ast::{
    args_view, block_view, decls_view, func_view, lemma_args_view, lemma_block_view, BinOp, Block,
    EnumDecl, Expr, ExprView, FuncDef, GlobalDecl, Item, ItemView, Program, Stmt, StmtView, Type,
    UnOp,
};
use crate::grammar::{
    adv, expect_tok, fixed, g_args, g_assignment, g_chain, g_conditional, g_level, g_postfix,
    g_postfix_rest, g_primary, g_stars, g_type, g_unary, is_type_keyword, outcome, failed_with, pfuel, PErr, PState, debug_text, found_message,
    g_block,
    g_block_rest, g_decl_names, g_enum, g_func, g_item, g_locals, g_more_globals, g_params,
    g_program, g_stmt, g_variants,
};
use crate::lexer::{lemma_lex_next_progress, lex_next, Lexer, Token, TokenView};
use vstd::prelude::*;
use vstd::string::*;

verus! {

pub struct Parser {
    lex: Lexer,
    cur: Token,
}

/// The views of a sequence of statements.
pub open spec fn stmt_views(ss: Seq<Stmt>) -> Seq<StmtView> {
    Seq::new(ss.len(), |k: int| ss[k]@)
}

/// The views of a sequence of items.
pub open spec fn items_views(its: Seq<Item>) -> Seq<ItemView> {
    Seq::new(its.len(), |k: int| its[k]@)
}

/// The views of enum variants.
pub open spec fn variants_view(vs: Seq<(String, Option<i64>)>) -> Seq<(Seq<char>, Option<i64>)> {
    Seq::new(vs.len(), |k: int| (vs[k].0@, vs[k].1))
}

/// The views of a sequence of expressions.
pub open spec fn views(es: Seq<Expr>) -> Seq<ExprView> {
    Seq::new(es.len(), |k: int| es[k]@)
}

/// `b` is `a` after some parsing: still well formed, over the same text, with
/// no more input left, and strictly less when `progress` holds.
pub open spec fn advanced(a: Parser, b: Parser, progress: bool) -> bool {
    &&& b.wf()
    &&& b.text() == a.text()
    &&& b.fuel() <= a.fuel()
    &&& progress ==> b.fuel() < a.fuel()
}

impl Parser {
    pub closed spec fn wf(&self) -> bool {
        &&& self.lex.wf()
        &&& self.at_end() ==> self.lex.position() == self.lex.text().len()
    }

    /// The source text.
    pub closed spec fn text(&self) -> Seq<char> {
        self.lex.text()
    }

    /// Whether the lookahead is the end marker.
    pub closed spec fn at_end(&self) -> bool {
        self.cur@ == TokenView::Fixed(Token::Eof)
    }

    /// The lookahead token.
    pub closed spec fn lookahead(&self) -> TokenView {
        self.cur@
    }

    /// The lexer's position and the lookahead.
    pub closed spec fn pstate(&self) -> PState {
        PState { pos: self.lex.position(), cur: self.cur@ }
    }

    /// A bound on the tokens left: the characters not yet read, plus one for
    /// the lookahead unless it is the end marker.
    pub closed spec fn fuel(&self) -> nat {
        pfuel(self.lex.text(), self.pstate())
    }

    /// A parser over `input`, with its first token read; the lexical error of
    /// that first token, if there is one.
    pub fn new(input: &str) -> (r: Result<Parser, String>)
        ensures
            match lex_next(input@, 0).0 {
                Ok(t) => r matches Ok(p) && p.wf() && p.text() == input@ && p.lookahead() == t,
                Err(m) => r matches Err(e) && e@ == m,
            },
    {
        let mut lex = Lexer::new(input);
        proof {
            lex.lemma_position_bounds();
            lemma_lex_next_progress(lex.text(), lex.position());
        }
        match lex.next_token() {
            Ok(first) => Ok(Parser { lex, cur: first }),
            Err(e) => Err(e.0),
        }
    }

    /// Reads the next token into the lookahead.
    fn bump(&mut self) -> (r: Result<(), String>)
        requires
            old(self).wf(),
        ensures
            advanced(*old(self), *final(self), r is Ok && !old(self).at_end()),
            r is Ok ==> adv(old(self).text(), old(self).pstate()) == Ok::<PState, PErr>(final(self).pstate()),
            r is Err ==> adv(old(self).text(), old(self).pstate()) == Err::<PState, PErr>(
                PErr::Lex(r->Err_0@),
            ),
    {
        proof {
            self.lex.lemma_position_bounds();
            lemma_lex_next_progress(self.lex.text(), self.lex.position());
        }
        match self.lex.next_token() {
            Ok(t) => {
                self.cur = t;
                Ok(())
            },
            Err(e) => Err(e.0),
        }
    }

    /// Consumes the lookahead if it is `tok`, and says whether it did.
    fn eat(&mut self, tok: Token) -> (r: Result<bool, String>)
        requires
            old(self).wf(),
            tok@ != TokenView::Fixed(Token::Eof),
            tok@ == fixed(tok),
        ensures
            advanced(*old(self), *final(self), r == Ok::<bool, String>(true)),
            r matches Ok(b) ==> b == (old(self).lookahead() == tok@),
            r == Ok::<bool, String>(false) ==> *final(self) == *old(self),
            r == Ok::<bool, String>(true) ==> adv(old(self).text(), old(self).pstate()) == Ok::<
                PState,
                PErr,
            >(final(self).pstate()),
            r is Err ==> old(self).lookahead() == tok@ && adv(old(self).text(), old(self).pstate())
                == Err::<PState, PErr>(PErr::Lex(r->Err_0@)),
    {
        if self.cur == tok {
            self.bump()?;
            Ok(true)
        } else {
            Ok(false)
        }
    }

    /// Consumes the lookahead, which must be `tok`.
    fn expect(&mut self, tok: Token) -> (r: Result<(), String>)
        requires
            old(self).wf(),
            tok@ != TokenView::Fixed(Token::Eof),
            tok@ == fixed(tok),
        ensures
            advanced(*old(self), *final(self), r is Ok),
            r is Ok ==> old(self).lookahead() == tok@,
            match expect_tok(old(self).text(), old(self).pstate(), tok) {
                Ok(st) => r is Ok && final(self).pstate() == st,
                Err(e) => r is Err && failed_with(e, r->Err_0@),
            },
            old(self).lookahead() != tok@ ==> *final(self) == *old(self) && r is Err
                && r->Err_0@ == found_message(
                "expected "@ + debug_text(tok@) + ", got "@,
                old(self).lookahead(),
            ),
    {
        if self.cur == tok {
            self.bump()
        } else {
            let mut m = String::from_str("expected ");
            m.append(describe(&tok).as_str());
            m.append(", got ");
            m.append(describe(&self.cur).as_str());
            Err(m)
        }
    }

    /// Consumes an identifier and returns its name.
    fn expect_ident(&mut self) -> (r: Result<String, String>)
        requires
            old(self).wf(),
        ensures
            advanced(*old(self), *final(self), r is Ok),
            r matches Ok(name) ==> old(self).lookahead() == TokenView::Ident(name@) && adv(
                old(self).text(),
                old(self).pstate(),
            ) == Ok::<PState, PErr>(final(self).pstate()),
            r is Err ==> !(old(self).lookahead() is Ident) || adv(
                old(self).text(),
                old(self).pstate(),
            ) == Err::<PState, PErr>(PErr::Lex(r->Err_0@)),
            !(old(self).lookahead() is Ident) ==> *final(self) == *old(self) && r is Err
                && r->Err_0@ == found_message("expected identifier, got "@, old(self).lookahead()),
    {
        let name = match &self.cur {
            Token::Ident(n) => n.clone(),
            _ => {
                let mut m = String::from_str("expected identifier, got ");
                m.append(describe(&self.cur).as_str());
                return Err(m);
            },
        };
        self.bump()?;
        Ok(name)
    }

    /// Parses the whole input into a program: items up to the end of input.
    pub fn parse_program(&mut self) -> (r: Result<Program, String>)
        requires
            old(self).wf(),
        ensures
            final(self).wf(),
            final(self).text() == old(self).text(),
            match g_program(old(self).text(), old(self).pstate(), seq![]) {
                Ok((v, st)) => r matches Ok(p) && p@ == v && final(self).pstate() == st
                    && final(self).at_end(),
                Err(e) => r is Err && failed_with(e, r->Err_0@),
            },
    {
        let mut items: Vec<Item> = Vec::new();
        assert(items_views(items@) =~= Seq::<ItemView>::empty());
        while !(self.cur == Token::Eof)
            invariant
                advanced(*old(self), *self, false),
                g_program(old(self).text(), old(self).pstate(), seq![]) == g_program(old(self).text(), self.pstate(), items_views(items@)),
            decreases self.fuel(),
        {
            let ghost before_items = items_views(items@);
            self.parse_item(&mut items)?;
            assert(g_program(old(self).text(), self.pstate(), items_views(items@)) == g_program(
                old(self).text(),
                self.pstate(),
                before_items + (items_views(items@).subrange(before_items.len() as int, items@.len() as int)),
            )) by {
                assert(items_views(items@) =~= before_items + items_views(items@).subrange(
                    before_items.len() as int,
                    items@.len() as int,
                ));
            }
        }
        let p = Program { items };
        assert(p@ =~= items_views(p.items@));
        Ok(p)
    }

    /// A top-level item: an enum, a function, or a list of globals sharing a
    /// type. The items found are appended to `items`.
    fn parse_item(&mut self, items: &mut Vec<Item>) -> (r: Result<(), String>)
        requires
            old(self).wf(),
        ensures
            advanced(*old(self), *final(self), r is Ok),
            match g_item(old(self).text(), old(self).pstate()) {
                Ok((v, st)) => r is Ok && items_views(final(items)@) == items_views(old(items)@)
                    + v && final(self).pstate() == st,
                Err(e) => r is Err && failed_with(e, r->Err_0@),
            },
    {
        let ghost before_items = items_views(items@);
        if self.cur == Token::KwEnum {
            let ed = self.parse_enum()?;
            self.expect(Token::Semicolon)?;
            items.push(Item::Enum(ed));
            assert(items_views(items@) =~= before_items + seq![items@.last()@]);
            return Ok(());
        }
        let ty = self.parse_type()?;
        let name = self.expect_ident()?;
        if self.eat(Token::LParen)? {
            let func = self.parse_func(name, ty)?;
            items.push(Item::Function(func));
            assert(items_views(items@) =~= before_items + seq![items@.last()@]);
            return Ok(());
        }
        let mut globals: Vec<Item> = Vec::new();
        globals.push(Item::Global(GlobalDecl { name, ty: ty.clone() }));
        assert(items_views(globals@) =~= seq![ItemView::Global(name@, ty)]);
        self.parse_more_globals(&ty, &mut globals)?;
        self.expect(Token::Semicolon)?;
        let ghost gv = items_views(globals@);
        items.append(&mut globals);
        assert(items_views(items@) =~= before_items + gv);
        Ok(())
    }

    /// Further `, name` globals of type `t`, appended to `out`.
    fn parse_more_globals(&mut self, t: &Type, out: &mut Vec<Item>) -> (r: Result<(), String>)
        requires
            old(self).wf(),
        ensures
            advanced(*old(self), *final(self), false),
            match g_more_globals(old(self).text(), old(self).pstate(), *t, items_views(old(out)@)) {
                Ok((v, st)) => r is Ok && items_views(final(out)@) == v && final(self).pstate()
                    == st,
                Err(e) => r is Err && failed_with(e, r->Err_0@),
            },
    {
        loop
            invariant_except_break
                advanced(*old(self), *self, false),
                g_more_globals(old(self).text(), old(self).pstate(), *t, items_views(old(out)@)) == g_more_globals(
                    old(self).text(),
                    self.pstate(),
                    *t,
                    items_views(out@),
                ),
            ensures
                advanced(*old(self), *self, false),
                g_more_globals(old(self).text(), old(self).pstate(), *t, items_views(old(out)@)) == Ok::<_, PErr>(
                    (items_views(out@), self.pstate()),
                ),
            decreases self.fuel(),
        {
            if !self.eat(Token::Comma)? {
                break;
            }
            let n = self.expect_ident()?;
            let ghost before_g = items_views(out@);
            out.push(Item::Global(GlobalDecl { name: n, ty: t.clone() }));
            assert(items_views(out@) =~= before_g.push(ItemView::Global(n@, *t)));
        }
        Ok(())
    }

    /// `enum { A = 0, B, C = 5 }`; an initializer must be a number literal.
    fn parse_enum(&mut self) -> (r: Result<EnumDecl, String>)
        requires
            old(self).wf(),
        ensures
            advanced(*old(self), *final(self), r is Ok),
            match g_enum(old(self).text(), old(self).pstate()) {
                Ok((v, st)) => r matches Ok(ed) && variants_view(ed.variants@) == v
                    && final(self).pstate() == st,
                Err(e) => r is Err && failed_with(e, r->Err_0@),
            },
    {
        self.expect(Token::KwEnum)?;
        self.expect(Token::LBrace)?;
        let mut variants: Vec<(String, Option<i64>)> = Vec::new();
        assert(variants_view(variants@) =~= Seq::<(Seq<char>, Option<i64>)>::empty());
        self.parse_variants(&mut variants)?;
        self.expect(Token::RBrace)?;
        Ok(EnumDecl { variants })
    }

    /// Enum variants up to the `}` (not consumed), appended to `out`.
    fn parse_variants(&mut self, out: &mut Vec<(String, Option<i64>)>) -> (r: Result<(), String>)
        requires
            old(self).wf(),
        ensures
            advanced(*old(self), *final(self), false),
            match g_variants(old(self).text(), old(self).pstate(), variants_view(old(out)@)) {
                Ok((v, st)) => r is Ok && variants_view(final(out)@) == v && final(self).pstate()
                    == st,
                Err(e) => r is Err && failed_with(e, r->Err_0@),
            },
    {
        while !(self.cur == Token::RBrace)
            invariant_except_break
                advanced(*old(self), *self, false),
                g_variants(old(self).text(), old(self).pstate(), variants_view(old(out)@)) == g_variants(
                    old(self).text(),
                    self.pstate(),
                    variants_view(out@),
                ),
            ensures
                advanced(*old(self), *self, false),
                g_variants(old(self).text(), old(self).pstate(), variants_view(old(out)@)) == Ok::<_, PErr>(
                    (variants_view(out@), self.pstate()),
                ),
            decreases self.fuel(),
        {
            let vname = self.expect_ident()?;
            let init = if self.eat(Token::Assign)? {
                match self.parse_assignment()? {
                    Expr::Num(val) => Some(val),
                    _ => {
                        return Err(String::from_str("enum initializer must be a number"));
                    },
                }
            } else {
                None
            };
            let ghost before_v = variants_view(out@);
            out.push((vname, init));
            assert(variants_view(out@) =~= before_v.push((vname@, init)));
            if !self.eat(Token::Comma)? {
                break;
            }
        }
        Ok(())
    }

    /// `void`, `int` or `char`, followed by any number of `*`.
    fn parse_type(&mut self) -> (r: Result<Type, String>)
        requires
            old(self).wf(),
        ensures
            advanced(*old(self), *final(self), r is Ok),
            outcome(g_type(old(self).text(), old(self).pstate()), r is Ok, r->Ok_0, final(self).pstate(), r->Err_0@),
            !is_type_keyword(old(self).lookahead()) ==> *final(self) == *old(self) && r is Err
                && r->Err_0@ == found_message("expected type, got "@, old(self).lookahead()),
    {
        let mut ty = match self.cur {
            Token::KwVoid => Type::Void,
            Token::KwInt => Type::Int,
            Token::KwChar => Type::Char,
            _ => {
                let mut m = String::from_str("expected type, got ");
                m.append(describe(&self.cur).as_str());
                return Err(m);
            },
        };
        self.bump()?;
        loop
            invariant_except_break
                advanced(*old(self), *self, true),
                g_type(old(self).text(), old(self).pstate()) == g_stars(old(self).text(), self.pstate(), ty),
                is_type_keyword(old(self).lookahead()),
            ensures
                advanced(*old(self), *self, true),
                g_type(old(self).text(), old(self).pstate()) == Ok::<_, PErr>((ty, self.pstate())),
            decreases self.fuel(),
        {
            if !self.eat(Token::Star)? {
                break;
            }
            ty = Type::Ptr(Box::new(ty));
        }
        Ok(ty)
    }

    /// Names separated by commas, each declared with type `t`; appended to
    /// `out`.
    fn parse_decl_names(&mut self, t: &Type, out: &mut Vec<(String, Type)>) -> (r: Result<(), String>)
        requires
            old(self).wf(),
        ensures
            advanced(*old(self), *final(self), r is Ok),
            match g_decl_names(old(self).text(), old(self).pstate(), *t, decls_view(old(out)@)) {
                Ok((v, st)) => r is Ok && decls_view(final(out)@) == v && final(self).pstate()
                    == st,
                Err(e) => r is Err && failed_with(e, r->Err_0@),
            },
    {
        loop
            invariant_except_break
                advanced(*old(self), *self, false),
                g_decl_names(old(self).text(), old(self).pstate(), *t, decls_view(old(out)@)) == g_decl_names(
                    old(self).text(),
                    self.pstate(),
                    *t,
                    decls_view(out@),
                ),
            ensures
                advanced(*old(self), *self, true),
                g_decl_names(old(self).text(), old(self).pstate(), *t, decls_view(old(out)@)) == Ok::<_, PErr>(
                    (decls_view(out@), self.pstate()),
                ),
            decreases self.fuel(),
        {
            let name = self.expect_ident()?;
            let ghost before_d = decls_view(out@);
            out.push((name, t.clone()));
            assert(decls_view(out@) =~= before_d.push((name@, *t)));
            if !self.eat(Token::Comma)? {
                break;
            }
        }
        Ok(())
    }

    /// Parameters `type name` separated by commas, appended to `out`.
    fn parse_params(&mut self, out: &mut Vec<(String, Type)>) -> (r: Result<(), String>)
        requires
            old(self).wf(),
        ensures
            advanced(*old(self), *final(self), r is Ok),
            match g_params(old(self).text(), old(self).pstate(), decls_view(old(out)@)) {
                Ok((v, st)) => r is Ok && decls_view(final(out)@) == v && final(self).pstate()
                    == st,
                Err(e) => r is Err && failed_with(e, r->Err_0@),
            },
    {
        loop
            invariant_except_break
                advanced(*old(self), *self, false),
                g_params(old(self).text(), old(self).pstate(), decls_view(old(out)@)) == g_params(
                    old(self).text(),
                    self.pstate(),
                    decls_view(out@),
                ),
            ensures
                advanced(*old(self), *self, true),
                g_params(old(self).text(), old(self).pstate(), decls_view(old(out)@)) == Ok::<_, PErr>((decls_view(out@), self.pstate())),
            decreases self.fuel(),
        {
            let pty = self.parse_type()?;
            let pname = self.expect_ident()?;
            let ghost before_p = decls_view(out@);
            out.push((pname, pty));
            assert(decls_view(out@) =~= before_p.push((pname@, pty)));
            if !self.eat(Token::Comma)? {
                break;
            }
        }
        Ok(())
    }

    /// Local declaration lists, appended to `out`.
    fn parse_locals(&mut self, out: &mut Vec<(String, Type)>) -> (r: Result<(), String>)
        requires
            old(self).wf(),
        ensures
            advanced(*old(self), *final(self), false),
            match g_locals(old(self).text(), old(self).pstate(), decls_view(old(out)@)) {
                Ok((v, st)) => r is Ok && decls_view(final(out)@) == v && final(self).pstate()
                    == st,
                Err(e) => r is Err && failed_with(e, r->Err_0@),
            },
    {
        while matches!(self.cur, Token::KwInt | Token::KwChar)
            invariant
                advanced(*old(self), *self, false),
                g_locals(old(self).text(), old(self).pstate(), decls_view(old(out)@)) == g_locals(
                    old(self).text(),
                    self.pstate(),
                    decls_view(out@),
                ),
            decreases self.fuel(),
        {
            let lty = self.parse_type()?;
            self.parse_decl_names(&lty, out)?;
            self.expect(Token::Semicolon)?;
        }
        Ok(())
    }

    /// Statements up to a `}` (not consumed), appended to `out`.
    fn parse_block_rest(&mut self, out: &mut Vec<Stmt>) -> (r: Result<(), String>)
        requires
            old(self).wf(),
        ensures
            advanced(*old(self), *final(self), false),
            match g_block_rest(old(self).text(), old(self).pstate(), stmt_views(old(out)@)) {
                Ok((v, st)) => r is Ok && stmt_views(final(out)@) == v && final(self).pstate()
                    == st,
                Err(e) => r is Err && failed_with(e, r->Err_0@),
            },
        decreases old(self).fuel(), 3int,
    {
        while !(self.cur == Token::RBrace)
            invariant
                advanced(*old(self), *self, false),
                g_block_rest(old(self).text(), old(self).pstate(), stmt_views(old(out)@)) == g_block_rest(
                    old(self).text(),
                    self.pstate(),
                    stmt_views(out@),
                ),
            decreases self.fuel(),
        {
            let s = self.parse_stmt()?;
            let ghost before_s = stmt_views(out@);
            out.push(s);
            assert(stmt_views(out@) =~= before_s.push(s@));
        }
        Ok(())
    }

    /// The rest of a function after its `(`: parameters, then a body whose
    /// leading `int`/`char` declarations are its locals. The body ends with an
    /// extra empty statement.
    fn parse_func(&mut self, name: String, ret_ty: Type) -> (r: Result<FuncDef, String>)
        requires
            old(self).wf(),
        ensures
            advanced(*old(self), *final(self), r is Ok),
            match g_func(old(self).text(), old(self).pstate(), name@, ret_ty) {
                Ok((v, st)) => r matches Ok(f) && func_view(f) == v && final(self).pstate() == st,
                Err(e) => r is Err && failed_with(e, r->Err_0@),
            },
    {
        let mut params: Vec<(String, Type)> = Vec::new();
        assert(decls_view(params@) =~= Seq::<(Seq<char>, Type)>::empty());
        if !(self.cur == Token::RParen) {
            self.parse_params(&mut params)?;
        }
        self.expect(Token::RParen)?;
        self.expect(Token::LBrace)?;
        let mut locals: Vec<(String, Type)> = Vec::new();
        assert(decls_view(locals@) =~= Seq::<(Seq<char>, Type)>::empty());
        self.parse_locals(&mut locals)?;
        let mut stmts: Vec<Stmt> = Vec::new();
        assert(stmt_views(stmts@) =~= Seq::<StmtView>::empty());
        self.parse_block_rest(&mut stmts)?;
        let ghost body_v = stmt_views(stmts@);
        stmts.push(Stmt::Empty);
        assert(stmt_views(stmts@) =~= body_v.push(StmtView::Empty));
        self.bump()?;
        let f = FuncDef { ret: ret_ty, name, params, locals, body: Block { stmts } };
        assert(func_view(f).body =~= stmt_views(f.body.stmts@));
        Ok(f)
    }

    /// `{ stmt* }`
    fn parse_block(&mut self) -> (r: Result<Block, String>)
        requires
            old(self).wf(),
        ensures
            advanced(*old(self), *final(self), r is Ok),
            match g_block(old(self).text(), old(self).pstate()) {
                Ok((v, st)) => r matches Ok(b) && stmt_views(b.stmts@) == v
                    && final(self).pstate() == st,
                Err(e) => r is Err && failed_with(e, r->Err_0@),
            },
        decreases old(self).fuel(), 1int,
    {
        self.expect(Token::LBrace)?;
        let mut stmts: Vec<Stmt> = Vec::new();
        assert(stmt_views(stmts@) =~= Seq::<StmtView>::empty());
        self.parse_block_rest(&mut stmts)?;
        self.bump()?;
        Ok(Block { stmts })
    }

    /// A statement: `if`, `while`, `return`, a block, `;`, or an expression
    /// followed by `;`. Local declarations met here are skipped.
    #[verifier::rlimit(60)]
    fn parse_stmt(&mut self) -> (r: Result<Stmt, String>)
        requires
            old(self).wf(),
        ensures
            advanced(*old(self), *final(self), r is Ok),
            outcome(g_stmt(old(self).text(), old(self).pstate()), r is Ok, r->Ok_0@, final(self).pstate(), r->Err_0@),
        decreases old(self).fuel(), 2int,
    {
        if matches!(self.cur, Token::KwInt | Token::KwChar) {
            let t = self.parse_type()?;
            let mut skipped: Vec<(String, Type)> = Vec::new();
            assert(decls_view(skipped@) =~= Seq::<(Seq<char>, Type)>::empty());
            self.parse_decl_names(&t, &mut skipped)?;
            self.expect(Token::Semicolon)?;
            return self.parse_stmt();
        }
        if self.eat(Token::KwIf)? {
            self.expect(Token::LParen)?;
            let cond = self.parse_assignment()?;
            self.expect(Token::RParen)?;
            let then_b = Box::new(self.parse_stmt()?);
            let else_b = if self.eat(Token::KwElse)? {
                Some(Box::new(self.parse_stmt()?))
            } else {
                None
            };
            return Ok(Stmt::If { cond, then_branch: then_b, else_branch: else_b });
        }
        if self.eat(Token::KwWhile)? {
            self.expect(Token::LParen)?;
            let cond = self.parse_assignment()?;
            self.expect(Token::RParen)?;
            let body = Box::new(self.parse_stmt()?);
            return Ok(Stmt::While { cond, body });
        }
        if self.eat(Token::KwReturn)? {
            let expr = if !(self.cur == Token::Semicolon) {
                Some(self.parse_assignment()?)
            } else {
                None
            };
            self.expect(Token::Semicolon)?;
            return Ok(Stmt::Return(expr));
        }
        if self.cur == Token::LBrace {
            let b = self.parse_block()?;
            let st = Stmt::Block(b);
            proof {
                lemma_block_view(st, 0);
                assert(block_view(st, 0) =~= stmt_views(b.stmts@));
            }
            return Ok(st);
        }
        if self.eat(Token::Semicolon)? {
            return Ok(Stmt::Empty);
        }
        let e = self.parse_assignment()?;
        self.expect(Token::Semicolon)?;
        Ok(Stmt::Expr(e))
    }

    /// Assignment, the lowest precedence; right-associative.
    fn parse_assignment(&mut self) -> (r: Result<Expr, String>)
        requires
            old(self).wf(),
        ensures
            advanced(*old(self), *final(self), r is Ok),
            outcome(g_assignment(old(self).text(), old(self).pstate()), r is Ok, r->Ok_0@, final(self).pstate(), r->Err_0@),
        decreases old(self).fuel(), 16int,
    {
        let left = self.parse_conditional()?;
        if self.eat(Token::Assign)? {
            let right = self.parse_assignment()?;
            return Ok(Expr::Binary { op: BinOp::Assign, left: Box::new(left), right: Box::new(right) });
        }
        Ok(left)
    }

    /// The conditional `c ? a : b`, right-associative; its condition is a
    /// logical-or expression.
    fn parse_conditional(&mut self) -> (r: Result<Expr, String>)
        requires
            old(self).wf(),
        ensures
            advanced(*old(self), *final(self), r is Ok),
            outcome(g_conditional(old(self).text(), old(self).pstate()), r is Ok, r->Ok_0@, final(self).pstate(), r->Err_0@),
        decreases old(self).fuel(), 15int,
    {
        let expr = self.parse_logical_or()?;
        if self.eat(Token::Question)? {
            let then_e = self.parse_assignment()?;
            self.expect(Token::Colon)?;
            let else_e = self.parse_assignment()?;
            return Ok(Expr::Conditional {
                cond: Box::new(expr),
                then_expr: Box::new(then_e),
                else_expr: Box::new(else_e),
            });
        }
        Ok(expr)
    }

    /// Logical or `||`.
    fn parse_logical_or(&mut self) -> (r: Result<Expr, String>)
        requires
            old(self).wf(),
        ensures
            advanced(*old(self), *final(self), r is Ok),
            outcome(g_level(old(self).text(), old(self).pstate(), 14), r is Ok, r->Ok_0@, final(self).pstate(), r->Err_0@),
        decreases old(self).fuel(), 14int,
    {
        let mut expr = self.parse_logical_and()?;
        loop
            invariant_except_break
                advanced(*old(self), *self, true),
                g_level(old(self).text(), old(self).pstate(), 14) == g_chain(old(self).text(), self.pstate(), expr@, 14),
            ensures
                advanced(*old(self), *self, true),
                g_level(old(self).text(), old(self).pstate(), 14) == Ok::<_, PErr>((expr@, self.pstate())),
            decreases self.fuel(),
        {
            if self.eat(Token::OrOr)? {
                let rhs = self.parse_logical_and()?;
                expr = Expr::Binary { op: BinOp::LogOr, left: Box::new(expr), right: Box::new(rhs) };
            } else {
                break;
            }
        }
        Ok(expr)
    }

    /// Logical and `&&`.
    fn parse_logical_and(&mut self) -> (r: Result<Expr, String>)
        requires
            old(self).wf(),
        ensures
            advanced(*old(self), *final(self), r is Ok),
            outcome(g_level(old(self).text(), old(self).pstate(), 13), r is Ok, r->Ok_0@, final(self).pstate(), r->Err_0@),
        decreases old(self).fuel(), 13int,
    {
        let mut expr = self.parse_bitwise_or()?;
        loop
            invariant_except_break
                advanced(*old(self), *self, true),
                g_level(old(self).text(), old(self).pstate(), 13) == g_chain(old(self).text(), self.pstate(), expr@, 13),
            ensures
                advanced(*old(self), *self, true),
                g_level(old(self).text(), old(self).pstate(), 13) == Ok::<_, PErr>((expr@, self.pstate())),
            decreases self.fuel(),
        {
            if self.eat(Token::AndAnd)? {
                let rhs = self.parse_bitwise_or()?;
                expr = Expr::Binary { op: BinOp::LogAnd, left: Box::new(expr), right: Box::new(rhs) };
            } else {
                break;
            }
        }
        Ok(expr)
    }

    /// Bitwise or `|`.
    fn parse_bitwise_or(&mut self) -> (r: Result<Expr, String>)
        requires
            old(self).wf(),
        ensures
            advanced(*old(self), *final(self), r is Ok),
            outcome(g_level(old(self).text(), old(self).pstate(), 12), r is Ok, r->Ok_0@, final(self).pstate(), r->Err_0@),
        decreases old(self).fuel(), 12int,
    {
        let mut expr = self.parse_bitwise_xor()?;
        loop
            invariant_except_break
                advanced(*old(self), *self, true),
                g_level(old(self).text(), old(self).pstate(), 12) == g_chain(old(self).text(), self.pstate(), expr@, 12),
            ensures
                advanced(*old(self), *self, true),
                g_level(old(self).text(), old(self).pstate(), 12) == Ok::<_, PErr>((expr@, self.pstate())),
            decreases self.fuel(),
        {
            if self.eat(Token::Or)? {
                let rhs = self.parse_bitwise_xor()?;
                expr = Expr::Binary { op: BinOp::BitOr, left: Box::new(expr), right: Box::new(rhs) };
            } else {
                break;
            }
        }
        Ok(expr)
    }

    /// Bitwise xor `^`.
    fn parse_bitwise_xor(&mut self) -> (r: Result<Expr, String>)
        requires
            old(self).wf(),
        ensures
            advanced(*old(self), *final(self), r is Ok),
            outcome(g_level(old(self).text(), old(self).pstate(), 11), r is Ok, r->Ok_0@, final(self).pstate(), r->Err_0@),
        decreases old(self).fuel(), 11int,
    {
        let mut expr = self.parse_bitwise_and()?;
        loop
            invariant_except_break
                advanced(*old(self), *self, true),
                g_level(old(self).text(), old(self).pstate(), 11) == g_chain(old(self).text(), self.pstate(), expr@, 11),
            ensures
                advanced(*old(self), *self, true),
                g_level(old(self).text(), old(self).pstate(), 11) == Ok::<_, PErr>((expr@, self.pstate())),
            decreases self.fuel(),
        {
            if self.eat(Token::Xor)? {
                let rhs = self.parse_bitwise_and()?;
                expr = Expr::Binary { op: BinOp::Xor, left: Box::new(expr), right: Box::new(rhs) };
            } else {
                break;
            }
        }
        Ok(expr)
    }

    /// Bitwise and `&`.
    fn parse_bitwise_and(&mut self) -> (r: Result<Expr, String>)
        requires
            old(self).wf(),
        ensures
            advanced(*old(self), *final(self), r is Ok),
            outcome(g_level(old(self).text(), old(self).pstate(), 10), r is Ok, r->Ok_0@, final(self).pstate(), r->Err_0@),
        decreases old(self).fuel(), 10int,
    {
        let mut expr = self.parse_equality()?;
        loop
            invariant_except_break
                advanced(*old(self), *self, true),
                g_level(old(self).text(), old(self).pstate(), 10) == g_chain(old(self).text(), self.pstate(), expr@, 10),
            ensures
                advanced(*old(self), *self, true),
                g_level(old(self).text(), old(self).pstate(), 10) == Ok::<_, PErr>((expr@, self.pstate())),
            decreases self.fuel(),
        {
            if self.eat(Token::And)? {
                let rhs = self.parse_equality()?;
                expr = Expr::Binary { op: BinOp::BitAnd, left: Box::new(expr), right: Box::new(rhs) };
            } else {
                break;
            }
        }
        Ok(expr)
    }

    /// Equality `==`, `!=`.
    fn parse_equality(&mut self) -> (r: Result<Expr, String>)
        requires
            old(self).wf(),
        ensures
            advanced(*old(self), *final(self), r is Ok),
            outcome(g_level(old(self).text(), old(self).pstate(), 9), r is Ok, r->Ok_0@, final(self).pstate(), r->Err_0@),
        decreases old(self).fuel(), 9int,
    {
        let mut expr = self.parse_relational()?;
        loop
            invariant_except_break
                advanced(*old(self), *self, true),
                g_level(old(self).text(), old(self).pstate(), 9) == g_chain(old(self).text(), self.pstate(), expr@, 9),
            ensures
                advanced(*old(self), *self, true),
                g_level(old(self).text(), old(self).pstate(), 9) == Ok::<_, PErr>((expr@, self.pstate())),
            decreases self.fuel(),
        {
            if self.eat(Token::EqEq)? {
                let rhs = self.parse_relational()?;
                expr = Expr::Binary { op: BinOp::Eq, left: Box::new(expr), right: Box::new(rhs) };
            } else if self.eat(Token::Ne)? {
                let rhs = self.parse_relational()?;
                expr = Expr::Binary { op: BinOp::Ne, left: Box::new(expr), right: Box::new(rhs) };
            } else {
                break;
            }
        }
        Ok(expr)
    }

    /// Relational `<`, `>`, `<=`, `>=`.
    fn parse_relational(&mut self) -> (r: Result<Expr, String>)
        requires
            old(self).wf(),
        ensures
            advanced(*old(self), *final(self), r is Ok),
            outcome(g_level(old(self).text(), old(self).pstate(), 8), r is Ok, r->Ok_0@, final(self).pstate(), r->Err_0@),
        decreases old(self).fuel(), 8int,
    {
        let mut expr = self.parse_shift()?;
        loop
            invariant_except_break
                advanced(*old(self), *self, true),
                g_level(old(self).text(), old(self).pstate(), 8) == g_chain(old(self).text(), self.pstate(), expr@, 8),
            ensures
                advanced(*old(self), *self, true),
                g_level(old(self).text(), old(self).pstate(), 8) == Ok::<_, PErr>((expr@, self.pstate())),
            decreases self.fuel(),
        {
            if self.eat(Token::Lt)? {
                let rhs = self.parse_shift()?;
                expr = Expr::Binary { op: BinOp::Lt, left: Box::new(expr), right: Box::new(rhs) };
            } else if self.eat(Token::Gt)? {
                let rhs = self.parse_shift()?;
                expr = Expr::Binary { op: BinOp::Gt, left: Box::new(expr), right: Box::new(rhs) };
            } else if self.eat(Token::Le)? {
                let rhs = self.parse_shift()?;
                expr = Expr::Binary { op: BinOp::Le, left: Box::new(expr), right: Box::new(rhs) };
            } else if self.eat(Token::Ge)? {
                let rhs = self.parse_shift()?;
                expr = Expr::Binary { op: BinOp::Ge, left: Box::new(expr), right: Box::new(rhs) };
            } else {
                break;
            }
        }
        Ok(expr)
    }

    /// Shifts `<<`, `>>`.
    fn parse_shift(&mut self) -> (r: Result<Expr, String>)
        requires
            old(self).wf(),
        ensures
            advanced(*old(self), *final(self), r is Ok),
            outcome(g_level(old(self).text(), old(self).pstate(), 7), r is Ok, r->Ok_0@, final(self).pstate(), r->Err_0@),
        decreases old(self).fuel(), 7int,
    {
        let mut expr = self.parse_add_sub()?;
        loop
            invariant_except_break
                advanced(*old(self), *self, true),
                g_level(old(self).text(), old(self).pstate(), 7) == g_chain(old(self).text(), self.pstate(), expr@, 7),
            ensures
                advanced(*old(self), *self, true),
                g_level(old(self).text(), old(self).pstate(), 7) == Ok::<_, PErr>((expr@, self.pstate())),
            decreases self.fuel(),
        {
            if self.eat(Token::Shl)? {
                let rhs = self.parse_add_sub()?;
                expr = Expr::Binary { op: BinOp::Shl, left: Box::new(expr), right: Box::new(rhs) };
            } else if self.eat(Token::Shr)? {
                let rhs = self.parse_add_sub()?;
                expr = Expr::Binary { op: BinOp::Shr, left: Box::new(expr), right: Box::new(rhs) };
            } else {
                break;
            }
        }
        Ok(expr)
    }

    /// Additive `+`, `-`.
    fn parse_add_sub(&mut self) -> (r: Result<Expr, String>)
        requires
            old(self).wf(),
        ensures
            advanced(*old(self), *final(self), r is Ok),
            outcome(g_level(old(self).text(), old(self).pstate(), 6), r is Ok, r->Ok_0@, final(self).pstate(), r->Err_0@),
        decreases old(self).fuel(), 6int,
    {
        let mut expr = self.parse_mul_div_mod()?;
        loop
            invariant_except_break
                advanced(*old(self), *self, true),
                g_level(old(self).text(), old(self).pstate(), 6) == g_chain(old(self).text(), self.pstate(), expr@, 6),
            ensures
                advanced(*old(self), *self, true),
                g_level(old(self).text(), old(self).pstate(), 6) == Ok::<_, PErr>((expr@, self.pstate())),
            decreases self.fuel(),
        {
            if self.eat(Token::Plus)? {
                let rhs = self.parse_mul_div_mod()?;
                expr = Expr::Binary { op: BinOp::Add, left: Box::new(expr), right: Box::new(rhs) };
            } else if self.eat(Token::Minus)? {
                let rhs = self.parse_mul_div_mod()?;
                expr = Expr::Binary { op: BinOp::Sub, left: Box::new(expr), right: Box::new(rhs) };
            } else {
                break;
            }
        }
        Ok(expr)
    }

    /// Multiplicative `*`, `/`, `%`.
    fn parse_mul_div_mod(&mut self) -> (r: Result<Expr, String>)
        requires
            old(self).wf(),
        ensures
            advanced(*old(self), *final(self), r is Ok),
            outcome(g_level(old(self).text(), old(self).pstate(), 5), r is Ok, r->Ok_0@, final(self).pstate(), r->Err_0@),
        decreases old(self).fuel(), 5int,
    {
        let mut expr = self.parse_unary()?;
        loop
            invariant_except_break
                advanced(*old(self), *self, true),
                g_level(old(self).text(), old(self).pstate(), 5) == g_chain(old(self).text(), self.pstate(), expr@, 5),
            ensures
                advanced(*old(self), *self, true),
                g_level(old(self).text(), old(self).pstate(), 5) == Ok::<_, PErr>((expr@, self.pstate())),
            decreases self.fuel(),
        {
            if self.eat(Token::Star)? {
                let rhs = self.parse_unary()?;
                expr = Expr::Binary { op: BinOp::Mul, left: Box::new(expr), right: Box::new(rhs) };
            } else if self.eat(Token::Slash)? {
                let rhs = self.parse_unary()?;
                expr = Expr::Binary { op: BinOp::Div, left: Box::new(expr), right: Box::new(rhs) };
            } else if self.eat(Token::Percent)? {
                let rhs = self.parse_unary()?;
                expr = Expr::Binary { op: BinOp::Mod, left: Box::new(expr), right: Box::new(rhs) };
            } else {
                break;
            }
        }
        Ok(expr)
    }

    /// Prefix operators, `sizeof`, casts and parenthesized expressions.
    #[verifier::rlimit(50)]
    fn parse_unary(&mut self) -> (r: Result<Expr, String>)
        requires
            old(self).wf(),
        ensures
            advanced(*old(self), *final(self), r is Ok),
            outcome(g_unary(old(self).text(), old(self).pstate()), r is Ok, r->Ok_0@, final(self).pstate(), r->Err_0@),
        decreases old(self).fuel(), 4int,
    {
        if self.eat(Token::Inc)? {
            let e = self.parse_unary()?;
            return Ok(Expr::Unary { op: UnOp::PreInc, expr: Box::new(e) });
        }
        if self.eat(Token::Dec)? {
            let e = self.parse_unary()?;
            return Ok(Expr::Unary { op: UnOp::PreDec, expr: Box::new(e) });
        }
        if self.eat(Token::Plus)? {
            let e = self.parse_unary()?;
            return Ok(Expr::Unary { op: UnOp::Plus, expr: Box::new(e) });
        }
        if self.eat(Token::Minus)? {
            let e = self.parse_unary()?;
            return Ok(Expr::Unary { op: UnOp::Neg, expr: Box::new(e) });
        }
        if self.eat(Token::Not)? {
            let e = self.parse_unary()?;
            return Ok(Expr::Unary { op: UnOp::Not, expr: Box::new(e) });
        }
        if self.eat(Token::Tilde)? {
            let e = self.parse_unary()?;
            return Ok(Expr::Unary { op: UnOp::BitNot, expr: Box::new(e) });
        }
        if self.eat(Token::Star)? {
            let e = self.parse_unary()?;
            return Ok(Expr::Unary { op: UnOp::Deref, expr: Box::new(e) });
        }
        if self.eat(Token::And)? {
            let e = self.parse_unary()?;
            return Ok(Expr::Unary { op: UnOp::Addr, expr: Box::new(e) });
        }
        if self.eat(Token::KwSizeof)? {
            self.expect(Token::LParen)?;
            let t = self.parse_type()?;
            self.expect(Token::RParen)?;
            return Ok(Expr::SizeOf(t));
        }
        if self.eat(Token::LParen)? {
            if matches!(self.cur, Token::KwVoid | Token::KwInt | Token::KwChar) {
                let ty = self.parse_type()?;
                self.expect(Token::RParen)?;
                let e = self.parse_unary()?;
                return Ok(Expr::Cast { ty, expr: Box::new(e) });
            } else {
                let e = self.parse_assignment()?;
                self.expect(Token::RParen)?;
                return Ok(e);
            }
        }
        self.parse_postfix()
    }

    /// Call arguments: assignments separated by commas. The lookahead is the
    /// first token of the first argument.
    fn parse_args(&mut self) -> (r: Result<Vec<Expr>, String>)
        requires
            old(self).wf(),
        ensures
            advanced(*old(self), *final(self), r is Ok),
            match g_args(old(self).text(), old(self).pstate(), seq![]) {
                Ok((v, st)) => r matches Ok(args) && views(args@) == v && final(self).pstate()
                    == st,
                Err(e) => r is Err && failed_with(e, r->Err_0@),
            },
        decreases old(self).fuel(), 17int,
    {
        let mut args: Vec<Expr> = Vec::new();
        assert(views(args@) =~= Seq::<ExprView>::empty());
        loop
            invariant_except_break
                advanced(*old(self), *self, false),
                g_args(old(self).text(), old(self).pstate(), seq![]) == g_args(old(self).text(), self.pstate(), views(args@)),
            ensures
                advanced(*old(self), *self, true),
                g_args(old(self).text(), old(self).pstate(), seq![]) == Ok::<_, PErr>((views(args@), self.pstate())),
            decreases self.fuel(),
        {
            let ghost before_arg = views(args@);
            let a = self.parse_assignment()?;
            args.push(a);
            assert(views(args@) =~= before_arg.push(a@));
            if !self.eat(Token::Comma)? {
                break;
            }
        }
        Ok(args)
    }

    /// Postfix `++`, `--`, calls and indexing.
    fn parse_postfix(&mut self) -> (r: Result<Expr, String>)
        requires
            old(self).wf(),
        ensures
            advanced(*old(self), *final(self), r is Ok),
            outcome(g_postfix(old(self).text(), old(self).pstate()), r is Ok, r->Ok_0@, final(self).pstate(), r->Err_0@),
        decreases old(self).fuel(), 3int,
    {
        let mut expr = self.parse_primary()?;
        loop
            invariant_except_break
                advanced(*old(self), *self, true),
                g_postfix(old(self).text(), old(self).pstate()) == g_postfix_rest(old(self).text(), self.pstate(), expr@),
            ensures
                advanced(*old(self), *self, true),
                g_postfix(old(self).text(), old(self).pstate()) == Ok::<_, PErr>((expr@, self.pstate())),
            decreases self.fuel(),
        {
            if self.eat(Token::Inc)? {
                expr = Expr::Unary { op: UnOp::PostInc, expr: Box::new(expr) };
            } else if self.eat(Token::Dec)? {
                expr = Expr::Unary { op: UnOp::PostDec, expr: Box::new(expr) };
            } else if self.eat(Token::LParen)? {
                let args = if !(self.cur == Token::RParen) {
                    self.parse_args()?
                } else {
                    Vec::new()
                };
                self.expect(Token::RParen)?;
                let call = Expr::Call { callee: Box::new(expr), args };
                proof {
                    lemma_args_view(call, 0);
                    assert(args_view(call, 0) =~= views(args@));
                }
                expr = call;
            } else if self.eat(Token::LBracket)? {
                let idx = self.parse_assignment()?;
                self.expect(Token::RBracket)?;
                expr = Expr::Index { array: Box::new(expr), index: Box::new(idx) };
            } else {
                break;
            }
        }
        Ok(expr)
    }

    /// A number, a string literal or an identifier.
    fn parse_primary(&mut self) -> (r: Result<Expr, String>)
        requires
            old(self).wf(),
        ensures
            advanced(*old(self), *final(self), r is Ok),
            outcome(g_primary(old(self).text(), old(self).pstate()), r is Ok, r->Ok_0@, final(self).pstate(), r->Err_0@),
            !(old(self).lookahead() is Num || old(self).lookahead() is Str || old(self).lookahead() is Ident)
                ==> *final(self) == *old(self) && r is Err && r->Err_0@ == found_message(
                "unexpected primary "@,
                old(self).lookahead(),
            ),
    {
        match &self.cur {
            Token::Num(n) => {
                let v = *n;
                self.bump()?;
                Ok(Expr::Num(v))
            },
            Token::Str(s) => {
                let lit = s.clone();
                self.bump()?;
                Ok(Expr::Str(lit))
            },
            Token::Ident(_) => {
                let name = self.expect_ident()?;
                Ok(Expr::Var(name))
            },
            _ => {
                let mut m = String::from_str("unexpected primary ");
                m.append(describe(&self.cur).as_str());
                Err(m)
            },
        }
    }
}

/// Relies on `format!` with the derived `Debug` of `Token`, for the text of
/// error messages.
#[verifier::external_body]
fn describe(t: &Token) -> (r: String)
    ensures
        r@ == debug_text(t@),
{
    format!("{:?}", t)
}



} // verus!
