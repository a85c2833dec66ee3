//! The syntax tree: a program is a list of items; statements and expressions
//! own their sub-trees exclusively.

use vstd::prelude::*;

verus! {

/// A whole program: its top-level items in order.
#[derive(Debug, PartialEq)]
pub struct Program {
    pub items: Vec<Item>,
}

/// A top-level item.
#[derive(Debug, PartialEq)]
pub enum Item {
    Global(GlobalDecl),
    Function(FuncDef),
    Enum(EnumDecl),
}

/// One global variable; `int a, b;` gives one of these per name.
#[derive(Debug, PartialEq)]
pub struct GlobalDecl {
    pub name: String,
    pub ty: Type,
}

/// An anonymous enum: each name with its optional literal initializer.
#[derive(Debug, PartialEq)]
pub struct EnumDecl {
    pub variants: Vec<(String, Option<i64>)>,
}

/// A function definition.
#[derive(Debug, PartialEq)]
pub struct FuncDef {
    pub ret: Type,
    pub name: String,
    pub params: Vec<(String, Type)>,
    pub locals: Vec<(String, Type)>,
    pub body: Block,
}

/// A braced sequence of statements.
#[derive(Debug, PartialEq)]
pub struct Block {
    pub stmts: Vec<Stmt>,
}

#[derive(Debug, PartialEq)]
pub enum Stmt {
    If { cond: Expr, then_branch: Box<Stmt>, else_branch: Option<Box<Stmt>> },
    While { cond: Expr, body: Box<Stmt> },
    Return(Option<Expr>),
    /// an expression evaluated for its effect
    Expr(Expr),
    Block(Block),
    /// `;`
    Empty,
}

#[derive(Debug, PartialEq)]
pub enum Expr {
    Num(i64),
    Str(String),
    Var(String),
    Unary { op: UnOp, expr: Box<Expr> },
    Binary { op: BinOp, left: Box<Expr>, right: Box<Expr> },
    Call { callee: Box<Expr>, args: Vec<Expr> },
    Cast { ty: Type, expr: Box<Expr> },
    SizeOf(Type),
    Conditional { cond: Box<Expr>, then_expr: Box<Expr>, else_expr: Box<Expr> },
    /// `array[index]`
    Index { array: Box<Expr>, index: Box<Expr> },
}

#[derive(Debug, Clone, Copy, PartialEq, Eq, Structural)]
pub enum BinOp {
    /// `=`
    Assign,
    Add,
    Sub,
    Mul,
    Div,
    Mod,
    Eq,
    Ne,
    Lt,
    Le,
    Gt,
    Ge,
    /// `&`
    BitAnd,
    /// `|`
    BitOr,
    /// `^`
    Xor,
    Shl,
    Shr,
    /// `&&`
    LogAnd,
    /// `||`
    LogOr,
}

#[derive(Debug, Clone, Copy, PartialEq, Eq, Structural)]
pub enum UnOp {
    PreInc,
    PreDec,
    PostInc,
    PostDec,
    Plus,
    Neg,
    Not,
    BitNot,
    Deref,
    Addr,
}

/// An expression with its names and string literals seen as character
/// sequences.
pub enum ExprView {
    Num(i64),
    Str(Seq<char>),
    Var(Seq<char>),
    Unary(UnOp, Box<ExprView>),
    Binary(BinOp, Box<ExprView>, Box<ExprView>),
    Call(Box<ExprView>, Seq<ExprView>),
    Cast(Type, Box<ExprView>),
    SizeOf(Type),
    Conditional(Box<ExprView>, Box<ExprView>, Box<ExprView>),
    Index(Box<ExprView>, Box<ExprView>),
}

pub open spec fn expr_view(e: Expr) -> ExprView
    decreases e, 1int, 0int,
{
    match e {
        Expr::Num(n) => ExprView::Num(n),
        Expr::Str(t) => ExprView::Str(t@),
        Expr::Var(t) => ExprView::Var(t@),
        Expr::Unary { op, expr } => ExprView::Unary(op, Box::new(expr_view(*expr))),
        Expr::Binary { op, left, right } => ExprView::Binary(
            op,
            Box::new(expr_view(*left)),
            Box::new(expr_view(*right)),
        ),
        Expr::Call { callee, args } => ExprView::Call(
            Box::new(expr_view(*callee)),
            args_view(e, 0),
        ),
        Expr::Cast { ty, expr } => ExprView::Cast(ty, Box::new(expr_view(*expr))),
        Expr::SizeOf(ty) => ExprView::SizeOf(ty),
        Expr::Conditional { cond, then_expr, else_expr } => ExprView::Conditional(
            Box::new(expr_view(*cond)),
            Box::new(expr_view(*then_expr)),
            Box::new(expr_view(*else_expr)),
        ),
        Expr::Index { array, index } => ExprView::Index(
            Box::new(expr_view(*array)),
            Box::new(expr_view(*index)),
        ),
    }
}

/// The views of the arguments of call `e` from the `i`-th on.
pub open spec fn args_view(e: Expr, i: int) -> Seq<ExprView>
    decreases e, 0int, if e is Call && 0 <= i <= e->Call_args.len() {
        e->Call_args.len() - i
    } else {
        0
    },
{
    match e {
        Expr::Call { callee, args } => if 0 <= i < args.len() {
            seq![expr_view(args[i])] + args_view(e, i + 1)
        } else {
            seq![]
        },
        _ => seq![],
    }
}

impl View for Expr {
    type V = ExprView;

    open spec fn view(&self) -> ExprView {
        expr_view(*self)
    }
}

/// The arguments of a call, viewed one by one.
pub proof fn lemma_args_view(e: Expr, i: int)
    requires
        e is Call,
        0 <= i <= e->Call_args.len(),
    ensures
        args_view(e, i) == Seq::new(
            (e->Call_args.len() - i) as nat,
            |k: int| expr_view(e->Call_args@[i + k]),
        ),
    decreases e->Call_args.len() - i,
{
    if i < e->Call_args.len() {
        lemma_args_view(e, i + 1);
        assert(args_view(e, i) =~= Seq::new(
            (e->Call_args.len() - i) as nat,
            |k: int| expr_view(e->Call_args@[i + k]),
        ));
    } else {
        assert(args_view(e, i) =~= Seq::new(
            (e->Call_args.len() - i) as nat,
            |k: int| expr_view(e->Call_args@[i + k]),
        ));
    }
}

/// A statement with its expressions viewed.
pub enum StmtView {
    If(ExprView, Box<StmtView>, Option<Box<StmtView>>),
    While(ExprView, Box<StmtView>),
    Return(Option<ExprView>),
    Expr(ExprView),
    Block(Seq<StmtView>),
    Empty,
}

pub open spec fn stmt_view(s: Stmt) -> StmtView
    decreases s, 1int, 0int,
{
    match s {
        Stmt::If { cond, then_branch, else_branch } => StmtView::If(
            cond@,
            Box::new(stmt_view(*then_branch)),
            match else_branch {
                Some(b) => Some(Box::new(stmt_view(*b))),
                None => None,
            },
        ),
        Stmt::While { cond, body } => StmtView::While(cond@, Box::new(stmt_view(*body))),
        Stmt::Return(value) => StmtView::Return(
            match value {
                Some(e) => Some(e@),
                None => None,
            },
        ),
        Stmt::Expr(e) => StmtView::Expr(e@),
        Stmt::Block(b) => StmtView::Block(block_view(s, 0)),
        Stmt::Empty => StmtView::Empty,
    }
}

/// The views of the statements of block statement `s` from the `i`-th on.
pub open spec fn block_view(s: Stmt, i: int) -> Seq<StmtView>
    decreases s, 0int, if s is Block && 0 <= i <= s->Block_0.stmts.len() {
        s->Block_0.stmts.len() - i
    } else {
        0
    },
{
    match s {
        Stmt::Block(b) => if 0 <= i < b.stmts.len() {
            seq![stmt_view(b.stmts[i])] + block_view(s, i + 1)
        } else {
            seq![]
        },
        _ => seq![],
    }
}

impl View for Stmt {
    type V = StmtView;

    open spec fn view(&self) -> StmtView {
        stmt_view(*self)
    }
}

/// The statements of a block, viewed one by one.
pub proof fn lemma_block_view(s: Stmt, i: int)
    requires
        s is Block,
        0 <= i <= s->Block_0.stmts.len(),
    ensures
        block_view(s, i) == Seq::new(
            (s->Block_0.stmts.len() - i) as nat,
            |k: int| stmt_view(s->Block_0.stmts@[i + k]),
        ),
    decreases s->Block_0.stmts.len() - i,
{
    if i < s->Block_0.stmts.len() {
        lemma_block_view(s, i + 1);
    }
    assert(block_view(s, i) =~= Seq::new(
        (s->Block_0.stmts.len() - i) as nat,
        |k: int| stmt_view(s->Block_0.stmts@[i + k]),
    ));
}

/// A function definition with its names and statements viewed.
pub struct FuncView {
    pub ret: Type,
    pub name: Seq<char>,
    pub params: Seq<(Seq<char>, Type)>,
    pub locals: Seq<(Seq<char>, Type)>,
    pub body: Seq<StmtView>,
}

/// A top-level item with its names viewed.
pub enum ItemView {
    Global(Seq<char>, Type),
    Function(FuncView),
    Enum(Seq<(Seq<char>, Option<i64>)>),
}

/// Names with their types, viewed.
pub open spec fn decls_view(ds: Seq<(String, Type)>) -> Seq<(Seq<char>, Type)> {
    Seq::new(ds.len(), |k: int| (ds[k].0@, ds[k].1))
}

pub open spec fn func_view(f: FuncDef) -> FuncView {
    FuncView {
        ret: f.ret,
        name: f.name@,
        params: decls_view(f.params@),
        locals: decls_view(f.locals@),
        body: Seq::new(f.body.stmts@.len(), |k: int| f.body.stmts@[k]@),
    }
}

pub open spec fn item_view(item: Item) -> ItemView {
    match item {
        Item::Global(g) => ItemView::Global(g.name@, g.ty),
        Item::Function(f) => ItemView::Function(func_view(f)),
        Item::Enum(e) => ItemView::Enum(
            Seq::new(e.variants@.len(), |k: int| (e.variants@[k].0@, e.variants@[k].1)),
        ),
    }
}

impl View for Item {
    type V = ItemView;

    open spec fn view(&self) -> ItemView {
        item_view(*self)
    }
}

impl View for Program {
    type V = Seq<ItemView>;

    open spec fn view(&self) -> Seq<ItemView> {
        Seq::new(self.items@.len(), |k: int| self.items@[k]@)
    }
}

/// `void`, `int`, `char`, or a pointer to a type.
#[derive(Debug, PartialEq)]
pub enum Type {
    Void,
    Int,
    Char,
    Ptr(Box<Type>),
}

impl Type {
    /// A copy of this type.
    pub fn duplicate(&self) -> (r: Type)
        ensures
            r == *self,
        decreases self,
    {
        match self {
            Type::Void => Type::Void,
            Type::Int => Type::Int,
            Type::Char => Type::Char,
            Type::Ptr(inner) => Type::Ptr(Box::new(inner.duplicate())),
        }
    }
}

impl Clone for Type {
    fn clone(&self) -> (r: Type)
        ensures
            r == *self,
    {
        self.duplicate()
    }
}

} // verus!
