use c4::ast::{BinOp, Block, EnumDecl, Expr, Item, Program, Stmt, Type, UnOp};
use c4::parser::Parser;

/// Parses a whole program, or panics.
fn parse_to_ast(src: &str) -> Program {
    Parser::new(src)
        .and_then(|mut p| p.parse_program())
        .expect("parsing failed")
}

#[test]
fn parse_global_and_enum_decls() {
    let src = r#"
        int a, b;
        enum { X = 1, Y, Z = 5 };
        char *p;
    "#;
    let Program { items } = parse_to_ast(src);
    assert!(matches!(items[0], Item::Global(_)));
    assert!(matches!(items[2], Item::Enum(_)));
    assert!(matches!(items[3], Item::Global(_)));

    if let Item::Enum(EnumDecl { variants }) = &items[2] {
        assert_eq!(variants.len(), 3);
        assert_eq!(variants[0], ("X".into(), Some(1)));
        assert_eq!(variants[1], ("Y".into(), None));
        assert_eq!(variants[2], ("Z".into(), Some(5)));
    } else {
        panic!("expected enum declaration");
    }
}

#[test]
fn parse_function_and_statements() {
    let src = r#"
        void foo(int x, char y) {
            ;                // empty stmt
            {
                int z;
                z = x + y;
            }
            if (z > 0) z--;
            else ++z;
            while (x != 0) { x = x - 1; }
            return;
        }
    "#;
    let Program { items } = parse_to_ast(src);
    let func = match &items[0] {
        Item::Function(f) => f,
        _ => panic!("expected function"),
    };

    assert_eq!(func.ret, Type::Void);
    assert_eq!(func.params, vec![("x".into(), Type::Int), ("y".into(), Type::Char)]);
    assert_eq!(func.body.stmts.len(), 6);

    assert!(matches!(func.body.stmts[0], Stmt::Empty));

    if let Stmt::Block(Block { stmts }) = &func.body.stmts[1] {
        assert!(matches!(stmts[0], Stmt::Expr(_)));
    } else {
        panic!("expected nested block");
    }

    if let Stmt::If { cond, then_branch, else_branch } = &func.body.stmts[2] {
        assert!(matches!(*cond, Expr::Binary { op: BinOp::Gt, .. }));
        assert!(matches!(**then_branch, Stmt::Expr(_)));
        assert!(matches!(else_branch.as_deref(), Some(Stmt::Expr(_))));
    } else {
        panic!("expected if stmt");
    }

    assert!(matches!(func.body.stmts[3], Stmt::While { .. }));

    assert!(matches!(func.body.stmts[4], Stmt::Return(None)));
}

#[test]
fn parse_unary_and_postfix_ops() {
    let src = r#"
        int u() {
          return +x - !y * ~z & *p | &q;
        }
    "#;
    let Program { items } = parse_to_ast(src);
    let body = match &items[0] { Item::Function(f) => &f.body, _ => panic!() };
    if let Stmt::Return(Some(expr)) = &body.stmts[0] {
        assert!(matches!(expr, Expr::Binary { op: BinOp::BitOr, .. }));
    } else {
        panic!("expected return expr");
    }

    let src2 = "int p() { return a++ + --b; }";
    let Program { items } = parse_to_ast(src2);
    let expr = if let Stmt::Return(Some(e)) = &match &items[0] { Item::Function(f) => &f.body.stmts[0], _ => panic!() } { e } else { panic!() };
    if let Expr::Binary { left, right, .. } = expr {
        assert!(matches!(**left, Expr::Unary { op: UnOp::PostInc, .. }));
        assert!(matches!(**right, Expr::Unary { op: UnOp::PreDec, .. }));
    } else {
        panic!("expected binary");
    }
}

#[test]
fn parse_sizeof_and_cast() {
    let src = "int c() { return sizeof(int) + sizeof(char*) + (char*)p; }";
    let Program { items } = parse_to_ast(src);
    let expr = if let Stmt::Return(Some(e)) = &match &items[0] { Item::Function(f) => &f.body.stmts[0], _ => panic!() } { e } else { panic!() };
    let found_sizeof = format!("{:?}", expr).contains("SizeOf");
    let found_cast = format!("{:?}", expr).contains("Cast");
    assert!(found_sizeof && found_cast);
}

#[test]
fn parse_shifts_and_bitwise() {
    let src = "int s() { return a << 2 >> 1 & b | c ^ d; }";
    let Program { items } = parse_to_ast(src);
    let expr = if let Stmt::Return(Some(e)) = &match &items[0] { Item::Function(f) => &f.body.stmts[0], _ => panic!() } { e } else { panic!() };
    let repr = format!("{:?}", expr);
    assert!(repr.contains("Shl") && repr.contains("Shr") && repr.contains("BitAnd"));
    assert!(repr.contains("BitOr") && repr.contains("Xor"));
}

#[test]
fn parse_ternary_and_logical() {
    // `?:` binds below `||` and `&&`: the else branch takes `c && d || e`.
    let src = "int t() { return a ? b : c && d || e; }";
    let Program { items } = parse_to_ast(src);
    let stmt = &match &items[0] { Item::Function(f) => &f.body.stmts[0], _ => panic!() };
    if let Stmt::Return(Some(Expr::Conditional { cond, then_expr, else_expr })) = stmt {
        assert!(matches!(**cond, Expr::Var(ref s) if s == "a"));
        assert!(matches!(**then_expr, Expr::Var(ref s) if s == "b"));
        if let Expr::Binary { op: BinOp::LogOr, left, right } = &**else_expr {
            assert!(matches!(**right, Expr::Var(ref s) if s == "e"));
            assert!(matches!(**left, Expr::Binary { op: BinOp::LogAnd, .. }));
        } else {
            panic!("expected logical OR in the else branch");
        }
    } else {
        panic!("expected conditional at top");
    }
}

#[test]
fn logical_or_is_the_condition_of_a_ternary() {
    let Program { items } = parse_to_ast("int t() { return a || b ? c : d; }");
    let stmt = match &items[0] { Item::Function(f) => &f.body.stmts[0], _ => panic!() };
    if let Stmt::Return(Some(Expr::Conditional { cond, .. })) = stmt {
        assert!(matches!(**cond, Expr::Binary { op: BinOp::LogOr, .. }));
    } else {
        panic!("expected conditional at top");
    }
}

#[test]
fn parse_indexing_and_calls_and_strings() {
    let src = r#"
      int w() {
        return foo("hi\n", arr[0], x * y);
      }
    "#;
    let Program { items } = parse_to_ast(src);
    let stmt = &match &items[0] { Item::Function(f) => &f.body.stmts[0], _ => panic!() };
    if let Stmt::Return(Some(Expr::Call { callee, args })) = stmt {
        assert!(matches!(**callee, Expr::Var(ref s) if s == "foo"));
        assert!(matches!(args[0], Expr::Str(_)));
        assert!(matches!(args[1], Expr::Index { .. }));
        assert!(matches!(args[2], Expr::Binary { op: BinOp::Mul, .. }));
    } else {
        panic!("expected call in return");
    }
}

#[test]
fn syntax_error_reports_expected_and_found() {
    let err = Parser::new("int main( { }")
        .and_then(|mut p| p.parse_program())
        .unwrap_err();
    assert!(err.contains("expected"), "{}", err);
}

#[test]
fn non_literal_enum_initializer_is_rejected() {
    let err = Parser::new("enum { A = b };")
        .and_then(|mut p| p.parse_program())
        .unwrap_err();
    assert_eq!(err, "enum initializer must be a number");
}

#[test]
fn lexical_error_surfaces_from_the_parser() {
    let err = Parser::new("int x @;")
        .and_then(|mut p| p.parse_program())
        .unwrap_err();
    assert!(err.contains("@"));
}

#[test]
fn subtraction_is_left_associative_and_binds_below_multiplication() {
    let Program { items } = parse_to_ast("int f() { return 10 - 3 - 2 * 4; }");
    let stmt = match &items[0] { Item::Function(f) => &f.body.stmts[0], _ => panic!() };
    if let Stmt::Return(Some(Expr::Binary { op: BinOp::Sub, left, right })) = stmt {
        assert!(matches!(**left, Expr::Binary { op: BinOp::Sub, .. }));
        assert!(matches!(**right, Expr::Binary { op: BinOp::Mul, .. }));
    } else {
        panic!("expected subtraction at top");
    }
}

#[test]
fn assignment_is_right_associative() {
    let Program { items } = parse_to_ast("int f() { a = b = 3; }");
    let stmt = match &items[0] { Item::Function(f) => &f.body.stmts[0], _ => panic!() };
    if let Stmt::Expr(Expr::Binary { op: BinOp::Assign, left, right }) = stmt {
        assert!(matches!(**left, Expr::Var(ref s) if s == "a"));
        assert!(matches!(**right, Expr::Binary { op: BinOp::Assign, .. }));
    } else {
        panic!("expected assignment");
    }
}

#[test]
fn locals_are_collected_and_pointer_types_nest() {
    let Program { items } = parse_to_ast("char **f(int n) { int a, b; char c; return n; }");
    match &items[0] {
        Item::Function(f) => {
            assert_eq!(f.ret, Type::Ptr(Box::new(Type::Ptr(Box::new(Type::Char)))));
            assert_eq!(f.locals, vec![("a".into(), Type::Int), ("b".into(), Type::Int), ("c".into(), Type::Char)]);
            assert_eq!(f.body.stmts.len(), 2);
        }
        _ => panic!("expected function"),
    }
}

fn parse_error(src: &str) -> String {
    Parser::new(src).and_then(|mut p| p.parse_program()).unwrap_err()
}

#[test]
fn lexical_error_in_the_middle_returns_the_lexer_message() {
    assert_eq!(parse_error("int @;"), "Unexpected character '@'");
    assert_eq!(parse_error("int main() { return 1 $ 2; }"), "Unexpected character '$'");
}

#[test]
fn syntax_errors_name_expected_and_found_tokens() {
    assert_eq!(parse_error("int main( { }"), "expected type, got LBrace");
    assert_eq!(parse_error("x y;"), "expected type, got Ident(\"x\")");
    assert_eq!(parse_error("int x"), "expected Semicolon, got Eof");
    assert_eq!(parse_error("int 5;"), "expected identifier, got Num(5)");
    assert_eq!(parse_error("int f() { return ; ; } int g() { return ); }"), "unexpected primary RParen");
}
