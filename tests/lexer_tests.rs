use c4::lexer::{LexError, Lexer, Token};

/// Lexes `input` and checks that it yields `expected`, then the end marker.
fn expect_tokens(input: &str, expected: Vec<Token>) {
    let mut lx = Lexer::new(input);
    for tok in expected {
        assert_eq!(lx.next_token().unwrap(), tok);
    }
    assert_eq!(lx.next_token().unwrap(), Token::Eof);
}

#[test]
fn lex_decimal_numbers() {
    expect_tokens("0 123 45678", vec![Token::Num(0), Token::Num(123), Token::Num(45678)]);
}

#[test]
fn lex_identifiers_and_keywords() {
    expect_tokens("foo _bar2", vec![Token::Ident("foo".into()), Token::Ident("_bar2".into())]);
    expect_tokens(
        "if else while return sizeof char enum int",
        vec![
            Token::KwIf, Token::KwElse, Token::KwWhile,
            Token::KwReturn, Token::KwSizeof,
            Token::KwChar, Token::KwEnum, Token::KwInt,
        ],
    );
}

#[test]
fn lex_single_char_operators() {
    expect_tokens(
        "+ - * / %",
        vec![Token::Plus, Token::Minus, Token::Star, Token::Slash, Token::Percent],
    );
}

#[test]
fn lex_two_char_operators() {
    expect_tokens(
        "== != <= >= && || << >> ++ --",
        vec![
            Token::EqEq, Token::Ne, Token::Le, Token::Ge,
            Token::AndAnd, Token::OrOr, Token::Shl, Token::Shr,
            Token::Inc, Token::Dec,
        ],
    );
}

#[test]
fn lex_assign_and_bitwise() {
    expect_tokens("= & | ^", vec![Token::Assign, Token::And, Token::Or, Token::Xor]);
}

#[test]
fn lex_comparisons() {
    expect_tokens("< >", vec![Token::Lt, Token::Gt]);
}

#[test]
fn lex_punctuation() {
    expect_tokens(
        "; , ( ) { } [ ] ? :",
        vec![
            Token::Semicolon, Token::Comma,
            Token::LParen, Token::RParen,
            Token::LBrace, Token::RBrace,
            Token::LBracket, Token::RBracket,
            Token::Question, Token::Colon,
        ],
    );
}

#[test]
fn lex_string_literal() {
    let mut lx = Lexer::new(r#""hello\nworld""#);
    assert_eq!(lx.next_token().unwrap(), Token::Str("hello\nworld".into()));
    assert_eq!(lx.next_token().unwrap(), Token::Eof);
}

#[test]
fn lex_char_literal() {
    let mut lx = Lexer::new(r" 'a' '\n' ");
    assert_eq!(lx.next_token().unwrap(), Token::Num('a' as i64));
    assert_eq!(lx.next_token().unwrap(), Token::Num('\n' as i64));
    assert_eq!(lx.next_token().unwrap(), Token::Eof);
}

#[test]
fn skip_comments_and_whitespace() {
    let src = "  // this is a comment\n  42 // another\n+\n";
    let mut lx = Lexer::new(src);
    assert_eq!(lx.next_token().unwrap(), Token::Num(42));
    assert_eq!(lx.next_token().unwrap(), Token::Plus);
    assert_eq!(lx.next_token().unwrap(), Token::Eof);
}

#[test]
fn error_unexpected_character() {
    let mut lx = Lexer::new("@");
    match lx.next_token() {
        Err(LexError(msg)) => assert!(msg.contains("@")),
        Ok(tok) => panic!("Expected error, got {:?}", tok),
    }
}

#[test]
fn lex_octal_numbers() {
    expect_tokens("0 0755", vec![Token::Num(0), Token::Num(0o755)]);
}

#[test]
fn error_hex_numbers() {
    let mut lx1 = Lexer::new("0x1A3F");
    assert!(lx1.next_token().is_err());
    let mut lx2 = Lexer::new("0XdeadBEEF");
    assert!(lx2.next_token().is_err());
}

#[test]
fn skip_preprocessor_lines() {
    let src = "#define X 42\n  X";
    let mut lx = Lexer::new(src);
    assert_eq!(lx.next_token().unwrap(), Token::Ident("X".into()));
    assert_eq!(lx.next_token().unwrap(), Token::Eof);
}

#[test]
fn lex_adjacent_tokens() {
    expect_tokens(
        "foo(bar)+123;",
        vec![
            Token::Ident("foo".into()),
            Token::LParen, Token::Ident("bar".into()), Token::RParen,
            Token::Plus, Token::Num(123), Token::Semicolon,
        ],
    );
}

#[test]
fn lex_string_with_quotes_and_backslashes() {
    let s = r#""She said: \"Hi!\" and \\OK\\\""#;
    let mut lx = Lexer::new(s);
    assert_eq!(
        lx.next_token().unwrap(),
        Token::Str("She said: \"Hi!\" and \\OK\\\"".into())
    );
    assert_eq!(lx.next_token().unwrap(), Token::Eof);
}

#[test]
fn lex_unterminated_string() {
    let mut lx = Lexer::new("\"no end");
    assert_eq!(lx.next_token().unwrap(), Token::Str("no end".into()));
    assert_eq!(lx.next_token().unwrap(), Token::Eof);
}

#[test]
fn octal_literal_equals_its_decimal_value() {
    let mut a = Lexer::new("0755");
    let mut b = Lexer::new("493");
    assert_eq!(a.next_token().unwrap(), b.next_token().unwrap());
    assert_eq!(Lexer::new("0755").next_token().unwrap(), Token::Num(493));
}

#[test]
fn relexing_gives_the_same_sequence() {
    let src = "int main() { return 'x' + 0755 - foo[2]; } @ \"s\"";
    let mut a = Lexer::new(src);
    let mut b = Lexer::new(src);
    for _ in 0..20 {
        match (a.next_token(), b.next_token()) {
            (Ok(x), Ok(y)) => assert_eq!(x, y),
            (Err(LexError(x)), Err(LexError(y))) => assert_eq!(x, y),
            (x, y) => panic!("diverged: {:?} / {:?}", x, y),
        }
    }
}

#[test]
fn end_of_input_is_returned_forever() {
    let mut lx = Lexer::new("x // trailing comment");
    assert_eq!(lx.next_token().unwrap(), Token::Ident("x".into()));
    for _ in 0..5 {
        assert_eq!(lx.next_token().unwrap(), Token::Eof);
    }
}

#[test]
fn unexpected_character_message_names_it() {
    let mut lx = Lexer::new("a $ b");
    assert_eq!(lx.next_token().unwrap(), Token::Ident("a".into()));
    match lx.next_token() {
        Err(LexError(msg)) => assert_eq!(msg, "Unexpected character '$'"),
        Ok(tok) => panic!("Expected error, got {:?}", tok),
    }
    assert_eq!(lx.next_token().unwrap(), Token::Ident("b".into()));
}

#[test]
fn number_too_large_is_an_error() {
    let mut lx = Lexer::new("9223372036854775807 9223372036854775808");
    assert_eq!(lx.next_token().unwrap(), Token::Num(i64::MAX));
    assert!(lx.next_token().is_err());
    assert_eq!(lx.next_token().unwrap(), Token::Eof);
}

#[test]
fn unterminated_char_literal_is_an_error() {
    assert!(Lexer::new("'").next_token().is_err());
    assert!(Lexer::new("'\\").next_token().is_err());
    assert_eq!(Lexer::new("'\\'").next_token().unwrap(), Token::Num('\'' as i64));
}

#[test]
fn zero_followed_by_nine_is_two_numbers() {
    expect_tokens("09", vec![Token::Num(0), Token::Num(9)]);
}

#[test]
fn hash_only_starts_a_line_of_its_own() {
    let mut lx = Lexer::new("x #y\n");
    assert_eq!(lx.next_token().unwrap(), Token::Ident("x".into()));
    match lx.next_token() {
        Err(LexError(msg)) => assert_eq!(msg, "Unexpected character '#'"),
        Ok(tok) => panic!("Expected error, got {:?}", tok),
    }
    expect_tokens("  #include <x>\n// c\n#define A\nz", vec![Token::Ident("z".into())]);
}
