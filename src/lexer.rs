//! Lexer: turns source text into tokens, one at a time.
//!
//! The meaning of the lexer is given by `lex_next`, a function from the text
//! and a position to the next token (or error message) and the position after
//! it; `Lexer::next_token` is proved to compute exactly that.
//!
//! A `#` is trivia only as the first non-blank character of a line (a
//! preprocessor line, skipped to its end); elsewhere it is an unexpected
//! character.
//!
//! Numeric literals: decimal, and octal after a leading `0`. A literal that
//! starts with `0x` or `0X` is scanned as one unit and rejected: hexadecimal
//! literals are not part of this dialect. An unterminated string literal yields
//! the characters read so far.

use vstd::prelude::*;
use vstd::string::*;

verus! {

#[derive(Debug)]
pub enum Token {
    /// integer literal; character literals are folded into this too
    Num(i64),
    /// identifier
    Ident(String),
    /// string literal, escapes processed
    Str(String),
    /// character literal (the lexer folds these into `Num`)
    Char(char),
    KwVoid,
    KwInt,
    KwChar,
    KwEnum,
    KwIf,
    KwElse,
    KwWhile,
    KwReturn,
    KwSizeof,
    Plus,
    Minus,
    Star,
    Slash,
    Percent,
    /// `=`
    Assign,
    /// `==`
    EqEq,
    /// `!`
    Not,
    /// `!=`
    Ne,
    Lt,
    Le,
    Gt,
    Ge,
    /// `&`
    And,
    /// `&&`
    AndAnd,
    /// `|`
    Or,
    /// `||`
    OrOr,
    /// `^`
    Xor,
    Shl,
    Shr,
    /// `++`
    Inc,
    /// `--`
    Dec,
    /// `~`
    Tilde,
    Question,
    Colon,
    Semicolon,
    Comma,
    LParen,
    RParen,
    LBrace,
    RBrace,
    LBracket,
    RBracket,
    /// end of input
    Eof,
}

/// A token with its text seen as a sequence of characters.
pub enum TokenView {
    Num(i64),
    Ident(Seq<char>),
    Str(Seq<char>),
    Char(char),
    /// a token without payload: keyword, operator, punctuation or end of input
    Fixed(Token),
}

impl View for Token {
    type V = TokenView;

    open spec fn view(&self) -> TokenView {
        match self {
            Token::Num(n) => TokenView::Num(*n),
            Token::Ident(s) => TokenView::Ident(s@),
            Token::Str(s) => TokenView::Str(s@),
            Token::Char(c) => TokenView::Char(*c),
            _ => TokenView::Fixed(*self),
        }
    }
}

impl PartialEq for Token {
    fn eq(&self, o: &Token) -> bool {
        match self {
            Token::Num(a) => match o {
                Token::Num(b) => *a == *b,
                _ => false,
            },
            Token::Ident(a) => match o {
                Token::Ident(b) => *a == *b,
                _ => false,
            },
            Token::Str(a) => match o {
                Token::Str(b) => *a == *b,
                _ => false,
            },
            Token::Char(a) => match o {
                Token::Char(b) => *a == *b,
                _ => false,
            },
            Token::KwVoid => matches!(o, Token::KwVoid),
            Token::KwInt => matches!(o, Token::KwInt),
            Token::KwChar => matches!(o, Token::KwChar),
            Token::KwEnum => matches!(o, Token::KwEnum),
            Token::KwIf => matches!(o, Token::KwIf),
            Token::KwElse => matches!(o, Token::KwElse),
            Token::KwWhile => matches!(o, Token::KwWhile),
            Token::KwReturn => matches!(o, Token::KwReturn),
            Token::KwSizeof => matches!(o, Token::KwSizeof),
            Token::Plus => matches!(o, Token::Plus),
            Token::Minus => matches!(o, Token::Minus),
            Token::Star => matches!(o, Token::Star),
            Token::Slash => matches!(o, Token::Slash),
            Token::Percent => matches!(o, Token::Percent),
            Token::Assign => matches!(o, Token::Assign),
            Token::EqEq => matches!(o, Token::EqEq),
            Token::Not => matches!(o, Token::Not),
            Token::Ne => matches!(o, Token::Ne),
            Token::Lt => matches!(o, Token::Lt),
            Token::Le => matches!(o, Token::Le),
            Token::Gt => matches!(o, Token::Gt),
            Token::Ge => matches!(o, Token::Ge),
            Token::And => matches!(o, Token::And),
            Token::AndAnd => matches!(o, Token::AndAnd),
            Token::Or => matches!(o, Token::Or),
            Token::OrOr => matches!(o, Token::OrOr),
            Token::Xor => matches!(o, Token::Xor),
            Token::Shl => matches!(o, Token::Shl),
            Token::Shr => matches!(o, Token::Shr),
            Token::Inc => matches!(o, Token::Inc),
            Token::Dec => matches!(o, Token::Dec),
            Token::Tilde => matches!(o, Token::Tilde),
            Token::Question => matches!(o, Token::Question),
            Token::Colon => matches!(o, Token::Colon),
            Token::Semicolon => matches!(o, Token::Semicolon),
            Token::Comma => matches!(o, Token::Comma),
            Token::LParen => matches!(o, Token::LParen),
            Token::RParen => matches!(o, Token::RParen),
            Token::LBrace => matches!(o, Token::LBrace),
            Token::RBrace => matches!(o, Token::RBrace),
            Token::LBracket => matches!(o, Token::LBracket),
            Token::RBracket => matches!(o, Token::RBracket),
            Token::Eof => matches!(o, Token::Eof),
        }
    }
}

impl vstd::std_specs::cmp::PartialEqSpecImpl for Token {
    open spec fn obeys_eq_spec() -> bool {
        true
    }

    /// Two tokens are equal when they are the same token with the same text.
    open spec fn eq_spec(&self, o: &Token) -> bool {
        self@ == o@
    }
}

/// A lexical error, with its message.
#[derive(Debug)]
pub struct LexError(pub String);

// ---------------------------------------------------------------------------
// Character classes

/// Whitespace as Unicode's White_Space property lists it.
pub open spec fn is_space(c: char) -> bool {
    let u = c as u32;
    u == 0x20 || (0x09 <= u && u <= 0x0d) || u == 0x85 || u == 0xa0 || u == 0x1680 || (0x2000
        <= u && u <= 0x200a) || u == 0x2028 || u == 0x2029 || u == 0x202f || u == 0x205f || u
        == 0x3000
}

pub open spec fn is_digit(c: char) -> bool {
    '0' as u32 <= c as u32 && c as u32 <= '9' as u32
}

pub open spec fn is_alpha(c: char) -> bool {
    ('a' as u32 <= c as u32 && c as u32 <= 'z' as u32) || ('A' as u32 <= c as u32 && c as u32
        <= 'Z' as u32)
}

pub open spec fn is_ident_start(c: char) -> bool {
    is_alpha(c) || c == '_'
}

/// The character sets that a literal or a word is scanned over.
#[derive(Clone, Copy)]
pub enum Charset {
    Decimal,
    Octal,
    Hex,
    Word,
}

pub open spec fn in_charset(k: Charset, c: char) -> bool {
    let u = c as u32;
    match k {
        Charset::Decimal => is_digit(c),
        Charset::Octal => '0' as u32 <= u && u <= '7' as u32,
        Charset::Hex => is_digit(c) || ('a' as u32 <= u && u <= 'f' as u32) || ('A' as u32 <= u
            && u <= 'F' as u32),
        Charset::Word => is_alpha(c) || is_digit(c) || c == '_',
    }
}

// ---------------------------------------------------------------------------
// Scanning

/// The end of the longest run of characters of `k` that starts at `i`.
pub open spec fn span_end(s: Seq<char>, i: int, k: Charset) -> int
    decreases s.len() - i,
{
    if i < 0 || i >= s.len() || !in_charset(k, s[i]) {
        i
    } else {
        span_end(s, i + 1, k)
    }
}

/// Skips whitespace, `//` comments and preprocessor lines from `i`. `bol`
/// says whether only whitespace stands between the start of the line and `i`:
/// a `#` there begins a preprocessor line; anywhere else it is not trivia.
pub open spec fn skip_trivia(s: Seq<char>, i: int, bol: bool) -> int
    decreases s.len() - i, 1int,
{
    if i < 0 || i >= s.len() {
        i
    } else if is_space(s[i]) {
        skip_trivia(s, i + 1, bol || s[i] == '\n')
    } else if s[i] == '/' && i + 1 < s.len() && s[i + 1] == '/' {
        skip_line(s, i + 2)
    } else if s[i] == '#' && bol {
        skip_line(s, i + 1)
    } else {
        i
    }
}

/// Whether position `pos` is at the start of a line.
pub open spec fn line_start(s: Seq<char>, pos: int) -> bool {
    pos <= 0 || (pos <= s.len() && s[pos - 1] == '\n')
}

/// Where the trivia from `pos` ends.
pub open spec fn trivia_end(s: Seq<char>, pos: int) -> int {
    skip_trivia(s, pos, line_start(s, pos))
}

/// Skips the rest of a line, its newline included, then goes on skipping trivia.
pub open spec fn skip_line(s: Seq<char>, i: int) -> int
    decreases s.len() - i, 0int,
{
    if i < 0 || i >= s.len() {
        i
    } else if s[i] == '\n' {
        skip_trivia(s, i + 1, true)
    } else {
        skip_line(s, i + 1)
    }
}

/// The character that an escape `\e` stands for: `\n` is a newline, any other
/// character stands for itself.
pub open spec fn unescape(e: char) -> char {
    if e == 'n' {
        '\n'
    } else {
        e
    }
}

/// The keyword that a word spells, if any.
pub open spec fn keyword_token(w: Seq<char>) -> Option<Token> {
    if w == "void"@ {
        Some(Token::KwVoid)
    } else if w == "char"@ {
        Some(Token::KwChar)
    } else if w == "else"@ {
        Some(Token::KwElse)
    } else if w == "enum"@ {
        Some(Token::KwEnum)
    } else if w == "if"@ {
        Some(Token::KwIf)
    } else if w == "int"@ {
        Some(Token::KwInt)
    } else if w == "return"@ {
        Some(Token::KwReturn)
    } else if w == "sizeof"@ {
        Some(Token::KwSizeof)
    } else if w == "while"@ {
        Some(Token::KwWhile)
    } else {
        None
    }
}

/// The token that a word makes: a keyword, or else an identifier.
pub open spec fn word_token(w: Seq<char>) -> TokenView {
    match keyword_token(w) {
        Some(t) => TokenView::Fixed(t),
        None => TokenView::Ident(w),
    }
}

/// The operator that two characters make, if any.
pub open spec fn two_char_token(a: char, b: char) -> Option<Token> {
    if a == '=' && b == '=' {
        Some(Token::EqEq)
    } else if a == '!' && b == '=' {
        Some(Token::Ne)
    } else if a == '<' && b == '=' {
        Some(Token::Le)
    } else if a == '>' && b == '=' {
        Some(Token::Ge)
    } else if a == '&' && b == '&' {
        Some(Token::AndAnd)
    } else if a == '|' && b == '|' {
        Some(Token::OrOr)
    } else if a == '<' && b == '<' {
        Some(Token::Shl)
    } else if a == '>' && b == '>' {
        Some(Token::Shr)
    } else if a == '+' && b == '+' {
        Some(Token::Inc)
    } else if a == '-' && b == '-' {
        Some(Token::Dec)
    } else {
        None
    }
}

/// The operator or punctuation that one character makes, if any.
pub open spec fn one_char_token(c: char) -> Option<Token> {
    if c == '+' {
        Some(Token::Plus)
    } else if c == '-' {
        Some(Token::Minus)
    } else if c == '*' {
        Some(Token::Star)
    } else if c == '/' {
        Some(Token::Slash)
    } else if c == '%' {
        Some(Token::Percent)
    } else if c == '=' {
        Some(Token::Assign)
    } else if c == '!' {
        Some(Token::Not)
    } else if c == '<' {
        Some(Token::Lt)
    } else if c == '>' {
        Some(Token::Gt)
    } else if c == '&' {
        Some(Token::And)
    } else if c == '|' {
        Some(Token::Or)
    } else if c == '^' {
        Some(Token::Xor)
    } else if c == '~' {
        Some(Token::Tilde)
    } else if c == '?' {
        Some(Token::Question)
    } else if c == ':' {
        Some(Token::Colon)
    } else if c == ';' {
        Some(Token::Semicolon)
    } else if c == ',' {
        Some(Token::Comma)
    } else if c == '(' {
        Some(Token::LParen)
    } else if c == ')' {
        Some(Token::RParen)
    } else if c == '{' {
        Some(Token::LBrace)
    } else if c == '}' {
        Some(Token::RBrace)
    } else if c == '[' {
        Some(Token::LBracket)
    } else if c == ']' {
        Some(Token::RBracket)
    } else {
        None
    }
}

/// The value of a digit sequence in `base`.
pub open spec fn digits_value(ds: Seq<char>, base: int) -> int
    decreases ds.len(),
{
    if ds.len() == 0 {
        0
    } else {
        digits_value(ds.drop_last(), base) * base + (ds.last() as u32 - '0' as u32)
    }
}

pub open spec fn msg_unexpected(c: char) -> Seq<char> {
    "Unexpected character '"@ + seq![c] + "'"@
}

pub open spec fn msg_unterminated_char() -> Seq<char> {
    "Unterminated char literal"@
}

pub open spec fn msg_invalid_digit() -> Seq<char> {
    "invalid digit found in string"@
}

pub open spec fn msg_too_large() -> Seq<char> {
    "number too large to fit in target type"@
}

/// A token, or the message of a lexical error.
pub type LexOutcome = Result<TokenView, Seq<char>>;

/// The body of a string literal from `i` (just after the opening quote): its
/// characters with escapes processed, and the position after the closing quote
/// (or the end of the text, when there is none).
pub open spec fn string_body(s: Seq<char>, i: int) -> (Seq<char>, int)
    decreases s.len() - i,
{
    if i < 0 || i >= s.len() {
        (seq![], i)
    } else if s[i] == '"' {
        (seq![], i + 1)
    } else if s[i] == '\\' {
        if i + 1 < s.len() {
            let (r, e) = string_body(s, i + 2);
            (seq![unescape(s[i + 1])] + r, e)
        } else {
            (seq![], i + 1)
        }
    } else {
        let (r, e) = string_body(s, i + 1);
        (seq![s[i]] + r, e)
    }
}

/// Steps over the closing quote of a character literal, if it is there.
pub open spec fn close_quote(s: Seq<char>, j: int) -> int {
    if 0 <= j < s.len() && s[j] == '\'' {
        j + 1
    } else {
        j
    }
}

/// A character literal from `i` (just after the opening quote).
pub open spec fn char_literal(s: Seq<char>, i: int) -> (LexOutcome, int) {
    if i >= s.len() {
        (Err(msg_unterminated_char()), s.len() as int)
    } else if s[i] == '\\' {
        if i + 1 >= s.len() {
            (Err(msg_unterminated_char()), s.len() as int)
        } else {
            (Ok(TokenView::Num(unescape(s[i + 1]) as u32 as i64)), close_quote(s, i + 2))
        }
    } else {
        (Ok(TokenView::Num(s[i] as u32 as i64)), close_quote(s, i + 1))
    }
}

/// A numeric literal starting with the digit at `i`.
pub open spec fn number_literal(s: Seq<char>, i: int) -> (LexOutcome, int) {
    let leading_zero = s[i] == '0' && i + 1 < s.len();
    if leading_zero && (s[i + 1] == 'x' || s[i + 1] == 'X') {
        (Err(msg_invalid_digit()), span_end(s, i + 2, Charset::Hex))
    } else {
        let octal = leading_zero && in_charset(Charset::Octal, s[i + 1]);
        let e = if octal {
            span_end(s, i + 1, Charset::Octal)
        } else if s[i] == '0' {
            i + 1
        } else {
            span_end(s, i + 1, Charset::Decimal)
        };
        let v = digits_value(s.subrange(i, e), if octal { 8 } else { 10 });
        if v <= i64::MAX {
            (Ok(TokenView::Num(v as i64)), e)
        } else {
            (Err(msg_too_large()), e)
        }
    }
}

/// The token that starts at `i`, a position that holds no trivia.
pub open spec fn token_at(s: Seq<char>, i: int) -> (LexOutcome, int) {
    let c = s[i];
    if is_digit(c) {
        number_literal(s, i)
    } else if is_ident_start(c) {
        let e = span_end(s, i + 1, Charset::Word);
        (Ok(word_token(s.subrange(i, e))), e)
    } else if c == '"' {
        let (body, e) = string_body(s, i + 1);
        (Ok(TokenView::Str(body)), e)
    } else if c == '\'' {
        char_literal(s, i + 1)
    } else if i + 1 < s.len() && two_char_token(c, s[i + 1]) is Some {
        (Ok(TokenView::Fixed(two_char_token(c, s[i + 1])->0)), i + 2)
    } else if one_char_token(c) is Some {
        (Ok(TokenView::Fixed(one_char_token(c)->0)), i + 1)
    } else {
        (Err(msg_unexpected(c)), i + 1)
    }
}

/// The next token of `s` from position `pos`, and the position after it.
pub open spec fn lex_next(s: Seq<char>, pos: int) -> (LexOutcome, int) {
    let i = trivia_end(s, pos);
    if i >= s.len() {
        (Ok(TokenView::Fixed(Token::Eof)), i)
    } else {
        token_at(s, i)
    }
}

/// Whether an exec result is the outcome `o`.
pub open spec fn is_outcome(r: Result<Token, LexError>, o: LexOutcome) -> bool {
    match r {
        Ok(t) => o == Ok::<TokenView, Seq<char>>(t@),
        Err(e) => o == Err::<TokenView, Seq<char>>(e.0@),
    }
}

pub struct Lexer {
    chars: Vec<char>,
    pos: usize,
}

impl Lexer {
    /// The text being lexed.
    pub closed spec fn text(&self) -> Seq<char> {
        self.chars@
    }

    /// The index of the next character to read.
    pub closed spec fn position(&self) -> int {
        self.pos as int
    }

    pub closed spec fn wf(&self) -> bool {
        self.pos <= self.chars.len()
    }

    /// A well-formed lexer's position lies within its text.
    pub proof fn lemma_position_bounds(&self)
        requires
            self.wf(),
        ensures
            0 <= self.position() <= self.text().len(),
    {
    }

    /// A lexer at the start of `input`.
    pub fn new(input: &str) -> (r: Lexer)
        ensures
            r.wf(),
            r.text() == input@,
            r.position() == 0,
    {
        let mut chars: Vec<char> = Vec::new();
        for c in it: input.chars()
            invariant
                chars@ == it.seq().take(it.index() as int),
        {
            chars.push(c);
        }
        Lexer { chars, pos: 0 }
    }

    /// Skips whitespace, comments and preprocessor lines.
    fn skip_whitespace_and_comments(&mut self)
        requires
            old(self).wf(),
        ensures
            final(self).wf(),
            final(self).text() == old(self).text(),
            final(self).position() == trivia_end(old(self).text(), old(self).position()),
    {
        let ghost s = self.chars@;
        let ghost target = trivia_end(s, self.pos as int);
        let mut in_line = false;
        let mut bol = self.pos == 0 || self.chars[self.pos - 1] == '\n';
        loop
            invariant
                self.wf(),
                self.chars@ == s,
                target == (if in_line {
                    skip_line(s, self.pos as int)
                } else {
                    skip_trivia(s, self.pos as int, bol)
                }),
            ensures
                self.wf(),
                self.chars@ == s,
                self.pos == target,
            decreases self.chars.len() - self.pos,
        {
            if self.pos >= self.chars.len() {
                break;
            }
            let c = self.chars[self.pos];
            if in_line {
                if c == '\n' {
                    in_line = false;
                    bol = true;
                }
                self.pos = self.pos + 1;
            } else if is_whitespace(c) {
                bol = bol || c == '\n';
                self.pos = self.pos + 1;
            } else if c == '/' && self.pos + 1 < self.chars.len() && self.chars[self.pos + 1]
                == '/' {
                in_line = true;
                self.pos = self.pos + 2;
            } else if c == '#' && bol {
                in_line = true;
                self.pos = self.pos + 1;
            } else {
                break;
            }
        }
    }
    /// The end of the run of characters of `k` that starts at `i`.
    fn scan(&self, i: usize, k: Charset) -> (e: usize)
        requires
            self.wf(),
            i <= self.chars.len(),
        ensures
            e == span_end(self.text(), i as int, k),
            i <= e <= self.chars.len(),
            forall|j: int| i <= j < e ==> in_charset(k, #[trigger] self.text()[j]),
    {
        let mut e = i;
        while e < self.chars.len() && in_set(k, self.chars[e])
            invariant
                self.wf(),
                i <= e <= self.chars.len(),
                span_end(self.text(), i as int, k) == span_end(self.text(), e as int, k),
                forall|j: int| i <= j < e ==> in_charset(k, #[trigger] self.text()[j]),
            decreases self.chars.len() - e,
        {
            e = e + 1;
        }
        e
    }

    /// The text between `start` and `end`, as a string.
    fn text_between(&self, start: usize, end: usize) -> (r: String)
        requires
            self.wf(),
            start <= end <= self.chars.len(),
        ensures
            r@ == self.text().subrange(start as int, end as int),
    {
        let mut r = String::new();
        let mut j = start;
        while j < end
            invariant
                self.wf(),
                start <= j <= end <= self.chars.len(),
                r@ == self.text().subrange(start as int, j as int),
            decreases end - j,
        {
            push_char(&mut r, self.chars[j]);
            j = j + 1;
            assert(r@ =~= self.text().subrange(start as int, j as int));
        }
        r
    }

    /// Whether the text between `start` and `end` spells `w`.
    fn spells(&self, start: usize, end: usize, w: &str) -> (r: bool)
        requires
            self.wf(),
            start <= end <= self.chars.len(),
        ensures
            r == (self.text().subrange(start as int, end as int) == w@),
    {
        let n = w.unicode_len();
        if end - start != n {
            return false;
        }
        let mut j: usize = 0;
        while j < n
            invariant
                self.wf(),
                start <= end <= self.chars.len(),
                end - start == n == w@.len(),
                j <= n,
                forall|k: int| 0 <= k < j ==> self.text()[start + k] == w@[k],
            decreases n - j,
        {
            if self.chars[start + j] != w.get_char(j) {
                assert(self.text().subrange(start as int, end as int)[j as int] != w@[j as int]);
                return false;
            }
            j = j + 1;
        }
        assert(self.text().subrange(start as int, end as int) =~= w@);
        true
    }

    /// The keyword spelt between `start` and `end`, if any.
    fn keyword(&self, start: usize, end: usize) -> (r: Option<Token>)
        requires
            self.wf(),
            start <= end <= self.chars.len(),
        ensures
            r == keyword_token(self.text().subrange(start as int, end as int)),
    {
        if self.spells(start, end, "void") {
            Some(Token::KwVoid)
        } else if self.spells(start, end, "char") {
            Some(Token::KwChar)
        } else if self.spells(start, end, "else") {
            Some(Token::KwElse)
        } else if self.spells(start, end, "enum") {
            Some(Token::KwEnum)
        } else if self.spells(start, end, "if") {
            Some(Token::KwIf)
        } else if self.spells(start, end, "int") {
            Some(Token::KwInt)
        } else if self.spells(start, end, "return") {
            Some(Token::KwReturn)
        } else if self.spells(start, end, "sizeof") {
            Some(Token::KwSizeof)
        } else if self.spells(start, end, "while") {
            Some(Token::KwWhile)
        } else {
            None
        }
    }

    /// Lexes a numeric literal whose first digit is at `start`.
    fn number(&mut self, start: usize) -> (r: Result<Token, LexError>)
        requires
            old(self).wf(),
            start < old(self).chars.len(),
            is_digit(old(self).text()[start as int]),
        ensures
            final(self).wf(),
            final(self).text() == old(self).text(),
            is_outcome(r, number_literal(old(self).text(), start as int).0),
            final(self).position() == number_literal(old(self).text(), start as int).1,
    {
        let ghost s = self.chars@;
        let len = self.chars.len();
        let leading_zero = self.chars[start] == '0' && start + 1 < len;
        if leading_zero && (self.chars[start + 1] == 'x' || self.chars[start + 1] == 'X') {
            self.pos = self.scan(start + 2, Charset::Hex);
            return Err(LexError(String::from_str("invalid digit found in string")));
        }
        let octal = leading_zero && in_set(Charset::Octal, self.chars[start + 1]);
        let e = if octal {
            self.scan(start + 1, Charset::Octal)
        } else if self.chars[start] == '0' {
            start + 1
        } else {
            self.scan(start + 1, Charset::Decimal)
        };
        self.pos = e;
        match self.literal_value(start, e, octal) {
            Some(v) => Ok(Token::Num(v)),
            None => Err(LexError(String::from_str("number too large to fit in target type"))),
        }
    }

    /// The value of the digits between `start` and `end` in base 8 or 10, if
    /// it fits in an `i64`.
    fn literal_value(&self, start: usize, end: usize, octal: bool) -> (r: Option<i64>)
        requires
            self.wf(),
            start <= end <= self.chars.len(),
            forall|j: int| start <= j < end ==> is_digit(#[trigger] self.text()[j]),
        ensures
            ({
                let v = digits_value(
                    self.text().subrange(start as int, end as int),
                    if octal {
                        8
                    } else {
                        10
                    },
                );
                match r {
                    Some(x) => v <= i64::MAX && x == v,
                    None => v > i64::MAX,
                }
            }),
    {
        let ghost s = self.chars@;
        let ghost base: int = if octal { 8 } else { 10 };
        assert(s == self.text());
        let mut v: i64 = 0;
        let mut j = start;
        while j < end
            invariant
                self.wf(),
                self.chars@ == s,
                start <= j <= end <= s.len(),
                base == (if octal { 8int } else { 10int }),
                forall|k: int| start <= k < end ==> is_digit(#[trigger] s[k]),
                v == digits_value(s.subrange(start as int, j as int), base),
                0 <= v,
            decreases end - j,
        {
            let ghost prev = s.subrange(start as int, j as int);
            assert(is_digit(s[j as int]));
            let d = (self.chars[j] as u32 - '0' as u32) as i128;
            let w: i128 = if octal { v as i128 * 8 + d } else { v as i128 * 10 + d };
            assert(s.subrange(start as int, j + 1).drop_last() =~= prev);
            if w > i64::MAX as i128 {
                proof {
                    let ds = s.subrange(start as int, end as int);
                    assert forall|k: int| 0 <= k < ds.len() implies is_digit(#[trigger] ds[k]) by {
                        assert(ds[k] == s[start + k]);
                    }
                    lemma_digits_prefix(ds, j + 1 - start, base);
                    assert(ds.take(j + 1 - start) =~= s.subrange(start as int, j + 1));
                }
                return None;
            }
            v = w as i64;
            j = j + 1;
        }
        Some(v)
    }

    /// Lexes the body of a string literal; the opening quote is consumed.
    fn string_literal(&mut self) -> (r: String)
        requires
            old(self).wf(),
        ensures
            final(self).wf(),
            final(self).text() == old(self).text(),
            r@ == string_body(old(self).text(), old(self).position()).0,
            final(self).position() == string_body(old(self).text(), old(self).position()).1,
    {
        let ghost s = self.chars@;
        let ghost i0 = self.pos as int;
        let len = self.chars.len();
        let mut acc = String::new();
        loop
            invariant_except_break
                self.wf(),
                self.chars@ == s,
                len == s.len(),
                string_body(s, i0) == (acc@ + string_body(s, self.pos as int).0, string_body(
                    s,
                    self.pos as int,
                ).1),
            ensures
                self.wf(),
                self.chars@ == s,
                string_body(s, i0) == (acc@, self.pos as int),
            decreases len - self.pos,
        {
            let j = self.pos;
            if j >= len {
                assert(acc@ + seq![] =~= acc@);
                break;
            }
            let c = self.chars[j];
            if c == '"' {
                self.pos = j + 1;
                assert(acc@ + seq![] =~= acc@);
                break;
            }
            if c == '\\' {
                if j + 1 < len {
                    let e = unescape_char(self.chars[j + 1]);
                    let ghost before = acc@;
                    push_char(&mut acc, e);
                    self.pos = j + 2;
                    assert(before + (seq![e] + string_body(s, j + 2).0) =~= acc@ + string_body(
                        s,
                        j + 2,
                    ).0);
                } else {
                    self.pos = j + 1;
                    assert(acc@ + seq![] =~= acc@);
                    break;
                }
            } else {
                let ghost before = acc@;
                push_char(&mut acc, c);
                self.pos = j + 1;
                assert(before + (seq![c] + string_body(s, j + 1).0) =~= acc@ + string_body(
                    s,
                    j + 1,
                ).0);
            }
        }
        acc
    }

    /// Lexes a character literal; the opening quote is consumed.
    fn char_literal(&mut self) -> (r: Result<Token, LexError>)
        requires
            old(self).wf(),
        ensures
            final(self).wf(),
            final(self).text() == old(self).text(),
            is_outcome(r, char_literal(old(self).text(), old(self).position()).0),
            final(self).position() == char_literal(old(self).text(), old(self).position()).1,
    {
        let len = self.chars.len();
        let i = self.pos;
        if i >= len {
            return Err(LexError(String::from_str("Unterminated char literal")));
        }
        let c = if self.chars[i] == '\\' {
            if i + 1 >= len {
                self.pos = len;
                return Err(LexError(String::from_str("Unterminated char literal")));
            }
            self.pos = i + 2;
            unescape_char(self.chars[i + 1])
        } else {
            self.pos = i + 1;
            self.chars[i]
        };
        if self.pos < len && self.chars[self.pos] == '\'' {
            self.pos = self.pos + 1;
        }
        Ok(Token::Num(c as u32 as i64))
    }

    /// Returns the next token, or a lexical error. At the end of the text it
    /// returns `Eof`, and keeps returning it.
    pub fn next_token(&mut self) -> (r: Result<Token, LexError>)
        requires
            old(self).wf(),
        ensures
            final(self).wf(),
            final(self).text() == old(self).text(),
            is_outcome(r, lex_next(old(self).text(), old(self).position()).0),
            final(self).position() == lex_next(old(self).text(), old(self).position()).1,
    {
        let ghost s = self.chars@;
        self.skip_whitespace_and_comments();
        let len = self.chars.len();
        if self.pos >= len {
            return Ok(Token::Eof);
        }
        let i = self.pos;
        assert(lex_next(s, old(self).pos as int) == token_at(s, i as int));
        let ch = self.chars[i];
        if is_ascii_digit(ch) {
            return self.number(i);
        }
        if ch == '_' || is_ascii_alpha(ch) {
            let e = self.scan(i + 1, Charset::Word);
            self.pos = e;
            return match self.keyword(i, e) {
                Some(t) => Ok(t),
                None => Ok(Token::Ident(self.text_between(i, e))),
            };
        }
        if ch == '"' {
            self.pos = i + 1;
            let body = self.string_literal();
            return Ok(Token::Str(body));
        }
        if ch == '\'' {
            self.pos = i + 1;
            return self.char_literal();
        }
        if i + 1 < len {
            if let Some(t) = two_char(ch, self.chars[i + 1]) {
                self.pos = i + 2;
                assert(t@ == TokenView::Fixed(t));
                return Ok(t);
            }
        }
        self.pos = i + 1;
        match one_char(ch) {
            Some(t) => {
                assert(t@ == TokenView::Fixed(t));
                Ok(t)
            },
            None => {
                let mut msg = String::from_str("Unexpected character '");
                push_char(&mut msg, ch);
                msg.append("'");
                assert(msg@ =~= msg_unexpected(ch));
                Err(LexError(msg))
            },
        }
    }
}

fn is_whitespace(c: char) -> (r: bool)
    ensures
        r == is_space(c),
{
    let u = c as u32;
    u == 0x20 || (0x09 <= u && u <= 0x0d) || u == 0x85 || u == 0xa0 || u == 0x1680 || (0x2000
        <= u && u <= 0x200a) || u == 0x2028 || u == 0x2029 || u == 0x202f || u == 0x205f || u
        == 0x3000
}

/// The prefix of a digit sequence never has a larger value than the whole.
proof fn lemma_digits_prefix(ds: Seq<char>, j: int, base: int)
    requires
        0 <= j <= ds.len(),
        base >= 1,
        forall|k: int| 0 <= k < ds.len() ==> is_digit(#[trigger] ds[k]),
    ensures
        0 <= digits_value(ds.take(j), base) <= digits_value(ds, base),
    decreases ds.len(),
{
    if j < ds.len() {
        let rest = ds.drop_last();
        assert(rest.take(j) =~= ds.take(j));
        lemma_digits_prefix(rest, j, base);
        assert(digits_value(rest, base) * base >= digits_value(rest, base)) by (nonlinear_arith)
            requires
                digits_value(rest, base) >= 0,
                base >= 1,
        ;
    } else {
        assert(ds.take(j) =~= ds);
        if ds.len() > 0 {
            lemma_digits_prefix(ds.drop_last(), 0, base);
            assert(ds.drop_last().take(0) =~= Seq::<char>::empty());
            lemma_digits_nonneg(ds.drop_last(), base);
            assert(digits_value(ds.drop_last(), base) * base >= 0) by (nonlinear_arith)
                requires
                    digits_value(ds.drop_last(), base) >= 0,
                    base >= 1,
            ;
        }
    }
}

proof fn lemma_digits_nonneg(ds: Seq<char>, base: int)
    requires
        base >= 1,
        forall|k: int| 0 <= k < ds.len() ==> is_digit(#[trigger] ds[k]),
    ensures
        digits_value(ds, base) >= 0,
    decreases ds.len(),
{
    if ds.len() > 0 {
        lemma_digits_nonneg(ds.drop_last(), base);
        assert(digits_value(ds.drop_last(), base) * base >= 0) by (nonlinear_arith)
            requires
                digits_value(ds.drop_last(), base) >= 0,
                base >= 1,
        ;
    }
}

/// A run never goes back, nor past the end.
pub proof fn lemma_span_end_bounds(s: Seq<char>, i: int, k: Charset)
    requires
        0 <= i <= s.len(),
    ensures
        i <= span_end(s, i, k) <= s.len(),
    decreases s.len() - i,
{
    if i < s.len() && in_charset(k, s[i]) {
        lemma_span_end_bounds(s, i + 1, k);
    }
}

/// Skipping trivia never goes back, nor past the end.
pub proof fn lemma_skip_trivia_bounds(s: Seq<char>, i: int, bol: bool)
    requires
        0 <= i <= s.len(),
    ensures
        i <= skip_trivia(s, i, bol) <= s.len(),
    decreases s.len() - i, 1int,
{
    if i < s.len() {
        if is_space(s[i]) {
            lemma_skip_trivia_bounds(s, i + 1, bol || s[i] == '\n');
        } else if s[i] == '/' && i + 1 < s.len() && s[i + 1] == '/' {
            lemma_skip_line_bounds(s, i + 2);
        } else if s[i] == '#' && bol {
            lemma_skip_line_bounds(s, i + 1);
        }
    }
}

pub proof fn lemma_skip_line_bounds(s: Seq<char>, i: int)
    requires
        0 <= i <= s.len(),
    ensures
        i <= skip_line(s, i) <= s.len(),
    decreases s.len() - i, 0int,
{
    if i < s.len() {
        if s[i] == '\n' {
            lemma_skip_trivia_bounds(s, i + 1, true);
        } else {
            lemma_skip_line_bounds(s, i + 1);
        }
    }
}

pub proof fn lemma_string_body_bounds(s: Seq<char>, i: int)
    requires
        0 <= i <= s.len(),
    ensures
        i <= string_body(s, i).1 <= s.len(),
    decreases s.len() - i,
{
    if i < s.len() && s[i] != '"' {
        if s[i] == '\\' {
            if i + 1 < s.len() {
                lemma_string_body_bounds(s, i + 2);
            }
        } else {
            lemma_string_body_bounds(s, i + 1);
        }
    }
}

/// Every token that starts at a character consumes it, and stays in the text;
/// none of them is the end marker.
pub proof fn lemma_token_at_progress(s: Seq<char>, i: int)
    requires
        0 <= i < s.len(),
    ensures
        i < token_at(s, i).1 <= s.len(),
        token_at(s, i).0 != Ok::<TokenView, Seq<char>>(TokenView::Fixed(Token::Eof)),
{
    lemma_span_end_bounds(s, i + 1, Charset::Word);
    lemma_string_body_bounds(s, i + 1);
    if i + 2 <= s.len() {
        lemma_span_end_bounds(s, i + 2, Charset::Hex);
    }
    if i + 1 <= s.len() {
        lemma_span_end_bounds(s, i + 1, Charset::Octal);
        lemma_span_end_bounds(s, i + 1, Charset::Decimal);
    }
}

/// The next token never moves the position back nor past the end; anything but
/// the end marker moves it forward.
pub proof fn lemma_lex_next_progress(s: Seq<char>, p: int)
    requires
        0 <= p <= s.len(),
    ensures
        p <= lex_next(s, p).1 <= s.len(),
        lex_next(s, p).0 != Ok::<TokenView, Seq<char>>(TokenView::Fixed(Token::Eof)) ==> p
            < lex_next(s, p).1,
        lex_next(s, p).0 == Ok::<TokenView, Seq<char>>(TokenView::Fixed(Token::Eof))
            ==> lex_next(s, p).1 == s.len(),
{
    lemma_skip_trivia_bounds(s, p, line_start(s, p));
    let i = trivia_end(s, p);
    if i < s.len() {
        lemma_token_at_progress(s, i);
    }
}

/// Once the end of input is reached, every further call returns the end
/// marker again, at the same position.
pub proof fn lemma_eof_is_sticky(s: Seq<char>, p: int)
    requires
        0 <= p <= s.len(),
        lex_next(s, p).0 == Ok::<TokenView, Seq<char>>(TokenView::Fixed(Token::Eof)),
    ensures
        lex_next(s, lex_next(s, p).1) == lex_next(s, p),
{
    lemma_lex_next_progress(s, p);
}

/// A character that starts no token is a lexical error, never a silent
/// token, and the error message names the character.
pub proof fn lemma_unrecognized_character(s: Seq<char>, pos: int)
    requires
        0 <= pos <= s.len(),
        trivia_end(s, pos) < s.len(),
        ({
            let c = s[trivia_end(s, pos)];
            !is_digit(c) && !is_ident_start(c) && c != '"' && c != '\'' && one_char_token(c) is None
        }),
    ensures
        ({
            let c = s[trivia_end(s, pos)];
            &&& lex_next(s, pos).0 == Err::<TokenView, Seq<char>>(msg_unexpected(c))
            &&& msg_unexpected(c).contains(c)
        }),
{
    let c = s[trivia_end(s, pos)];
    let prefix = "Unexpected character '"@;
    assert(msg_unexpected(c)[prefix.len() as int] == c);
}

/// The first `n` outcomes of lexing `s` from `pos`, each call starting where the
/// previous one ended.
pub open spec fn lex_outcomes(s: Seq<char>, pos: int, n: nat) -> Seq<LexOutcome>
    decreases n,
{
    if n == 0 {
        seq![]
    } else {
        let (o, next) = lex_next(s, pos);
        seq![o] + lex_outcomes(s, next, (n - 1) as nat)
    }
}

/// Lexing depends on the text alone: two fresh lexers over the same text
/// produce the same sequence of tokens and errors, call for call.
pub proof fn lemma_relex_same_sequence(a: Lexer, b: Lexer, n: nat)
    requires
        a.text() == b.text(),
        a.position() == 0,
        b.position() == 0,
    ensures
        lex_outcomes(a.text(), a.position(), n) == lex_outcomes(b.text(), b.position(), n),
{
}

/// Relies on `String::push`: appends one character.
#[verifier::external_body]
fn push_char(s: &mut String, c: char)
    ensures
        final(s)@ == old(s)@.push(c),
{
    s.push(c)
}

fn in_set(k: Charset, c: char) -> (r: bool)
    ensures
        r == in_charset(k, c),
{
    let u = c as u32;
    match k {
        Charset::Decimal => is_ascii_digit(c),
        Charset::Octal => '0' as u32 <= u && u <= '7' as u32,
        Charset::Hex => is_ascii_digit(c) || ('a' as u32 <= u && u <= 'f' as u32) || ('A' as u32
            <= u && u <= 'F' as u32),
        Charset::Word => is_ascii_alpha(c) || is_ascii_digit(c) || c == '_',
    }
}

fn is_ascii_digit(c: char) -> (r: bool)
    ensures
        r == is_digit(c),
{
    '0' as u32 <= c as u32 && c as u32 <= '9' as u32
}

fn is_ascii_alpha(c: char) -> (r: bool)
    ensures
        r == is_alpha(c),
{
    ('a' as u32 <= c as u32 && c as u32 <= 'z' as u32) || ('A' as u32 <= c as u32 && c as u32
        <= 'Z' as u32)
}

fn unescape_char(e: char) -> (r: char)
    ensures
        r == unescape(e),
{
    if e == 'n' {
        '\n'
    } else {
        e
    }
}

fn two_char(a: char, b: char) -> (r: Option<Token>)
    ensures
        r == two_char_token(a, b),
{
    if a == '=' && b == '=' {
        Some(Token::EqEq)
    } else if a == '!' && b == '=' {
        Some(Token::Ne)
    } else if a == '<' && b == '=' {
        Some(Token::Le)
    } else if a == '>' && b == '=' {
        Some(Token::Ge)
    } else if a == '&' && b == '&' {
        Some(Token::AndAnd)
    } else if a == '|' && b == '|' {
        Some(Token::OrOr)
    } else if a == '<' && b == '<' {
        Some(Token::Shl)
    } else if a == '>' && b == '>' {
        Some(Token::Shr)
    } else if a == '+' && b == '+' {
        Some(Token::Inc)
    } else if a == '-' && b == '-' {
        Some(Token::Dec)
    } else {
        None
    }
}

fn one_char(c: char) -> (r: Option<Token>)
    ensures
        r == one_char_token(c),
{
    if c == '+' {
        Some(Token::Plus)
    } else if c == '-' {
        Some(Token::Minus)
    } else if c == '*' {
        Some(Token::Star)
    } else if c == '/' {
        Some(Token::Slash)
    } else if c == '%' {
        Some(Token::Percent)
    } else if c == '=' {
        Some(Token::Assign)
    } else if c == '!' {
        Some(Token::Not)
    } else if c == '<' {
        Some(Token::Lt)
    } else if c == '>' {
        Some(Token::Gt)
    } else if c == '&' {
        Some(Token::And)
    } else if c == '|' {
        Some(Token::Or)
    } else if c == '^' {
        Some(Token::Xor)
    } else if c == '~' {
        Some(Token::Tilde)
    } else if c == '?' {
        Some(Token::Question)
    } else if c == ':' {
        Some(Token::Colon)
    } else if c == ';' {
        Some(Token::Semicolon)
    } else if c == ',' {
        Some(Token::Comma)
    } else if c == '(' {
        Some(Token::LParen)
    } else if c == ')' {
        Some(Token::RParen)
    } else if c == '{' {
        Some(Token::LBrace)
    } else if c == '}' {
        Some(Token::RBrace)
    } else if c == '[' {
        Some(Token::LBracket)
    } else if c == ']' {
        Some(Token::RBracket)
    } else {
        None
    }
}

} // verus!
