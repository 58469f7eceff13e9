//! The lexer: source text to tokens. `lex_spec` states the lexical rules
//! over the characters of the source; `lex` computes exactly that.
use vstd::prelude::*;
use crate::ast::chars_are;
use crate::text::{
    debug_str, debug_text, i64_text, int_text, owned, push_char, str_chars, string_of,
};

verus! {

#[derive(Debug, PartialEq)]
pub enum Token {
    Let,
    If,
    Else,
    Fn,
    Return,
    Loop,
    While,
    Break,
    Continue,
    Not,
    And,
    Or,
    True,
    False,
    Colon,
    Assign,
    Arrow,
    Eq,
    Ne,
    Lt,
    Gt,
    Le,
    Ge,
    Plus,
    Minus,
    Star,
    Slash,
    Amp,
    Pipe,
    Tilde,
    LParen,
    RParen,
    LBrace,
    RBrace,
    LBracket,
    RBracket,
    Semicolon,
    Comma,
    IntLiteral(i64),
    /// The text of a floating-point literal, underscores removed.
    FloatLiteral(String),
    StringLiteral(String),
    Ident(String),
}

/// Model of a [`Token`].
pub enum TokenM {
    Let,
    If,
    Else,
    Fn,
    Return,
    Loop,
    While,
    Break,
    Continue,
    Not,
    And,
    Or,
    True,
    False,
    Colon,
    Assign,
    Arrow,
    Eq,
    Ne,
    Lt,
    Gt,
    Le,
    Ge,
    Plus,
    Minus,
    Star,
    Slash,
    Amp,
    Pipe,
    Tilde,
    LParen,
    RParen,
    LBrace,
    RBrace,
    LBracket,
    RBracket,
    Semicolon,
    Comma,
    IntLiteral(i64),
    FloatLiteral(Seq<char>),
    StringLiteral(Seq<char>),
    Ident(Seq<char>),
}

impl View for Token {
    type V = TokenM;

    open spec fn view(&self) -> TokenM {
        match *self {
            Token::Let => TokenM::Let,
            Token::If => TokenM::If,
            Token::Else => TokenM::Else,
            Token::Fn => TokenM::Fn,
            Token::Return => TokenM::Return,
            Token::Loop => TokenM::Loop,
            Token::While => TokenM::While,
            Token::Break => TokenM::Break,
            Token::Continue => TokenM::Continue,
            Token::Not => TokenM::Not,
            Token::And => TokenM::And,
            Token::Or => TokenM::Or,
            Token::True => TokenM::True,
            Token::False => TokenM::False,
            Token::Colon => TokenM::Colon,
            Token::Assign => TokenM::Assign,
            Token::Arrow => TokenM::Arrow,
            Token::Eq => TokenM::Eq,
            Token::Ne => TokenM::Ne,
            Token::Lt => TokenM::Lt,
            Token::Gt => TokenM::Gt,
            Token::Le => TokenM::Le,
            Token::Ge => TokenM::Ge,
            Token::Plus => TokenM::Plus,
            Token::Minus => TokenM::Minus,
            Token::Star => TokenM::Star,
            Token::Slash => TokenM::Slash,
            Token::Amp => TokenM::Amp,
            Token::Pipe => TokenM::Pipe,
            Token::Tilde => TokenM::Tilde,
            Token::LParen => TokenM::LParen,
            Token::RParen => TokenM::RParen,
            Token::LBrace => TokenM::LBrace,
            Token::RBrace => TokenM::RBrace,
            Token::LBracket => TokenM::LBracket,
            Token::RBracket => TokenM::RBracket,
            Token::Semicolon => TokenM::Semicolon,
            Token::Comma => TokenM::Comma,
            Token::IntLiteral(i) => TokenM::IntLiteral(i),
            Token::FloatLiteral(s) => TokenM::FloatLiteral(s@),
            Token::StringLiteral(s) => TokenM::StringLiteral(s@),
            Token::Ident(s) => TokenM::Ident(s@),
        }
    }
}

/// The models of a sequence of tokens.
pub open spec fn view_tokens(ts: Seq<Token>) -> Seq<TokenM> {
    ts.map_values(|t: Token| t@)
}

// ------------------------------------------------------ character classes

pub open spec fn is_digit(c: char) -> bool {
    '0' <= c <= '9'
}

pub open spec fn is_alpha(c: char) -> bool {
    ('a' <= c <= 'z') || ('A' <= c <= 'Z')
}

pub open spec fn is_whitespace(c: char) -> bool {
    c == ' ' || c == '\t' || c == '\n' || c == '\r'
}

pub open spec fn is_ident_start(c: char) -> bool {
    is_alpha(c) || c == '_'
}

pub open spec fn is_ident_continue(c: char) -> bool {
    is_alpha(c) || is_digit(c) || c == '_'
}

/// Characters that may occur in a numeric lexeme once it has started with a digit.
pub open spec fn is_number_char(c: char) -> bool {
    is_digit(c) || c == '_' || c == '.' || c == 'e' || c == 'E' || c == '+' || c == '-'
}

/// Whether the character at `j` extends a numeric lexeme: digits, `_`, `.`,
/// `e` and `E` always do; a sign only right after an exponent mark, so that
/// `5-3` is a subtraction and `1e-3` one number.
pub open spec fn number_continues(s: Seq<char>, j: int) -> bool {
    let c = s[j];
    ||| is_digit(c) || c == '_' || c == '.' || c == 'e' || c == 'E'
    ||| (c == '+' || c == '-') && j > 0 && (s[j - 1] == 'e' || s[j - 1] == 'E')
}

/// An identifier starts with an ASCII letter or `_`.
pub fn is_identifier_start(ch: char) -> (r: bool)
    ensures
        r == is_ident_start(ch),
{
    ('a' <= ch && ch <= 'z') || ('A' <= ch && ch <= 'Z') || ch == '_'
}

/// An identifier continues with ASCII letters, digits or `_`.
pub fn is_identifier_continue(ch: char) -> (r: bool)
    ensures
        r == is_ident_continue(ch),
{
    ('a' <= ch && ch <= 'z') || ('A' <= ch && ch <= 'Z') || ('0' <= ch && ch <= '9') || ch == '_'
}

fn number_continues_at(cs: &Vec<char>, k: usize) -> (r: bool)
    requires
        k < cs.len(),
    ensures
        r == number_continues(cs@, k as int),
{
    let ch = cs[k];
    if ('0' <= ch && ch <= '9') || ch == '_' || ch == '.' || ch == 'e' || ch == 'E' {
        true
    } else if (ch == '+' || ch == '-') && k > 0 {
        cs[k - 1] == 'e' || cs[k - 1] == 'E'
    } else {
        false
    }
}

// ---------------------------------------------------------------- scanning

/// The first index at or after `j` whose character is not an identifier character.
pub open spec fn ident_end(s: Seq<char>, j: int) -> int
    decreases s.len() - j,
{
    if j < 0 || j >= s.len() || !is_ident_continue(s[j]) {
        j
    } else {
        ident_end(s, j + 1)
    }
}

/// The first index at or after `j` whose character cannot extend a number.
pub open spec fn number_end(s: Seq<char>, j: int) -> int
    decreases s.len() - j,
{
    if j < 0 || j >= s.len() || !number_continues(s, j) {
        j
    } else {
        number_end(s, j + 1)
    }
}

/// The index of the line break that ends a comment started before `j`, or the end of the text.
pub open spec fn comment_end(s: Seq<char>, j: int) -> int
    decreases s.len() - j,
{
    if j < 0 || j >= s.len() || s[j] == '\n' {
        j
    } else {
        comment_end(s, j + 1)
    }
}

/// The first index at or after `j` whose character is not a decimal digit.
pub open spec fn digits_end(s: Seq<char>, j: int) -> int
    decreases s.len() - j,
{
    if j < 0 || j >= s.len() || !is_digit(s[j]) {
        j
    } else {
        digits_end(s, j + 1)
    }
}

/// The character that an escape `\e` stands for inside a string literal, if it is one of the six known escapes.
pub open spec fn escape_char(e: char) -> Option<char> {
    if e == 'n' {
        Some('\n')
    } else if e == 't' {
        Some('\t')
    } else if e == 'r' {
        Some('\r')
    } else if e == '\\' {
        Some('\\')
    } else if e == '"' {
        Some('"')
    } else if e == '0' {
        Some('\0')
    } else {
        None
    }
}

/// The body of a string literal read from index `j` on, after the opening
/// quote: the characters collected so far are `acc`. It ends at a closing
/// quote or at the end of the text (an unclosed literal is kept); a
/// backslash as the last character is an error.
pub open spec fn string_body(s: Seq<char>, j: int, acc: Seq<char>) -> Result<(Seq<char>, int), Seq<char>>
    decreases s.len() - j,
{
    if j < 0 || j >= s.len() {
        Ok((acc, s.len() as int))
    } else if s[j] == '"' {
        Ok((acc, j + 1))
    } else if s[j] == '\\' {
        if j + 1 >= s.len() {
            Err("Unterminated string literal"@)
        } else {
            match escape_char(s[j + 1]) {
                Some(c) => string_body(s, j + 2, acc.push(c)),
                None => string_body(s, j + 2, acc.push('\\').push(s[j + 1])),
            }
        }
    } else {
        string_body(s, j + 1, acc.push(s[j]))
    }
}

/// A lexeme without its `_` separators.
pub open spec fn without_underscores(t: Seq<char>) -> Seq<char>
    decreases t.len(),
{
    if t.len() == 0 {
        t
    } else if t.last() == '_' {
        without_underscores(t.drop_last())
    } else {
        without_underscores(t.drop_last()).push(t.last())
    }
}

/// The value of a string of decimal digits.
pub open spec fn decimal_value(t: Seq<char>) -> int
    decreases t.len(),
{
    if t.len() == 0 {
        0
    } else {
        decimal_value(t.drop_last()) * 10 + (t.last() as int - 48)
    }
}

pub open spec fn all_digits(t: Seq<char>) -> bool {
    forall|k: int| 0 <= k < t.len() ==> is_digit(#[trigger] t[k])
}

/// Whether `i64::from_str` accepts a text that begins with a digit: all digits and in range.
pub open spec fn int_text_ok(t: Seq<char>) -> bool {
    all_digits(t) && decimal_value(t) <= i64::MAX
}

/// Whether `f64::from_str` accepts a text that begins with a digit. Its
/// documented grammar, for such a text, is `Digit+ ('.' Digit*)? Exp?` with
/// `Exp ::= [eE] [+-]? Digit+`.
pub open spec fn float_text_ok(t: Seq<char>) -> bool {
    let a = digits_end(t, 0);
    let b = if a < t.len() && t[a] == '.' { digits_end(t, a + 1) } else { a };
    &&& a > 0
    &&& (b == t.len() || (
        (t[b] == 'e' || t[b] == 'E') && {
            let c = if b + 1 < t.len() && (t[b + 1] == '+' || t[b + 1] == '-') { b + 2 } else { b + 1 };
            let d = digits_end(t, c);
            d > c && d == t.len()
        }))
}

/// The keyword that a word spells, or an identifier.
pub open spec fn word_token(w: Seq<char>) -> TokenM {
    if w == seq!['l', 'e', 't'] {
        TokenM::Let
    } else if w == seq!['i', 'f'] {
        TokenM::If
    } else if w == seq!['e', 'l', 's', 'e'] {
        TokenM::Else
    } else if w == seq!['f', 'n'] {
        TokenM::Fn
    } else if w == seq!['r', 'e', 't', 'u', 'r', 'n'] {
        TokenM::Return
    } else if w == seq!['l', 'o', 'o', 'p'] {
        TokenM::Loop
    } else if w == seq!['w', 'h', 'i', 'l', 'e'] {
        TokenM::While
    } else if w == seq!['b', 'r', 'e', 'a', 'k'] {
        TokenM::Break
    } else if w == seq!['c', 'o', 'n', 't', 'i', 'n', 'u', 'e'] {
        TokenM::Continue
    } else if w == seq!['n', 'o', 't'] {
        TokenM::Not
    } else if w == seq!['a', 'n', 'd'] {
        TokenM::And
    } else if w == seq!['o', 'r'] {
        TokenM::Or
    } else if w == seq!['t', 'r', 'u', 'e'] {
        TokenM::True
    } else if w == seq!['f', 'a', 'l', 's', 'e'] {
        TokenM::False
    } else {
        TokenM::Ident(w)
    }
}

/// The token that a numeric lexeme stands for, or the error for it.
pub open spec fn number_token(lexeme: Seq<char>) -> Result<TokenM, Seq<char>> {
    let cleaned = without_underscores(lexeme);
    if cleaned.contains('.') || cleaned.contains('e') || cleaned.contains('E') {
        if float_text_ok(cleaned) {
            Ok(TokenM::FloatLiteral(cleaned))
        } else {
            Err("Invalid float literal '"@ + lexeme)
        }
    } else if int_text_ok(cleaned) {
        Ok(TokenM::IntLiteral(decimal_value(cleaned) as i64))
    } else {
        Err("Invalid integer literal '"@ + lexeme)
    }
}

/// A token made of one character, or of two where the second is `second`.
pub open spec fn one_or_two(s: Seq<char>, i: int, second: char, two: TokenM, one: TokenM) -> (Option<TokenM>, int) {
    if i + 1 < s.len() && s[i + 1] == second {
        (Some(two), i + 2)
    } else {
        (Some(one), i + 1)
    }
}

/// One step of the lexer at index `i` (with `i < s.len()`): the token read
/// there, if any, and the index where the next step starts; or the error.
pub open spec fn lex_step(s: Seq<char>, i: int) -> Result<(Option<TokenM>, int), Seq<char>> {
    let c = s[i];
    if is_whitespace(c) {
        Ok((None, i + 1))
    } else if c == '/' {
        if i + 1 < s.len() && s[i + 1] == '/' {
            Ok((None, comment_end(s, i + 2)))
        } else {
            Ok((Some(TokenM::Slash), i + 1))
        }
    } else if c == ':' {
        Ok((Some(TokenM::Colon), i + 1))
    } else if c == '=' {
        Ok(one_or_two(s, i, '=', TokenM::Eq, TokenM::Assign))
    } else if c == '!' {
        if i + 1 < s.len() && s[i + 1] == '=' {
            Ok((Some(TokenM::Ne), i + 2))
        } else {
            Err("Unexpected character '!'"@)
        }
    } else if c == '<' {
        Ok(one_or_two(s, i, '=', TokenM::Le, TokenM::Lt))
    } else if c == '>' {
        Ok(one_or_two(s, i, '=', TokenM::Ge, TokenM::Gt))
    } else if c == '+' {
        Ok((Some(TokenM::Plus), i + 1))
    } else if c == '-' {
        Ok(one_or_two(s, i, '>', TokenM::Arrow, TokenM::Minus))
    } else if c == '*' {
        Ok((Some(TokenM::Star), i + 1))
    } else if c == '&' {
        Ok((Some(TokenM::Amp), i + 1))
    } else if c == '|' {
        Ok((Some(TokenM::Pipe), i + 1))
    } else if c == '~' {
        Ok((Some(TokenM::Tilde), i + 1))
    } else if c == '(' {
        Ok((Some(TokenM::LParen), i + 1))
    } else if c == ')' {
        Ok((Some(TokenM::RParen), i + 1))
    } else if c == '{' {
        Ok((Some(TokenM::LBrace), i + 1))
    } else if c == '}' {
        Ok((Some(TokenM::RBrace), i + 1))
    } else if c == '[' {
        Ok((Some(TokenM::LBracket), i + 1))
    } else if c == ']' {
        Ok((Some(TokenM::RBracket), i + 1))
    } else if c == ';' {
        Ok((Some(TokenM::Semicolon), i + 1))
    } else if c == ',' {
        Ok((Some(TokenM::Comma), i + 1))
    } else if c == '"' {
        match string_body(s, i + 1, Seq::empty()) {
            Ok((body, j)) => Ok((Some(TokenM::StringLiteral(body)), j)),
            Err(e) => Err(e),
        }
    } else if is_digit(c) {
        let j = number_end(s, i);
        match number_token(s.subrange(i, j)) {
            Ok(t) => Ok((Some(t), j)),
            Err(e) => Err(e),
        }
    } else if is_ident_start(c) {
        let j = ident_end(s, i + 1);
        Ok((Some(word_token(s.subrange(i, j))), j))
    } else {
        Err("Unexpected character '"@ + seq![c] + "'"@)
    }
}

/// The lexer from index `i` on, with `acc` the tokens read before `i`.
pub open spec fn lex_from(s: Seq<char>, i: int, acc: Seq<TokenM>) -> Result<Seq<TokenM>, Seq<char>>
    decreases s.len() - i,
{
    if i < 0 || i >= s.len() {
        Ok(acc)
    } else {
        match lex_step(s, i) {
            Err(e) => Err(e),
            Ok((t, j)) => if i < j <= s.len() {
                lex_from(
                    s,
                    j,
                    match t {
                        Some(t) => acc.push(t),
                        None => acc,
                    },
                )
            } else {
                Err(Seq::empty())
            },
        }
    }
}

/// The tokens of a source text, or the lexical error that stops it.
pub open spec fn lex_spec(s: Seq<char>) -> Result<Seq<TokenM>, Seq<char>> {
    lex_from(s, 0, Seq::empty())
}

// ------------------------------------------------------------ exec scanning

proof fn lemma_number_end_after(s: Seq<char>, j: int)
    requires
        0 <= j <= s.len(),
    ensures
        j <= number_end(s, j) <= s.len(),
    decreases s.len() - j,
{
    if j < s.len() && number_continues(s, j) {
        lemma_number_end_after(s, j + 1);
    }
}

fn scan_ident(cs: &Vec<char>, j: usize) -> (k: usize)
    requires
        j <= cs.len(),
    ensures
        k as int == ident_end(cs@, j as int),
        j <= k <= cs.len(),
{
    let mut k = j;
    while k < cs.len() && is_identifier_continue(cs[k])
        invariant
            j <= k <= cs.len(),
            ident_end(cs@, j as int) == ident_end(cs@, k as int),
        decreases cs.len() - k,
    {
        k = k + 1;
    }
    k
}

fn scan_number(cs: &Vec<char>, j: usize) -> (k: usize)
    requires
        j <= cs.len(),
    ensures
        k as int == number_end(cs@, j as int),
        j <= k <= cs.len(),
        forall|m: int| j <= m < k ==> is_number_char(#[trigger] cs@[m]),
{
    let mut k = j;
    while k < cs.len() && number_continues_at(cs, k)
        invariant
            j <= k <= cs.len(),
            number_end(cs@, j as int) == number_end(cs@, k as int),
            forall|m: int| j <= m < k ==> is_number_char(#[trigger] cs@[m]),
        decreases cs.len() - k,
    {
        k = k + 1;
    }
    k
}

fn scan_comment(cs: &Vec<char>, j: usize) -> (k: usize)
    requires
        j <= cs.len(),
    ensures
        k as int == comment_end(cs@, j as int),
        j <= k <= cs.len(),
{
    let mut k = j;
    while k < cs.len() && cs[k] != '\n'
        invariant
            j <= k <= cs.len(),
            comment_end(cs@, j as int) == comment_end(cs@, k as int),
        decreases cs.len() - k,
    {
        k = k + 1;
    }
    k
}

fn scan_digits(cs: &Vec<char>, j: usize) -> (k: usize)
    requires
        j <= cs.len(),
    ensures
        k as int == digits_end(cs@, j as int),
        j <= k <= cs.len(),
{
    let mut k = j;
    while k < cs.len() && '0' <= cs[k] && cs[k] <= '9'
        invariant
            j <= k <= cs.len(),
            digits_end(cs@, j as int) == digits_end(cs@, k as int),
        decreases cs.len() - k,
    {
        k = k + 1;
    }
    k
}

/// Reads the body of a string literal whose opening quote stands just before `j`.
fn read_string(cs: &Vec<char>, j: usize) -> (r: Result<(String, usize), String>)
    requires
        j <= cs.len(),
    ensures
        match string_body(cs@, j as int, Seq::empty()) {
            Ok((body, k)) => r matches Ok((b, k2)) && b@ == body && k2 == k && j <= k2 <= cs.len(),
            Err(e) => r matches Err(e2) && e2@ == e,
        },
{
    let mut value = String::new();
    let mut k = j;
    while k < cs.len()
        invariant
            j <= k <= cs.len(),
            string_body(cs@, j as int, Seq::empty()) == string_body(cs@, k as int, value@),
        decreases cs.len() - k,
    {
        let c = cs[k];
        if c == '"' {
            return Ok((value, k + 1));
        } else if c == '\\' {
            if k + 1 >= cs.len() {
                return Err(owned("Unterminated string literal"));
            }
            let e = cs[k + 1];
            if e == 'n' {
                push_char(&mut value, '\n');
            } else if e == 't' {
                push_char(&mut value, '\t');
            } else if e == 'r' {
                push_char(&mut value, '\r');
            } else if e == '\\' {
                push_char(&mut value, '\\');
            } else if e == '"' {
                push_char(&mut value, '"');
            } else if e == '0' {
                push_char(&mut value, '\0');
            } else {
                push_char(&mut value, '\\');
                push_char(&mut value, e);
            }
            k = k + 2;
        } else {
            push_char(&mut value, c);
            k = k + 1;
        }
    }
    Ok((value, k))
}

/// The characters `cs[i..k]` without the `_` separators.
fn clean_lexeme(cs: &Vec<char>, i: usize, k: usize) -> (r: Vec<char>)
    requires
        i <= k <= cs.len(),
    ensures
        r@ == without_underscores(cs@.subrange(i as int, k as int)),
{
    let mut out: Vec<char> = Vec::new();
    let mut m = i;
    assert(cs@.subrange(i as int, i as int) =~= Seq::<char>::empty());
    while m < k
        invariant
            i <= m <= k <= cs.len(),
            out@ == without_underscores(cs@.subrange(i as int, m as int)),
        decreases k - m,
    {
        assert(cs@.subrange(i as int, m + 1).drop_last() =~= cs@.subrange(i as int, m as int));
        if cs[m] != '_' {
            out.push(cs[m]);
        }
        m = m + 1;
    }
    out
}

fn has_char(t: &Vec<char>, c: char) -> (r: bool)
    ensures
        r == t@.contains(c),
{
    let mut m: usize = 0;
    while m < t.len()
        invariant
            m <= t.len(),
            forall|q: int| 0 <= q < m ==> t@[q] != c,
        decreases t.len() - m,
    {
        if t[m] == c {
            return true;
        }
        m = m + 1;
    }
    false
}

fn float_text_valid(t: &Vec<char>) -> (r: bool)
    ensures
        r == float_text_ok(t@),
{
    let a = scan_digits(t, 0);
    let b = if a < t.len() && t[a] == '.' { scan_digits(t, a + 1) } else { a };
    if a == 0 {
        return false;
    }
    if b == t.len() {
        return true;
    }
    if t[b] != 'e' && t[b] != 'E' {
        return false;
    }
    let c = if b + 1 < t.len() && (t[b + 1] == '+' || t[b + 1] == '-') { b + 2 } else { b + 1 };
    let d = scan_digits(t, c);
    d > c && d == t.len()
}

proof fn lemma_decimal_prefix(t: Seq<char>, m: int)
    requires
        all_digits(t),
        0 <= m <= t.len(),
    ensures
        0 <= decimal_value(t.take(m)) <= decimal_value(t),
    decreases t.len(),
{
    if m == t.len() {
        assert(t.take(m) =~= t);
        lemma_decimal_nonneg(t);
    } else {
        let u = t.drop_last();
        assert(all_digits(u)) by {
            assert forall|k: int| 0 <= k < u.len() implies is_digit(#[trigger] u[k]) by {
                assert(u[k] == t[k]);
            }
        }
        lemma_decimal_prefix(u, m);
        assert(u.take(m) =~= t.take(m));
        assert(is_digit(t[t.len() - 1]));
    }
}

proof fn lemma_decimal_nonneg(t: Seq<char>)
    requires
        all_digits(t),
    ensures
        decimal_value(t) >= 0,
    decreases t.len(),
{
    if t.len() > 0 {
        let u = t.drop_last();
        assert(all_digits(u)) by {
            assert forall|k: int| 0 <= k < u.len() implies is_digit(#[trigger] u[k]) by {
                assert(u[k] == t[k]);
            }
        }
        lemma_decimal_nonneg(u);
        assert(is_digit(t[t.len() - 1]));
    }
}

/// The value of a lexeme that `i64::from_str` accepts, or `None`.
fn int_text_value(t: &Vec<char>) -> (r: Option<i64>)
    ensures
        match r {
            Some(v) => int_text_ok(t@) && v as int == decimal_value(t@),
            None => !int_text_ok(t@),
        },
{
    let mut v: i64 = 0;
    let mut m: usize = 0;
    while m < t.len()
        invariant
            m <= t.len(),
            all_digits(t@.take(m as int)),
            v as int == decimal_value(t@.take(m as int)),
            0 <= v,
        decreases t.len() - m,
    {
        let c = t[m];
        assert(t@.take(m + 1).drop_last() =~= t@.take(m as int));
        if c < '0' || c > '9' {
            assert(!all_digits(t@)) by {
                assert(!is_digit(t@[m as int]));
            }
            return None;
        }
        let d: i64 = (c as u32 - 48) as i64;
        if v > (i64::MAX - d) / 10 {
            proof {
                assert(decimal_value(t@.take(m + 1)) == v * 10 + d);
                if all_digits(t@) {
                    lemma_decimal_prefix(t@, m + 1);
                }
            }
            return None;
        }
        v = v * 10 + d;
        assert(all_digits(t@.take(m + 1))) by {
            assert forall|k: int| 0 <= k < m + 1 implies is_digit(#[trigger] t@.take(m + 1)[k]) by {
                if k < m {
                    assert(t@.take(m + 1)[k] == t@.take(m as int)[k]);
                }
            }
        }
        m = m + 1;
    }
    assert(t@.take(t.len() as int) =~= t@);
    Some(v)
}

/// The token for the numeric lexeme `cs[i..k]`.
fn number_lexeme(cs: &Vec<char>, i: usize, k: usize) -> (r: Result<Token, String>)
    requires
        i <= k <= cs.len(),
    ensures
        match number_token(cs@.subrange(i as int, k as int)) {
            Ok(t) => r matches Ok(t2) && t2@ == t,
            Err(e) => r matches Err(e2) && e2@ == e,
        },
{
    let cleaned = clean_lexeme(cs, i, k);
    if has_char(&cleaned, '.') || has_char(&cleaned, 'e') || has_char(&cleaned, 'E') {
        if float_text_valid(&cleaned) {
            Ok(Token::FloatLiteral(string_of(&cleaned)))
        } else {
            let mut msg = owned("Invalid float literal '");
            let mut m = i;
            while m < k
                invariant
                    i <= m <= k <= cs.len(),
                    msg@ == "Invalid float literal '"@ + cs@.subrange(i as int, m as int),
                decreases k - m,
            {
                push_char(&mut msg, cs[m]);
                m = m + 1;
                assert(msg@ =~= "Invalid float literal '"@ + cs@.subrange(i as int, m as int));
            }
            Err(msg)
        }
    } else {
        match int_text_value(&cleaned) {
            Some(v) => Ok(Token::IntLiteral(v)),
            None => {
                let mut msg = owned("Invalid integer literal '");
                let mut m = i;
                while m < k
                    invariant
                        i <= m <= k <= cs.len(),
                        msg@ == "Invalid integer literal '"@ + cs@.subrange(i as int, m as int),
                    decreases k - m,
                {
                    push_char(&mut msg, cs[m]);
                    m = m + 1;
                    assert(msg@ =~= "Invalid integer literal '"@ + cs@.subrange(i as int, m as int));
                }
                Err(msg)
            },
        }
    }
}

/// The keyword or identifier token for the word `cs[i..k]`.
fn word(cs: &Vec<char>, i: usize, k: usize) -> (r: Token)
    requires
        i <= k <= cs.len(),
    ensures
        r@ == word_token(cs@.subrange(i as int, k as int)),
{
    let mut w: Vec<char> = Vec::new();
    let mut m = i;
    while m < k
        invariant
            i <= m <= k <= cs.len(),
            w@ == cs@.subrange(i as int, m as int),
        decreases k - m,
    {
        w.push(cs[m]);
        m = m + 1;
        assert(w@ =~= cs@.subrange(i as int, m as int));
    }
    if chars_are(&w, &vec!['l', 'e', 't']) {
        Token::Let
    } else if chars_are(&w, &vec!['i', 'f']) {
        Token::If
    } else if chars_are(&w, &vec!['e', 'l', 's', 'e']) {
        Token::Else
    } else if chars_are(&w, &vec!['f', 'n']) {
        Token::Fn
    } else if chars_are(&w, &vec!['r', 'e', 't', 'u', 'r', 'n']) {
        Token::Return
    } else if chars_are(&w, &vec!['l', 'o', 'o', 'p']) {
        Token::Loop
    } else if chars_are(&w, &vec!['w', 'h', 'i', 'l', 'e']) {
        Token::While
    } else if chars_are(&w, &vec!['b', 'r', 'e', 'a', 'k']) {
        Token::Break
    } else if chars_are(&w, &vec!['c', 'o', 'n', 't', 'i', 'n', 'u', 'e']) {
        Token::Continue
    } else if chars_are(&w, &vec!['n', 'o', 't']) {
        Token::Not
    } else if chars_are(&w, &vec!['a', 'n', 'd']) {
        Token::And
    } else if chars_are(&w, &vec!['o', 'r']) {
        Token::Or
    } else if chars_are(&w, &vec!['t', 'r', 'u', 'e']) {
        Token::True
    } else if chars_are(&w, &vec!['f', 'a', 'l', 's', 'e']) {
        Token::False
    } else {
        Token::Ident(string_of(&w))
    }
}

fn one_or_two_exec(cs: &Vec<char>, i: usize, second: char, two: Token, one: Token) -> (r: (Option<Token>, usize))
    requires
        i < cs.len(),
    ensures
        ({
            let (t, j) = one_or_two(cs@, i as int, second, two@, one@);
            &&& j == r.1
            &&& i < r.1 <= cs.len()
            &&& t matches Some(tm) && r.0 matches Some(t2) && t2@ == tm
        }),
{
    if i + 1 < cs.len() && cs[i + 1] == second {
        (Some(two), i + 2)
    } else {
        (Some(one), i + 1)
    }
}

/// One step of the lexer at index `i`.
fn step(cs: &Vec<char>, i: usize) -> (r: Result<(Option<Token>, usize), String>)
    requires
        i < cs.len(),
    ensures
        match lex_step(cs@, i as int) {
            Ok((t, j)) => r matches Ok((t2, j2)) && j2 == j && i < j2 <= cs.len() && match (t, t2) {
                (Some(a), Some(b)) => b@ == a,
                (None, None) => true,
                _ => false,
            },
            Err(e) => r matches Err(e2) && e2@ == e,
        },
{
    let c = cs[i];
    if c == ' ' || c == '\t' || c == '\n' || c == '\r' {
        Ok((None, i + 1))
    } else if c == '/' {
        if i + 1 < cs.len() && cs[i + 1] == '/' {
            let k = scan_comment(cs, i + 2);
            Ok((None, k))
        } else {
            Ok((Some(Token::Slash), i + 1))
        }
    } else if c == ':' {
        Ok((Some(Token::Colon), i + 1))
    } else if c == '=' {
        Ok(one_or_two_exec(cs, i, '=', Token::Eq, Token::Assign))
    } else if c == '!' {
        if i + 1 < cs.len() && cs[i + 1] == '=' {
            Ok((Some(Token::Ne), i + 2))
        } else {
            Err(owned("Unexpected character '!'"))
        }
    } else if c == '<' {
        Ok(one_or_two_exec(cs, i, '=', Token::Le, Token::Lt))
    } else if c == '>' {
        Ok(one_or_two_exec(cs, i, '=', Token::Ge, Token::Gt))
    } else if c == '+' {
        Ok((Some(Token::Plus), i + 1))
    } else if c == '-' {
        Ok(one_or_two_exec(cs, i, '>', Token::Arrow, Token::Minus))
    } else if c == '*' {
        Ok((Some(Token::Star), i + 1))
    } else if c == '&' {
        Ok((Some(Token::Amp), i + 1))
    } else if c == '|' {
        Ok((Some(Token::Pipe), i + 1))
    } else if c == '~' {
        Ok((Some(Token::Tilde), i + 1))
    } else if c == '(' {
        Ok((Some(Token::LParen), i + 1))
    } else if c == ')' {
        Ok((Some(Token::RParen), i + 1))
    } else if c == '{' {
        Ok((Some(Token::LBrace), i + 1))
    } else if c == '}' {
        Ok((Some(Token::RBrace), i + 1))
    } else if c == '[' {
        Ok((Some(Token::LBracket), i + 1))
    } else if c == ']' {
        Ok((Some(Token::RBracket), i + 1))
    } else if c == ';' {
        Ok((Some(Token::Semicolon), i + 1))
    } else if c == ',' {
        Ok((Some(Token::Comma), i + 1))
    } else if c == '"' {
        match read_string(cs, i + 1) {
            Ok((body, j)) => Ok((Some(Token::StringLiteral(body)), j)),
            Err(e) => Err(e),
        }
    } else if '0' <= c && c <= '9' {
        let j = scan_number(cs, i);
        assert(number_continues(cs@, i as int));
        assert(number_end(cs@, i as int) == number_end(cs@, i + 1));
        assert(number_end(cs@, i + 1) >= i + 1) by {
            lemma_number_end_after(cs@, i + 1);
        }
        match number_lexeme(cs, i, j) {
            Ok(t) => Ok((Some(t), j)),
            Err(e) => Err(e),
        }
    } else if is_identifier_start(c) {
        let j = scan_ident(cs, i + 1);
        Ok((Some(word(cs, i, j)), j))
    } else {
        let mut msg = owned("Unexpected character '");
        push_char(&mut msg, c);
        msg.append("'");
        assert(msg@ =~= "Unexpected character '"@ + seq![c] + "'"@);
        Err(msg)
    }
}

/// Splits a source text into tokens. Spaces, tabs, line breaks and `//`
/// comments separate tokens; the result is exactly [`lex_spec`] of the text.
pub fn lex(source: &str) -> (r: Result<Vec<Token>, String>)
    ensures
        match lex_spec(source@) {
            Ok(ts) => r matches Ok(v) && view_tokens(v@) == ts,
            Err(e) => r matches Err(e2) && e2@ == e,
        },
{
    let cs = str_chars(source);
    let mut tokens: Vec<Token> = Vec::new();
    let mut i: usize = 0;
    assert(view_tokens(tokens@) =~= Seq::<TokenM>::empty());
    while i < cs.len()
        invariant
            i <= cs.len(),
            cs@ == source@,
            lex_spec(cs@) == lex_from(cs@, i as int, view_tokens(tokens@)),
        decreases cs.len() - i,
    {
        let ghost before = view_tokens(tokens@);
        match step(&cs, i) {
            Err(e) => {
                return Err(e);
            },
            Ok((t, j)) => {
                match t {
                    Some(t) => {
                        tokens.push(t);
                        assert(view_tokens(tokens@) =~= before.push(t@));
                    },
                    None => {},
                }
                i = j;
            },
        }
    }
    Ok(tokens)
}

// ------------------------------------------------------- debug rendering

/// How `{:?}` renders a token. A float literal shows the text it was read from.
pub open spec fn token_debug(t: TokenM) -> Seq<char> {
    match t {
        TokenM::Let => "Let"@,
        TokenM::If => "If"@,
        TokenM::Else => "Else"@,
        TokenM::Fn => "Fn"@,
        TokenM::Return => "Return"@,
        TokenM::Loop => "Loop"@,
        TokenM::While => "While"@,
        TokenM::Break => "Break"@,
        TokenM::Continue => "Continue"@,
        TokenM::Not => "Not"@,
        TokenM::And => "And"@,
        TokenM::Or => "Or"@,
        TokenM::True => "True"@,
        TokenM::False => "False"@,
        TokenM::Colon => "Colon"@,
        TokenM::Assign => "Assign"@,
        TokenM::Arrow => "Arrow"@,
        TokenM::Eq => "Eq"@,
        TokenM::Ne => "Ne"@,
        TokenM::Lt => "Lt"@,
        TokenM::Gt => "Gt"@,
        TokenM::Le => "Le"@,
        TokenM::Ge => "Ge"@,
        TokenM::Plus => "Plus"@,
        TokenM::Minus => "Minus"@,
        TokenM::Star => "Star"@,
        TokenM::Slash => "Slash"@,
        TokenM::Amp => "Amp"@,
        TokenM::Pipe => "Pipe"@,
        TokenM::Tilde => "Tilde"@,
        TokenM::LParen => "LParen"@,
        TokenM::RParen => "RParen"@,
        TokenM::LBrace => "LBrace"@,
        TokenM::RBrace => "RBrace"@,
        TokenM::LBracket => "LBracket"@,
        TokenM::RBracket => "RBracket"@,
        TokenM::Semicolon => "Semicolon"@,
        TokenM::Comma => "Comma"@,
        TokenM::IntLiteral(i) => "IntLiteral("@ + int_text(i as int) + ")"@,
        TokenM::FloatLiteral(s) => "FloatLiteral("@ + s + ")"@,
        TokenM::StringLiteral(s) => "StringLiteral("@ + debug_str(s) + ")"@,
        TokenM::Ident(s) => "Ident("@ + debug_str(s) + ")"@,
    }
}

fn wrapped(head: &str, inner: &str) -> (r: String)
    ensures
        r@ == head@ + inner@ + ")"@,
{
    let mut r = owned(head);
    r.append(inner);
    r.append(")");
    r
}

/// The debug rendering of a token, as used in parser error messages.
pub fn token_debug_text(t: &Token) -> (r: String)
    ensures
        r@ == token_debug(t@),
{
    match t {
        Token::Let => owned("Let"),
        Token::If => owned("If"),
        Token::Else => owned("Else"),
        Token::Fn => owned("Fn"),
        Token::Return => owned("Return"),
        Token::Loop => owned("Loop"),
        Token::While => owned("While"),
        Token::Break => owned("Break"),
        Token::Continue => owned("Continue"),
        Token::Not => owned("Not"),
        Token::And => owned("And"),
        Token::Or => owned("Or"),
        Token::True => owned("True"),
        Token::False => owned("False"),
        Token::Colon => owned("Colon"),
        Token::Assign => owned("Assign"),
        Token::Arrow => owned("Arrow"),
        Token::Eq => owned("Eq"),
        Token::Ne => owned("Ne"),
        Token::Lt => owned("Lt"),
        Token::Gt => owned("Gt"),
        Token::Le => owned("Le"),
        Token::Ge => owned("Ge"),
        Token::Plus => owned("Plus"),
        Token::Minus => owned("Minus"),
        Token::Star => owned("Star"),
        Token::Slash => owned("Slash"),
        Token::Amp => owned("Amp"),
        Token::Pipe => owned("Pipe"),
        Token::Tilde => owned("Tilde"),
        Token::LParen => owned("LParen"),
        Token::RParen => owned("RParen"),
        Token::LBrace => owned("LBrace"),
        Token::RBrace => owned("RBrace"),
        Token::LBracket => owned("LBracket"),
        Token::RBracket => owned("RBracket"),
        Token::Semicolon => owned("Semicolon"),
        Token::Comma => owned("Comma"),
        Token::IntLiteral(i) => {
            let d = i64_text(*i);
            wrapped("IntLiteral(", d.as_str())
        },
        Token::FloatLiteral(s) => wrapped("FloatLiteral(", s.as_str()),
        Token::StringLiteral(s) => {
            let d = debug_text(s.as_str());
            wrapped("StringLiteral(", d.as_str())
        },
        Token::Ident(s) => {
            let d = debug_text(s.as_str());
            wrapped("Ident(", d.as_str())
        },
    }
}

/// A copy of a token.
pub fn copy_token(t: &Token) -> (r: Token)
    ensures
        r@ == t@,
{
    match t {
        Token::Let => Token::Let,
        Token::If => Token::If,
        Token::Else => Token::Else,
        Token::Fn => Token::Fn,
        Token::Return => Token::Return,
        Token::Loop => Token::Loop,
        Token::While => Token::While,
        Token::Break => Token::Break,
        Token::Continue => Token::Continue,
        Token::Not => Token::Not,
        Token::And => Token::And,
        Token::Or => Token::Or,
        Token::True => Token::True,
        Token::False => Token::False,
        Token::Colon => Token::Colon,
        Token::Assign => Token::Assign,
        Token::Arrow => Token::Arrow,
        Token::Eq => Token::Eq,
        Token::Ne => Token::Ne,
        Token::Lt => Token::Lt,
        Token::Gt => Token::Gt,
        Token::Le => Token::Le,
        Token::Ge => Token::Ge,
        Token::Plus => Token::Plus,
        Token::Minus => Token::Minus,
        Token::Star => Token::Star,
        Token::Slash => Token::Slash,
        Token::Amp => Token::Amp,
        Token::Pipe => Token::Pipe,
        Token::Tilde => Token::Tilde,
        Token::LParen => Token::LParen,
        Token::RParen => Token::RParen,
        Token::LBrace => Token::LBrace,
        Token::RBrace => Token::RBrace,
        Token::LBracket => Token::LBracket,
        Token::RBracket => Token::RBracket,
        Token::Semicolon => Token::Semicolon,
        Token::Comma => Token::Comma,
        Token::IntLiteral(i) => Token::IntLiteral(*i),
        Token::FloatLiteral(s) => Token::FloatLiteral(s.clone()),
        Token::StringLiteral(s) => Token::StringLiteral(s.clone()),
        Token::Ident(s) => Token::Ident(s.clone()),
    }
}

impl Clone for Token {
    fn clone(&self) -> (r: Self)
        ensures
            r@ == self@,
    {
        copy_token(self)
    }
}

/// Whether two tokens are the same.
pub fn same_token(a: &Token, b: &Token) -> (r: bool)
    ensures
        r == (a@ == b@),
{
    match (a, b) {
        (Token::Let, Token::Let) => true,
        (Token::If, Token::If) => true,
        (Token::Else, Token::Else) => true,
        (Token::Fn, Token::Fn) => true,
        (Token::Return, Token::Return) => true,
        (Token::Loop, Token::Loop) => true,
        (Token::While, Token::While) => true,
        (Token::Break, Token::Break) => true,
        (Token::Continue, Token::Continue) => true,
        (Token::Not, Token::Not) => true,
        (Token::And, Token::And) => true,
        (Token::Or, Token::Or) => true,
        (Token::True, Token::True) => true,
        (Token::False, Token::False) => true,
        (Token::Colon, Token::Colon) => true,
        (Token::Assign, Token::Assign) => true,
        (Token::Arrow, Token::Arrow) => true,
        (Token::Eq, Token::Eq) => true,
        (Token::Ne, Token::Ne) => true,
        (Token::Lt, Token::Lt) => true,
        (Token::Gt, Token::Gt) => true,
        (Token::Le, Token::Le) => true,
        (Token::Ge, Token::Ge) => true,
        (Token::Plus, Token::Plus) => true,
        (Token::Minus, Token::Minus) => true,
        (Token::Star, Token::Star) => true,
        (Token::Slash, Token::Slash) => true,
        (Token::Amp, Token::Amp) => true,
        (Token::Pipe, Token::Pipe) => true,
        (Token::Tilde, Token::Tilde) => true,
        (Token::LParen, Token::LParen) => true,
        (Token::RParen, Token::RParen) => true,
        (Token::LBrace, Token::LBrace) => true,
        (Token::RBrace, Token::RBrace) => true,
        (Token::LBracket, Token::LBracket) => true,
        (Token::RBracket, Token::RBracket) => true,
        (Token::Semicolon, Token::Semicolon) => true,
        (Token::Comma, Token::Comma) => true,
        (Token::IntLiteral(x), Token::IntLiteral(y)) => *x == *y,
        (Token::FloatLiteral(x), Token::FloatLiteral(y)) => *x == *y,
        (Token::StringLiteral(x), Token::StringLiteral(y)) => *x == *y,
        (Token::Ident(x), Token::Ident(y)) => *x == *y,
        _ => false,
    }
}


// ------------------------------------------------------------ laws of lexing

/// The words that are keywords, not identifiers.
pub open spec fn is_keyword(w: Seq<char>) -> bool {
    ||| w == seq!['l', 'e', 't']
    ||| w == seq!['i', 'f']
    ||| w == seq!['e', 'l', 's', 'e']
    ||| w == seq!['f', 'n']
    ||| w == seq!['r', 'e', 't', 'u', 'r', 'n']
    ||| w == seq!['l', 'o', 'o', 'p']
    ||| w == seq!['w', 'h', 'i', 'l', 'e']
    ||| w == seq!['b', 'r', 'e', 'a', 'k']
    ||| w == seq!['c', 'o', 'n', 't', 'i', 'n', 'u', 'e']
    ||| w == seq!['n', 'o', 't']
    ||| w == seq!['a', 'n', 'd']
    ||| w == seq!['o', 'r']
    ||| w == seq!['t', 'r', 'u', 'e']
    ||| w == seq!['f', 'a', 'l', 's', 'e']
}

/// A well-formed identifier: not empty, starting with an ASCII letter or
/// `_`, going on with ASCII letters, digits or `_`, and no keyword.
pub open spec fn ident_well_formed(n: Seq<char>) -> bool {
    &&& n.len() > 0
    &&& is_ident_start(n[0])
    &&& forall|k: int| 0 <= k < n.len() ==> is_ident_continue(#[trigger] n[k])
    &&& !is_keyword(n)
}

/// Every identifier token of a sequence is well formed.
pub open spec fn idents_well_formed(ts: Seq<TokenM>) -> bool {
    forall|k: int| 0 <= k < ts.len() ==> (#[trigger] ts[k] matches TokenM::Ident(n) ==> ident_well_formed(n))
}

proof fn lemma_ident_end(s: Seq<char>, k: int)
    requires
        0 <= k <= s.len(),
    ensures
        k <= ident_end(s, k) <= s.len(),
        forall|m: int| k <= m < ident_end(s, k) ==> is_ident_continue(#[trigger] s[m]),
    decreases s.len() - k,
{
    if k < s.len() && is_ident_continue(s[k]) {
        lemma_ident_end(s, k + 1);
    }
}

/// The token one step of the lexer reads, if it is an identifier, is well formed.
proof fn lemma_step_ident(s: Seq<char>, i: int)
    requires
        0 <= i < s.len(),
    ensures
        lex_step(s, i) matches Ok((Some(TokenM::Ident(n)), _)) ==> ident_well_formed(n),
{
    let c = s[i];
    if is_ident_start(c) && !is_whitespace(c) && !is_digit(c) {
        lemma_ident_end(s, i + 1);
        let j = ident_end(s, i + 1);
        let w = s.subrange(i, j);
        assert forall|k: int| 0 <= k < w.len() implies is_ident_continue(#[trigger] w[k]) by {
            if k > 0 {
                assert(w[k] == s[i + k]);
            }
        }
    }
}

proof fn lemma_lex_from_idents(s: Seq<char>, i: int, acc: Seq<TokenM>)
    requires
        idents_well_formed(acc),
    ensures
        lex_from(s, i, acc) matches Ok(ts) ==> idents_well_formed(ts),
    decreases s.len() - i,
{
    if 0 <= i < s.len() {
        lemma_step_ident(s, i);
        match lex_step(s, i) {
            Ok((t, j)) => if i < j <= s.len() {
                let acc2 = match t {
                    Some(t) => acc.push(t),
                    None => acc,
                };
                assert(idents_well_formed(acc2)) by {
                    assert forall|k: int| 0 <= k < acc2.len() implies (#[trigger] acc2[k] matches TokenM::Ident(
                        n,
                    ) ==> ident_well_formed(n)) by {
                        if k < acc.len() {
                            assert(acc2[k] == acc[k]);
                        }
                    }
                }
                lemma_lex_from_idents(s, j, acc2);
            },
            Err(_) => {},
        }
    }
}

/// Every identifier the lexer produces is well formed: words that are
/// keywords become keyword tokens, never identifiers.
pub proof fn lemma_lex_idents_well_formed(s: Seq<char>)
    ensures
        lex_spec(s) matches Ok(ts) ==> idents_well_formed(ts),
{
    lemma_lex_from_idents(s, 0, Seq::empty());
}

} // verus!
