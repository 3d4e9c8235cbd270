use vstd::prelude::*;

use crate::frontend::errors::LexerError;

verus! {

/// Operators of the language.
#[derive(Debug, Clone, Copy, PartialEq, Eq, Structural)]
pub enum Operator {
    Add,
    Sub,
    Mul,
    Div,
    Inc,
    Dec,
    Lt,
    Le,
    Gt,
    Ge,
    Eql,
    Neq,
    Assign,
    BitOr,
    Or,
    BitAnd,
    And,
    Not,
    BitNot,
    Mod,
    ShiftLeft,
    ShiftRight,
}

impl Operator {
    /// The token that carries this operator.
    pub fn into_token(self) -> (t: TokenType)
        ensures
            t == TokenType::Operator(self),
    {
        TokenType::Operator(self)
    }
}

/// Keywords of the language.
#[derive(Debug, Clone, Copy, PartialEq, Eq, Structural)]
pub enum Keyword {
    Int,
    Char,
    If,
    Else,
    Void,
    While,
    For,
    Cast,
    Break,
    Conti,
    Return,
    Struct,
}

impl Keyword {
    /// The token that carries this keyword.
    pub fn into_token(self) -> (t: TokenType)
        ensures
            t == TokenType::Kw(self),
    {
        TokenType::Kw(self)
    }
}

/// Kinds of tokens.
#[derive(Debug, Clone, PartialEq, Eq)]
pub enum TokenType {
    Eof,
    Error,
    Ident(String),
    Operator(Operator),
    Int(i64),
    Char(char),
    Kw(Keyword),
    LeftBrac,
    RightBrac,
    LeftCurly,
    RightCurly,
    LeftSquare,
    RightSquare,
    Semicol,
    Comma,
    Dot,
    At,
}

/// Equality of two token kinds, identifiers compared by their characters.
pub open spec fn tok_eq(a: TokenType, b: TokenType) -> bool {
    match (a, b) {
        (TokenType::Ident(x), TokenType::Ident(y)) => x@ == y@,
        (TokenType::Ident(_), _) => false,
        (_, TokenType::Ident(_)) => false,
        _ => a == b,
    }
}

impl TokenType {
    /// Compares two token kinds; identifiers are equal when their names are.
    pub fn same(&self, other: &TokenType) -> (r: bool)
        ensures
            r == tok_eq(*self, *other),
    {
        match (self, other) {
            (TokenType::Ident(x), TokenType::Ident(y)) => *x == *y,
            (TokenType::Ident(_), _) => false,
            (_, TokenType::Ident(_)) => false,
            (TokenType::Eof, TokenType::Eof) => true,
            (TokenType::Error, TokenType::Error) => true,
            (TokenType::Operator(x), TokenType::Operator(y)) => *x == *y,
            (TokenType::Int(x), TokenType::Int(y)) => *x == *y,
            (TokenType::Char(x), TokenType::Char(y)) => *x == *y,
            (TokenType::Kw(x), TokenType::Kw(y)) => *x == *y,
            (TokenType::LeftBrac, TokenType::LeftBrac) => true,
            (TokenType::RightBrac, TokenType::RightBrac) => true,
            (TokenType::LeftCurly, TokenType::LeftCurly) => true,
            (TokenType::RightCurly, TokenType::RightCurly) => true,
            (TokenType::LeftSquare, TokenType::LeftSquare) => true,
            (TokenType::RightSquare, TokenType::RightSquare) => true,
            (TokenType::Semicol, TokenType::Semicol) => true,
            (TokenType::Comma, TokenType::Comma) => true,
            (TokenType::Dot, TokenType::Dot) => true,
            (TokenType::At, TokenType::At) => true,
            _ => false,
        }
    }

    /// A copy of this token kind.
    pub fn duplicate(&self) -> (r: TokenType)
        ensures
            r == *self,
    {
        match self {
            TokenType::Ident(s) => TokenType::Ident(s.clone()),
            TokenType::Eof => TokenType::Eof,
            TokenType::Error => TokenType::Error,
            TokenType::Operator(o) => TokenType::Operator(*o),
            TokenType::Int(i) => TokenType::Int(*i),
            TokenType::Char(c) => TokenType::Char(*c),
            TokenType::Kw(k) => TokenType::Kw(*k),
            TokenType::LeftBrac => TokenType::LeftBrac,
            TokenType::RightBrac => TokenType::RightBrac,
            TokenType::LeftCurly => TokenType::LeftCurly,
            TokenType::RightCurly => TokenType::RightCurly,
            TokenType::LeftSquare => TokenType::LeftSquare,
            TokenType::RightSquare => TokenType::RightSquare,
            TokenType::Semicol => TokenType::Semicol,
            TokenType::Comma => TokenType::Comma,
            TokenType::Dot => TokenType::Dot,
            TokenType::At => TokenType::At,
        }
    }
}

/// A token with the place where it starts.
#[derive(Debug, Clone, PartialEq, Eq)]
pub struct Token {
    pub row: usize,
    pub col: usize,
    pub position: usize,
    pub file_name: String,
    pub tok: TokenType,
}

impl Token {
    pub open spec fn spec_loc(&self) -> Loc {
        Loc { row: self.row, col: self.col, position: self.position }
    }

    #[verifier::when_used_as_spec(spec_loc)]
    pub fn loc(&self) -> (l: Loc)
        ensures
            l == (Loc { row: self.row, col: self.col, position: self.position }),
    {
        Loc { row: self.row, col: self.col, position: self.position }
    }

    /// A copy of this token.
    pub fn duplicate(&self) -> (r: Token)
        ensures
            r == *self,
    {
        Token {
            row: self.row,
            col: self.col,
            position: self.position,
            file_name: self.file_name.clone(),
            tok: self.tok.duplicate(),
        }
    }
}

/// A place in the input.
#[derive(Clone, Copy, PartialEq, Eq, Debug, Structural)]
pub struct Loc {
    pub row: usize,
    pub col: usize,
    pub position: usize,
}

/// Lexer over a sequence of characters.
pub struct Lexer {
    pub act_loc: Loc,
    pub last_loc: Loc,
    pub file_name: String,
    pub input: Vec<char>,
}

/// Whitespace as `char::is_whitespace` decides it: the characters with the Unicode
/// `White_Space` property, U+0009 to U+000D, U+0020, U+0085, U+00A0, U+1680, U+2000 to
/// U+200A, U+2028, U+2029, U+202F, U+205F and U+3000.
pub open spec fn spec_is_whitespace(c: char) -> bool {
    ||| '\u{9}' <= c && c <= '\u{d}'
    ||| c == ' '
    ||| c == '\u{85}'
    ||| c == '\u{a0}'
    ||| c == '\u{1680}'
    ||| '\u{2000}' <= c && c <= '\u{200a}'
    ||| c == '\u{2028}'
    ||| c == '\u{2029}'
    ||| c == '\u{202f}'
    ||| c == '\u{205f}'
    ||| c == '\u{3000}'
}

/// An ASCII letter, `a` to `z` or `A` to `Z`.
pub open spec fn is_ascii_letter(c: char) -> bool {
    ('a' <= c && c <= 'z') || ('A' <= c && c <= 'Z')
}

/// Whether `c` lies outside ASCII.
pub open spec fn beyond_ascii(c: char) -> bool {
    '\u{80}' <= c
}

/// Letters beyond ASCII as `char::is_alphabetic` decides them (Unicode tables).
pub uninterp spec fn unicode_alphabetic(c: char) -> bool;

/// Numerals beyond ASCII as `char::is_numeric` decides them (Unicode tables).
pub uninterp spec fn unicode_numeric(c: char) -> bool;

/// Letters as `char::is_alphabetic` decides them: in ASCII exactly the ASCII letters.
pub open spec fn spec_is_alphabetic(c: char) -> bool {
    if beyond_ascii(c) {
        unicode_alphabetic(c)
    } else {
        is_ascii_letter(c)
    }
}

/// Numerals as `char::is_numeric` decides them: in ASCII exactly `0` to `9`.
pub open spec fn spec_is_numeric(c: char) -> bool {
    if beyond_ascii(c) {
        unicode_numeric(c)
    } else {
        '0' <= c && c <= '9'
    }
}

/// Letters and numerals: `char::is_alphanumeric` is documented as `is_alphabetic() || is_numeric()`.
pub open spec fn spec_is_alphanumeric(c: char) -> bool {
    spec_is_alphabetic(c) || spec_is_numeric(c)
}

/// `char::is_whitespace`: true exactly for the characters with the Unicode `White_Space`
/// property, which `spec_is_whitespace` lists.
#[verifier::external_body]
fn char_is_whitespace(c: char) -> (r: bool)
    ensures
        r == spec_is_whitespace(c),
{
    c.is_whitespace()
}

/// `char::is_alphabetic`: true for the characters with the Unicode `Alphabetic` property;
/// in ASCII these are the letters `a` to `z` and `A` to `Z`. Beyond ASCII the property is
/// named by `unicode_alphabetic`, and no more is claimed there.
#[verifier::external_body]
fn char_is_alphabetic(c: char) -> (r: bool)
    ensures
        r == (if beyond_ascii(c) { unicode_alphabetic(c) } else { is_ascii_letter(c) }),
{
    c.is_alphabetic()
}

/// `char::is_alphanumeric`: documented as `c.is_alphabetic() || c.is_numeric()`; in ASCII
/// that is the letters and `0` to `9`. Beyond ASCII the two Unicode properties are named
/// by `unicode_alphabetic` and `unicode_numeric`, and no more is claimed there.
#[verifier::external_body]
fn char_is_alphanumeric(c: char) -> (r: bool)
    ensures
        r == (if beyond_ascii(c) {
            unicode_alphabetic(c) || unicode_numeric(c)
        } else {
            is_ascii_letter(c) || ('0' <= c && c <= '9')
        }),
{
    c.is_alphanumeric()
}

/// `FromIterator<char>` for `String`: the string holds exactly the given characters.
#[verifier::external_body]
pub(crate) fn chars_to_string(v: &Vec<char>) -> (s: String)
    ensures
        s@ == v@,
{
    v.iter().collect()
}

/// The characters of a string.
pub fn string_chars(s: &String) -> (v: Vec<char>)
    ensures
        v@ == s@,
{
    broadcast use vstd::string::axiom_spec_iter;

    let mut v: Vec<char> = Vec::new();
    for c in it: s.as_str().chars()
        invariant
            v@ == it.seq().take(it.index() as int),
            it.seq() == s@,
    {
        v.push(c);
    }
    v
}

pub open spec fn spec_is_digit(c: char) -> bool {
    '0' <= c && c <= '9'
}

pub open spec fn spec_is_ident_char(c: char) -> bool {
    spec_is_alphanumeric(c) || c == '_'
}

pub open spec fn digit_value(c: char) -> i64 {
    (c as int - '0' as int) as i64
}

/// First position at or after `p` that does not hold whitespace.
pub open spec fn skip_white(s: Seq<char>, p: int) -> int
    decreases s.len() - p,
{
    if 0 <= p < s.len() && spec_is_whitespace(s[p]) {
        skip_white(s, p + 1)
    } else {
        p
    }
}

/// First position at or after `p` that does not hold an identifier character.
pub open spec fn ident_end(s: Seq<char>, p: int) -> int
    decreases s.len() - p,
{
    if 0 <= p < s.len() && spec_is_ident_char(s[p]) {
        ident_end(s, p + 1)
    } else {
        p
    }
}

/// First position at or after `p` that does not hold a decimal digit.
pub open spec fn digits_end(s: Seq<char>, p: int) -> int
    decreases s.len() - p,
{
    if 0 <= p < s.len() && spec_is_digit(s[p]) {
        digits_end(s, p + 1)
    } else {
        p
    }
}

/// Decimal value of the digits in `s[start..end]`, in 64-bit wrapping arithmetic.
pub open spec fn digits_value(s: Seq<char>, start: int, end: int) -> i64
    decreases end - start,
{
    if end <= start {
        0
    } else {
        vstd::wrapping::i64_specs::wrapping_add(
            vstd::wrapping::i64_specs::wrapping_mul(digits_value(s, start, end - 1), 10),
            digit_value(s[end - 1]),
        )
    }
}

/// The keyword spelled by `w`, if any.
pub open spec fn keyword_of(w: Seq<char>) -> Option<Keyword> {
    if w == seq!['i', 'n', 't'] {
        Some(Keyword::Int)
    } else if w == seq!['c', 'h', 'a', 'r'] {
        Some(Keyword::Char)
    } else if w == seq!['i', 'f'] {
        Some(Keyword::If)
    } else if w == seq!['e', 'l', 's', 'e'] {
        Some(Keyword::Else)
    } else if w == seq!['v', 'o', 'i', 'd'] {
        Some(Keyword::Void)
    } else if w == seq!['w', 'h', 'i', 'l', 'e'] {
        Some(Keyword::While)
    } else if w == seq!['f', 'o', 'r'] {
        Some(Keyword::For)
    } else if w == seq!['c', 'a', 's', 't'] {
        Some(Keyword::Cast)
    } else if w == seq!['b', 'r', 'e', 'a', 'k'] {
        Some(Keyword::Break)
    } else if w == seq!['c', 'o', 'n', 't', 'i', 'n', 'u', 'e'] {
        Some(Keyword::Conti)
    } else if w == seq!['r', 'e', 't', 'u', 'r', 'n'] {
        Some(Keyword::Return)
    } else if w == seq!['s', 't', 'r', 'u', 'c', 't'] {
        Some(Keyword::Struct)
    } else {
        None
    }
}

/// The token kind of a word: its keyword, or an identifier named by it.
pub open spec fn word_token(w: Seq<char>, t: TokenType) -> bool {
    match keyword_of(w) {
        Some(k) => t == TokenType::Kw(k),
        None => t matches TokenType::Ident(name) && name@ == w,
    }
}

/// Result of matching one expected character at `p`: the position after it, or the error.
pub open spec fn spec_compare(s: Seq<char>, p: int, c: char) -> Result<int, LexerError> {
    if !(0 <= p < s.len()) {
        Err(LexerError::UnexpectedEof)
    } else if s[p] == c {
        Ok(p + 1)
    } else {
        Err(LexerError::UnexpectedCharacter(s[p]))
    }
}

/// Result of reading a character literal `'c'` that starts at `p`.
pub open spec fn spec_char_lit(s: Seq<char>, p: int) -> Result<(char, int), LexerError> {
    match spec_compare(s, p, '\'') {
        Err(e) => Err(e),
        Ok(q) => if !(0 <= q < s.len()) {
            Err(LexerError::UnexpectedEof)
        } else {
            match spec_compare(s, q + 1, '\'') {
                Err(e) => Err(e),
                Ok(r) => Ok((s[q], r)),
            }
        },
    }
}

/// An operator of one character, or of two when the next character is `second`.
pub open spec fn spec_double(s: Seq<char>, p: int, second: char, normal: TokenType, double: TokenType) -> (TokenType, int) {
    if p + 1 < s.len() && s[p + 1] == second {
        (double, p + 2)
    } else {
        (normal, p + 1)
    }
}

/// Token kinds of single characters.
pub open spec fn single_char_token(c: char) -> Option<TokenType> {
    if c == '*' {
        Some(TokenType::Operator(Operator::Mul))
    } else if c == '/' {
        Some(TokenType::Operator(Operator::Div))
    } else if c == '%' {
        Some(TokenType::Operator(Operator::Mod))
    } else if c == '~' {
        Some(TokenType::Operator(Operator::BitNot))
    } else if c == '(' {
        Some(TokenType::LeftBrac)
    } else if c == ')' {
        Some(TokenType::RightBrac)
    } else if c == '{' {
        Some(TokenType::LeftCurly)
    } else if c == '}' {
        Some(TokenType::RightCurly)
    } else if c == '[' {
        Some(TokenType::LeftSquare)
    } else if c == ']' {
        Some(TokenType::RightSquare)
    } else if c == ';' {
        Some(TokenType::Semicol)
    } else if c == ',' {
        Some(TokenType::Comma)
    } else if c == '.' {
        Some(TokenType::Dot)
    } else if c == '@' {
        Some(TokenType::At)
    } else if c == '0' {
        Some(TokenType::Int(0))
    } else {
        None
    }
}

/// Operators of one or two characters: the first character, the second one that makes
/// the longer operator, and the two operators.
pub open spec fn double_char_op(c: char) -> Option<(char, Operator, Operator)> {
    if c == '+' {
        Some(('+', Operator::Add, Operator::Inc))
    } else if c == '-' {
        Some(('-', Operator::Sub, Operator::Dec))
    } else if c == '=' {
        Some(('=', Operator::Assign, Operator::Eql))
    } else if c == '<' {
        Some(('=', Operator::Lt, Operator::Le))
    } else if c == '>' {
        Some(('=', Operator::Gt, Operator::Ge))
    } else if c == '|' {
        Some(('|', Operator::BitOr, Operator::Or))
    } else if c == '&' {
        Some(('&', Operator::BitAnd, Operator::And))
    } else if c == '!' {
        Some(('=', Operator::Not, Operator::Neq))
    } else {
        None
    }
}

/// The token that starts at `p`, where `p` is inside the input and holds no whitespace:
/// either the error, or whether `t` is the token kind and `end` the position after it.
pub open spec fn token_at(s: Seq<char>, p: int, t: TokenType, end: int) -> bool {
    let c = s[p];
    match double_char_op(c) {
        Some((second, normal, double)) => (t, end) == spec_double(
            s,
            p,
            second,
            TokenType::Operator(normal),
            TokenType::Operator(double),
        ),
        None => match single_char_token(c) {
            Some(tt) => t == tt && end == p + 1,
            None => if spec_is_alphabetic(c) || c == '_' {
                end == ident_end(s, p) && word_token(s.subrange(p, end), t)
            } else if spec_is_digit(c) {
                end == digits_end(s, p) && t == TokenType::Int(digits_value(s, p, end))
            } else if c == '\'' {
                spec_char_lit(s, p) matches Ok((ch, e)) && t == TokenType::Char(ch) && end == e
            } else {
                false
            },
        },
    }
}

/// The error met when reading a token at `p` (inside the input, no whitespace), if any.
pub open spec fn token_error_at(s: Seq<char>, p: int) -> Option<LexerError> {
    let c = s[p];
    if double_char_op(c) is Some || single_char_token(c) is Some || spec_is_alphabetic(c)
        || c == '_' || spec_is_digit(c) {
        None
    } else if c == '\'' {
        match spec_char_lit(s, p) {
            Err(e) => Some(e),
            Ok(_) => None,
        }
    } else {
        Some(LexerError::UnexpectedCharacter(c))
    }
}

/// Skipping whitespace never moves back, stays inside the input, and stops on a
/// character that is not whitespace.
pub proof fn lemma_skip_white(s: Seq<char>, p: int)
    requires
        0 <= p,
    ensures
        p <= skip_white(s, p),
        p <= s.len() ==> skip_white(s, p) <= s.len(),
        skip_white(s, p) < s.len() ==> !spec_is_whitespace(s[skip_white(s, p)]),
        p > s.len() ==> skip_white(s, p) == p,
    decreases s.len() - p,
{
    if 0 <= p < s.len() && spec_is_whitespace(s[p]) {
        lemma_skip_white(s, p + 1);
    }
}

proof fn lemma_ident_end(s: Seq<char>, p: int)
    requires
        0 <= p <= s.len(),
    ensures
        p <= ident_end(s, p) <= s.len(),
    decreases s.len() - p,
{
    if 0 <= p < s.len() && spec_is_ident_char(s[p]) {
        lemma_ident_end(s, p + 1);
    }
}

proof fn lemma_digits_end(s: Seq<char>, p: int)
    requires
        0 <= p <= s.len(),
    ensures
        p <= digits_end(s, p) <= s.len(),
    decreases s.len() - p,
{
    if 0 <= p < s.len() && spec_is_digit(s[p]) {
        lemma_digits_end(s, p + 1);
    }
}

/// A token read inside the input ends after its start, inside the input, and is not
/// the end of input.
pub proof fn lemma_token_advances(s: Seq<char>, p: int, t: TokenType, e: int)
    requires
        0 <= p < s.len(),
        token_at(s, p, t, e),
    ensures
        p < e <= s.len(),
        !(t is Eof),
{
    let c = s[p];
    if double_char_op(c) is None && single_char_token(c) is None {
        if spec_is_alphabetic(c) || c == '_' {
            lemma_ident_end(s, p + 1);
        } else if spec_is_digit(c) {
            lemma_digits_end(s, p + 1);
        }
    }
}

impl Lexer {
    pub open spec fn pos(&self) -> int {
        self.act_loc.position as int
    }

    /// The lexer keeps its input, file name and the rows and columns of its places.
    pub open spec fn same_input(&self, other: &Lexer) -> bool {
        &&& self.input@ == other.input@
        &&& self.file_name == other.file_name
        &&& self.act_loc.row == other.act_loc.row
        &&& self.act_loc.col == other.act_loc.col
    }

    pub fn new(file_name: String, input: String) -> (l: Self)
        ensures
            l.input@ == input@,
            l.file_name@ == file_name@,
            l.act_loc == (Loc { row: 0, col: 0, position: 0 }),
            l.last_loc == (Loc { row: 0, col: 0, position: 0 }),
    {
        let chars = string_chars(&input);
        Self {
            act_loc: Loc { row: 0, col: 0, position: 0 },
            last_loc: Loc { row: 0, col: 0, position: 0 },
            file_name,
            input: chars,
        }
    }

    pub fn reset_to(&mut self, position: usize)
        ensures
            final(self).act_loc == (Loc { position, ..old(self).act_loc }),
            final(self).last_loc == (Loc { position, ..old(self).last_loc }),
            final(self).input@ == old(self).input@,
            final(self).file_name == old(self).file_name,
    {
        self.act_loc.position = position;
        self.last_loc.position = position;
    }

    fn create_token(&self, tok_type: TokenType) -> (t: Token)
        ensures
            t == (Token {
                row: self.last_loc.row,
                col: self.last_loc.col,
                position: self.last_loc.position,
                file_name: self.file_name,
                tok: tok_type,
            }),
    {
        Token {
            row: self.last_loc.row,
            col: self.last_loc.col,
            position: self.last_loc.position,
            file_name: self.file_name.clone(),
            tok: tok_type,
        }
    }

    fn ignore_white(&mut self)
        ensures
            final(self).same_input(old(self)),
            final(self).last_loc == old(self).last_loc,
            final(self).pos() == skip_white(old(self).input@, old(self).pos()),
    {
        while self.act_loc.position < self.input.len() && char_is_whitespace(
            self.input[self.act_loc.position],
        )
            invariant
                self.same_input(old(self)),
                self.last_loc == old(self).last_loc,
                skip_white(self.input@, self.pos()) == skip_white(old(self).input@, old(self).pos()),
            decreases self.input.len() - self.act_loc.position,
        {
            self.act_loc.position = self.act_loc.position + 1;
        }
    }

    fn peek_char(&self) -> (r: Result<char, LexerError>)
        ensures
            self.pos() < self.input@.len() ==> r == Ok::<char, LexerError>(
                self.input@[self.pos()],
            ),
            self.pos() >= self.input@.len() ==> r == Err::<char, LexerError>(
                LexerError::UnexpectedEof,
            ),
    {
        if self.act_loc.position < self.input.len() {
            Ok(self.input[self.act_loc.position])
        } else {
            Err(LexerError::UnexpectedEof)
        }
    }

    fn next_char(&mut self) -> (r: Result<char, LexerError>)
        ensures
            final(self).same_input(old(self)),
            final(self).last_loc == old(self).last_loc,
            old(self).pos() < old(self).input@.len() ==> {
                &&& r == Ok::<char, LexerError>(old(self).input@[old(self).pos()])
                &&& final(self).pos() == old(self).pos() + 1
            },
            old(self).pos() >= old(self).input@.len() ==> {
                &&& r == Err::<char, LexerError>(LexerError::UnexpectedEof)
                &&& final(self).pos() == old(self).pos()
            },
    {
        if self.act_loc.position < self.input.len() {
            self.act_loc.position = self.act_loc.position + 1;
            Ok(self.input[self.act_loc.position - 1])
        } else {
            Err(LexerError::UnexpectedEof)
        }
    }

    fn eof(&self) -> (r: bool)
        ensures
            r == (self.pos() >= self.input@.len()),
    {
        self.act_loc.position >= self.input.len()
    }

    fn compare(&mut self, c: char) -> (r: Result<(), LexerError>)
        ensures
            final(self).same_input(old(self)),
            final(self).last_loc == old(self).last_loc,
            match spec_compare(old(self).input@, old(self).pos(), c) {
                Ok(q) => r is Ok && final(self).pos() == q,
                Err(e) => r == Err::<(), LexerError>(e),
            },
    {
        let x = self.peek_char()?;
        if x == c {
            let _ig = self.next_char();
            Ok(())
        } else {
            Err(LexerError::UnexpectedCharacter(x))
        }
    }

    /// Reads the next token.
    pub fn get_token(&mut self) -> (r: Result<Token, LexerError>)
        ensures
            final(self).same_input(old(self)),
            ({
                let s = old(self).input@;
                let start = skip_white(s, old(self).pos());
                &&& start >= s.len() ==> r == Ok::<Token, LexerError>(
                    Token {
                        row: old(self).act_loc.row,
                        col: old(self).act_loc.col,
                        position: start as usize,
                        file_name: old(self).file_name,
                        tok: TokenType::Eof,
                    },
                ) && final(self).pos() == start
                &&& start < s.len() ==> match token_error_at(s, start) {
                    Some(e) => r == Err::<Token, LexerError>(e),
                    None => r matches Ok(t) && t.row == old(self).act_loc.row
                        && t.col == old(self).act_loc.col && t.position == start
                        && t.file_name == old(self).file_name && token_at(
                        s,
                        start,
                        t.tok,
                        final(self).pos(),
                    ),
                }
                &&& r is Ok ==> final(self).last_loc == Loc {
                    position: start as usize,
                    ..old(self).act_loc
                }
            }),
    {
        self.ignore_white();
        self.last_loc = self.act_loc;
        if self.eof() {
            return Ok(self.create_token(TokenType::Eof));
        }
        let ghost s = self.input@;
        let ghost start = self.pos();
        let c = self.input[self.act_loc.position];
        if c == '+' {
            self.double_op('+', TokenType::Operator(Operator::Add), TokenType::Operator(Operator::Inc))
        } else if c == '-' {
            self.double_op('-', TokenType::Operator(Operator::Sub), TokenType::Operator(Operator::Dec))
        } else if c == '=' {
            self.double_op(
                '=',
                TokenType::Operator(Operator::Assign),
                TokenType::Operator(Operator::Eql),
            )
        } else if c == '<' {
            self.double_op('=', TokenType::Operator(Operator::Lt), TokenType::Operator(Operator::Le))
        } else if c == '>' {
            self.double_op('=', TokenType::Operator(Operator::Gt), TokenType::Operator(Operator::Ge))
        } else if c == '|' {
            self.double_op('|', TokenType::Operator(Operator::BitOr), TokenType::Operator(Operator::Or))
        } else if c == '&' {
            self.double_op(
                '&',
                TokenType::Operator(Operator::BitAnd),
                TokenType::Operator(Operator::And),
            )
        } else if c == '!' {
            self.double_op('=', TokenType::Operator(Operator::Not), TokenType::Operator(Operator::Neq))
        } else if let Some(t) = Self::single(c) {
            let tok = self.create_token(t);
            let _ig = self.next_char();
            Ok(tok)
        } else if char_is_alphabetic(c) || c == '_' {
            let ident = self.ident();
            let t = Self::check_keyword(ident);
            Ok(self.create_token(t))
        } else if '0' <= c && c <= '9' {
            let num = self.num();
            Ok(self.create_token(TokenType::Int(num)))
        } else if c == '\'' {
            let ch = self.char_tok()?;
            Ok(self.create_token(TokenType::Char(ch)))
        } else {
            Err(LexerError::UnexpectedCharacter(c))
        }
    }

    fn single(c: char) -> (r: Option<TokenType>)
        ensures
            r == single_char_token(c),
    {
        if c == '*' {
            Some(TokenType::Operator(Operator::Mul))
        } else if c == '/' {
            Some(TokenType::Operator(Operator::Div))
        } else if c == '%' {
            Some(TokenType::Operator(Operator::Mod))
        } else if c == '~' {
            Some(TokenType::Operator(Operator::BitNot))
        } else if c == '(' {
            Some(TokenType::LeftBrac)
        } else if c == ')' {
            Some(TokenType::RightBrac)
        } else if c == '{' {
            Some(TokenType::LeftCurly)
        } else if c == '}' {
            Some(TokenType::RightCurly)
        } else if c == '[' {
            Some(TokenType::LeftSquare)
        } else if c == ']' {
            Some(TokenType::RightSquare)
        } else if c == ';' {
            Some(TokenType::Semicol)
        } else if c == ',' {
            Some(TokenType::Comma)
        } else if c == '.' {
            Some(TokenType::Dot)
        } else if c == '@' {
            Some(TokenType::At)
        } else if c == '0' {
            Some(TokenType::Int(0))
        } else {
            None
        }
    }

    fn double_op(&mut self, c: char, normal: TokenType, double: TokenType) -> (r: Result<
        Token,
        LexerError,
    >)
        requires
            old(self).pos() < old(self).input@.len(),
        ensures
            final(self).same_input(old(self)),
            final(self).last_loc == old(self).last_loc,
            ({
                let (t, e) = spec_double(old(self).input@, old(self).pos(), c, normal, double);
                &&& r matches Ok(tok) && tok == Token {
                    row: old(self).last_loc.row,
                    col: old(self).last_loc.col,
                    position: old(self).last_loc.position,
                    file_name: old(self).file_name,
                    tok: t,
                }
                &&& final(self).pos() == e
            }),
    {
        let _tmp = self.next_char();
        if self.eof() {
            Ok(self.create_token(normal))
        } else if self.input[self.act_loc.position] == c {
            let _tmp = self.next_char();
            Ok(self.create_token(double))
        } else {
            Ok(self.create_token(normal))
        }
    }

    fn ident(&mut self) -> (r: String)
        requires
            old(self).pos() < old(self).input@.len(),
        ensures
            final(self).same_input(old(self)),
            final(self).last_loc == old(self).last_loc,
            final(self).pos() == ident_end(old(self).input@, old(self).pos()),
            r@ == old(self).input@.subrange(old(self).pos(), final(self).pos()),
    {
        let mut res: Vec<char> = Vec::new();
        let ghost start = self.pos();
        while self.act_loc.position < self.input.len() && (char_is_alphanumeric(
            self.input[self.act_loc.position],
        ) || self.input[self.act_loc.position] == '_')
            invariant
                self.same_input(old(self)),
                self.last_loc == old(self).last_loc,
                start == old(self).pos(),
                start <= self.pos(),
                self.pos() <= self.input@.len() || self.pos() == start,
                ident_end(self.input@, self.pos()) == ident_end(old(self).input@, start),
                res@ == self.input@.subrange(start, self.pos()),
            decreases self.input.len() - self.act_loc.position,
        {
            res.push(self.input[self.act_loc.position]);
            self.act_loc.position = self.act_loc.position + 1;
            proof {
                assert(res@ =~= self.input@.subrange(start, self.pos()));
            }
        }
        chars_to_string(&res)
    }

    /// Reads a decimal number, in 64-bit wrapping arithmetic.
    pub fn num(&mut self) -> (r: i64)
        ensures
            final(self).same_input(old(self)),
            final(self).last_loc == old(self).last_loc,
            final(self).pos() == digits_end(old(self).input@, old(self).pos()),
            r == digits_value(old(self).input@, old(self).pos(), final(self).pos()),
    {
        let mut res: i64 = 0;
        let ghost start = self.pos();
        while self.act_loc.position < self.input.len() && '0' <= self.input[self.act_loc.position]
            && self.input[self.act_loc.position] <= '9'
            invariant
                self.same_input(old(self)),
                self.last_loc == old(self).last_loc,
                start == old(self).pos(),
                start <= self.pos(),
                digits_end(self.input@, self.pos()) == digits_end(old(self).input@, start),
                res == digits_value(self.input@, start, self.pos()),
            decreases self.input.len() - self.act_loc.position,
        {
            let c = self.input[self.act_loc.position];
            let d: i64 = ((c as u32) - ('0' as u32)) as i64;
            assert(d == digit_value(c));
            res = res.wrapping_mul(10).wrapping_add(d);
            self.act_loc.position = self.act_loc.position + 1;
        }
        res
    }

    /// Reads a character literal `'c'`.
    pub fn char_tok(&mut self) -> (r: Result<char, LexerError>)
        ensures
            final(self).same_input(old(self)),
            final(self).last_loc == old(self).last_loc,
            match spec_char_lit(old(self).input@, old(self).pos()) {
                Ok((c, e)) => r == Ok::<char, LexerError>(c) && final(self).pos() == e,
                Err(e) => r == Err::<char, LexerError>(e),
            },
    {
        self.compare('\'')?;
        let c = self.next_char()?;
        self.compare('\'')?;
        Ok(c)
    }

    /// The keyword spelled by `ident`, or an identifier token holding it.
    pub fn check_keyword(ident: String) -> (t: TokenType)
        ensures
            word_token(ident@, t),
            keyword_of(ident@) is None ==> t == TokenType::Ident(ident),
    {
        let w = string_chars(&ident);
        let n = w.len();
        let k = if n == 3 && w[0] == 'i' && w[1] == 'n' && w[2] == 't' {
            Some(Keyword::Int)
        } else if n == 4 && w[0] == 'c' && w[1] == 'h' && w[2] == 'a' && w[3] == 'r' {
            Some(Keyword::Char)
        } else if n == 2 && w[0] == 'i' && w[1] == 'f' {
            Some(Keyword::If)
        } else if n == 4 && w[0] == 'e' && w[1] == 'l' && w[2] == 's' && w[3] == 'e' {
            Some(Keyword::Else)
        } else if n == 4 && w[0] == 'v' && w[1] == 'o' && w[2] == 'i' && w[3] == 'd' {
            Some(Keyword::Void)
        } else if n == 5 && w[0] == 'w' && w[1] == 'h' && w[2] == 'i' && w[3] == 'l' && w[4]
            == 'e' {
            Some(Keyword::While)
        } else if n == 3 && w[0] == 'f' && w[1] == 'o' && w[2] == 'r' {
            Some(Keyword::For)
        } else if n == 4 && w[0] == 'c' && w[1] == 'a' && w[2] == 's' && w[3] == 't' {
            Some(Keyword::Cast)
        } else if n == 5 && w[0] == 'b' && w[1] == 'r' && w[2] == 'e' && w[3] == 'a' && w[4]
            == 'k' {
            Some(Keyword::Break)
        } else if n == 8 && w[0] == 'c' && w[1] == 'o' && w[2] == 'n' && w[3] == 't' && w[4]
            == 'i' && w[5] == 'n' && w[6] == 'u' && w[7] == 'e' {
            Some(Keyword::Conti)
        } else if n == 6 && w[0] == 'r' && w[1] == 'e' && w[2] == 't' && w[3] == 'u' && w[4]
            == 'r' && w[5] == 'n' {
            Some(Keyword::Return)
        } else if n == 6 && w[0] == 's' && w[1] == 't' && w[2] == 'r' && w[3] == 'u' && w[4]
            == 'c' && w[5] == 't' {
            Some(Keyword::Struct)
        } else {
            None
        };
        proof {
            let v = w@;
            if k is None {
                assert(v != seq!['i', 'n', 't']);
                assert(v != seq!['c', 'h', 'a', 'r']);
                assert(v != seq!['i', 'f']);
                assert(v != seq!['e', 'l', 's', 'e']);
                assert(v != seq!['v', 'o', 'i', 'd']);
                assert(v != seq!['w', 'h', 'i', 'l', 'e']);
                assert(v != seq!['f', 'o', 'r']);
                assert(v != seq!['c', 'a', 's', 't']);
                assert(v != seq!['b', 'r', 'e', 'a', 'k']);
                assert(v != seq!['c', 'o', 'n', 't', 'i', 'n', 'u', 'e']);
                assert(v != seq!['r', 'e', 't', 'u', 'r', 'n']);
                assert(v != seq!['s', 't', 'r', 'u', 'c', 't']);
            } else {
                if k == Some(Keyword::Int) { assert(v =~= seq!['i', 'n', 't']); }
                if k == Some(Keyword::Char) { assert(v =~= seq!['c', 'h', 'a', 'r']); }
                if k == Some(Keyword::If) { assert(v =~= seq!['i', 'f']); }
                if k == Some(Keyword::Else) { assert(v =~= seq!['e', 'l', 's', 'e']); }
                if k == Some(Keyword::Void) { assert(v =~= seq!['v', 'o', 'i', 'd']); }
                if k == Some(Keyword::While) { assert(v =~= seq!['w', 'h', 'i', 'l', 'e']); }
                if k == Some(Keyword::For) { assert(v =~= seq!['f', 'o', 'r']); }
                if k == Some(Keyword::Cast) { assert(v =~= seq!['c', 'a', 's', 't']); }
                if k == Some(Keyword::Break) { assert(v =~= seq!['b', 'r', 'e', 'a', 'k']); }
                if k == Some(Keyword::Conti) {
                    assert(v =~= seq!['c', 'o', 'n', 't', 'i', 'n', 'u', 'e']);
                }
                if k == Some(Keyword::Return) { assert(v =~= seq!['r', 'e', 't', 'u', 'r', 'n']); }
                if k == Some(Keyword::Struct) { assert(v =~= seq!['s', 't', 'r', 'u', 'c', 't']); }
            }
        }
        match k {
            Some(k) => TokenType::Kw(k),
            None => TokenType::Ident(ident),
        }
    }
}

} // verus!
