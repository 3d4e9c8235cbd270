use vstd::prelude::*;

use crate::frontend::ast::{
    AstData, AstNode, Expr, ExprType, FnDecl, FnDeclType, FnDef, FnDefType, Program, Statement,
    StatementType, StructDef, StructDefType, TopLevel, Val, VarDecl, VarDeclType,
};
use crate::frontend::errors::{FrontendError, ParserError};
use crate::frontend::lexer::{
    chars_to_string, lemma_skip_white, lemma_token_advances, skip_white, spec_is_whitespace,
    string_chars, tok_eq, token_at, token_error_at, Keyword, Lexer, Operator, Token, TokenType,
};
use crate::frontend::typeast::{ArrayType, PrimType, TypeDef};

verus! {

/// Recursive-descent parser over the tokens of a lexer.
pub struct Parser {
    pub lexer: Lexer,
    pub curr_tok: Token,
    pub type_names: Vec<String>,
}

/// Types the parser builds: a base type under any number of pointers.
pub open spec fn is_parsed_type(t: TypeDef) -> bool
    decreases t,
{
    match t {
        TypeDef::Void => true,
        TypeDef::PrimType(_) => true,
        TypeDef::Alias(_) => true,
        TypeDef::PointerType(inner) => is_parsed_type(*inner),
        _ => false,
    }
}

/// The type that a type-name token names; `void` for any other token.
pub open spec fn named_type(t: TokenType) -> TypeDef {
    match t {
        TokenType::Ident(n) => TypeDef::Alias(n),
        TokenType::Kw(Keyword::Int) => TypeDef::PrimType(PrimType::Int),
        TokenType::Kw(Keyword::Char) => TypeDef::PrimType(PrimType::Char),
        _ => TypeDef::Void,
    }
}

/// The type under any number of pointers.
pub open spec fn pointee_base(t: TypeDef) -> TypeDef
    decreases t,
{
    match t {
        TypeDef::PointerType(inner) => pointee_base(*inner),
        other => other,
    }
}

/// Whether the token read after position `p` of `s` is the name `n`.
pub open spec fn name_follows(s: Seq<char>, p: int, n: String) -> bool {
    let st = skip_white(s, p);
    st < s.len() && exists|e: int| token_at(s, st, TokenType::Ident(n), e)
}

/// Whether `name` is among the declared structure names.
pub open spec fn names_contain(names: Seq<String>, name: Seq<char>) -> bool {
    exists|i: int| 0 <= i < names.len() && (#[trigger] names[i])@ == name
}

/// The token is the one that starts at its position, and the lexer stands right after it.
pub open spec fn tok_inv(l: Lexer, t: Token) -> bool {
    let s = l.input@;
    let p = t.position as int;
    &&& p <= s.len()
    &&& p <= l.pos() <= s.len()
    &&& (t.tok is Eof <==> p == s.len())
    &&& p < s.len() ==> !spec_is_whitespace(s[p]) && p < l.pos()
    &&& p < s.len() ==> token_error_at(s, p) is None && token_at(s, p, t.tok, l.pos())
}


/// Whether a binary operation stands in source order: its left operand begins before
/// its operator, and its right operand after it.
pub open spec fn in_source_order(e: Expr) -> bool {
    e.value matches ExprType::BinOp(_, l, r) ==> l.data.loc.position < e.data.loc.position < r.data.loc.position
}

/// Whether the token `t` ends an operand: it is no operator, no opening bracket and no
/// dot.
pub open spec fn ends_operand(t: TokenType) -> bool {
    !(t is Operator || t is LeftBrac || t is LeftSquare || t is Dot)
}

/// Whether the token `t` is an operand on its own: a name or a literal.
pub open spec fn operand_tok(t: TokenType) -> bool {
    t is Int || t is Char || t is Ident
}

/// Whether after position `p` of `s` the input ends, or the next token lexes and ends an
/// operand.
pub open spec fn operand_follows(s: Seq<char>, p: int) -> bool {
    let st = skip_white(s, p);
    st >= s.len() || (token_error_at(s, st) is None && forall|t: TokenType, e: int|
        #[trigger] token_at(s, st, t, e) ==> ends_operand(t))
}

/// Whether after position `p` of `s` comes a name or literal that the input then ends
/// or that a token ending an operand follows.
pub open spec fn lone_operand_after(s: Seq<char>, p: int) -> bool {
    let st = skip_white(s, p);
    st < s.len() && token_error_at(s, st) is None && forall|t: TokenType, e: int| #[trigger] token_at(s, st, t, e)
        ==> operand_tok(t) && operand_follows(s, e)
}

/// Whether after position `p` of `s` the input ends, or the next token lexes and is no
/// `*`.
pub open spec fn type_follows(s: Seq<char>, p: int) -> bool {
    let st = skip_white(s, p);
    st >= s.len() || (token_error_at(s, st) is None && forall|t: TokenType, e: int|
        #[trigger] token_at(s, st, t, e) ==> t != TokenType::Operator(Operator::Mul))
}

/// Whether after position `p` of `s` the input ends or the next token lexes.
pub open spec fn next_lexes(s: Seq<char>, p: int) -> bool {
    let st = skip_white(s, p);
    st >= s.len() || token_error_at(s, st) is None
}

/// The token `t`, ending at `e`, is what the lexer reads after position `p` of `s`.
pub open spec fn lexed_next(s: Seq<char>, p: int, t: TokenType, e: int) -> bool {
    let st = skip_white(s, p);
    &&& st >= s.len() ==> t is Eof
    &&& st < s.len() ==> token_at(s, st, t, e)
}

/// The token `t`, ending at `e`, is the second one that the lexer reads after position
/// `p` of `s`.
pub open spec fn lexed_second(s: Seq<char>, p: int, t: TokenType, e: int) -> bool {
    let st = skip_white(s, p);
    st < s.len() && exists|t1: TokenType, e1: int|
        #[trigger] token_at(s, st, t1, e1) && lexed_next(s, e1, t, e)
}

/// A structure declared without fields.
pub open spec fn is_bare_struct(t: TopLevel) -> bool {
    t matches TopLevel::Structure(sd) && sd.value.fields is None
}

/// Whether the input ends after the next `n` tokens read after position `p` of `s`.
pub open spec fn ends_after(s: Seq<char>, p: int, n: nat) -> bool
    decreases n,
{
    let st = skip_white(s, p);
    if n == 0 {
        st >= s.len()
    } else {
        st < s.len() && forall|t: TokenType, e: int| #[trigger] token_at(s, st, t, e) ==> ends_after(s, e, (n - 1) as nat)
    }
}

/// Reading one more token leaves one token less before the end; with none left, the
/// token read is the end of the input.
pub proof fn lemma_ends_step(s: Seq<char>, p: int, n: nat, t: TokenType, e: int)
    requires
        ends_after(s, p, n),
        lexed_next(s, p, t, e),
    ensures
        n > 0 ==> ends_after(s, e, (n - 1) as nat),
        n == 0 ==> t is Eof,
{
}

/// What one token of a token pattern may be: exactly the given token, any name, a name or
/// literal that the next token ends as an operand, or a token that ends an operand.
pub enum TokPattern {
    Exact(TokenType),
    AnyName,
    LoneOperand,
    EndsOperand,
}

/// Whether the token `t` fits the pattern `pat`.
pub open spec fn fits(t: TokenType, pat: TokPattern) -> bool {
    match pat {
        TokPattern::Exact(k) => t == k,
        TokPattern::AnyName => t is Ident,
        TokPattern::LoneOperand => operand_tok(t),
        TokPattern::EndsOperand => ends_operand(t),
    }
}

/// Whether the tokens read after position `p` of `s` fit `pats` one by one, and what
/// follows them lexes.
pub open spec fn tokens_follow(s: Seq<char>, p: int, pats: Seq<TokPattern>) -> bool
    decreases pats.len(),
{
    if pats.len() == 0 {
        next_lexes(s, p)
    } else {
        let st = skip_white(s, p);
        st < s.len() && token_error_at(s, st) is None && forall|t: TokenType, e: int|
            #[trigger] token_at(s, st, t, e) ==> fits(t, pats[0]) && tokens_follow(
                s,
                e,
                pats.drop_first(),
            ) && (pats[0] is LoneOperand ==> operand_follows(s, e))
    }
}

/// Stepping over one token of a pattern: it fits the first pattern, and the rest follows.
pub proof fn lemma_follow_step(s: Seq<char>, p: int, pats: Seq<TokPattern>, t: TokenType, e: int)
    requires
        pats.len() > 0,
        tokens_follow(s, p, pats),
        lexed_next(s, p, t, e),
    ensures
        fits(t, pats[0]),
        tokens_follow(s, e, pats.drop_first()),
        pats[0] is LoneOperand ==> operand_follows(s, e),
        next_lexes(s, p),
{
}

/// Stepping over two tokens of a pattern at once.
pub proof fn lemma_follow_second(s: Seq<char>, p: int, pats: Seq<TokPattern>, t: TokenType, e: int)
    requires
        pats.len() > 1,
        tokens_follow(s, p, pats),
        lexed_second(s, p, t, e),
    ensures
        fits(t, pats[1]),
        tokens_follow(s, e, pats.drop_first().drop_first()),
{
    let st = skip_white(s, p);
    let (t1, e1) = choose|t1: TokenType, e1: int|
        #[trigger] token_at(s, st, t1, e1) && lexed_next(s, e1, t, e);
    lemma_follow_step(s, e1, pats.drop_first(), t, e);
}

/// Where a pattern follows, so does each of its beginnings.
pub proof fn lemma_follow_prefix(s: Seq<char>, p: int, pats: Seq<TokPattern>, n: int)
    requires
        tokens_follow(s, p, pats),
        0 <= n <= pats.len(),
    ensures
        tokens_follow(s, p, pats.take(n)),
    decreases pats.len(),
{
    if n == pats.len() {
        assert(pats.take(n) =~= pats);
    } else if n > 0 {
        let st = skip_white(s, p);
        assert forall|t: TokenType, e: int| #[trigger] token_at(s, st, t, e) implies fits(
            t,
            pats.take(n)[0],
        ) && tokens_follow(s, e, pats.take(n).drop_first()) && (pats.take(n)[0] is LoneOperand
            ==> operand_follows(s, e)) by {
            lemma_follow_prefix(s, e, pats.drop_first(), n - 1);
            assert(pats.take(n).drop_first() =~= pats.drop_first().take(n - 1));
        }
    }
}

/// A pattern that follows implies that the next token lexes.
pub proof fn lemma_follow_lexes(s: Seq<char>, p: int, pats: Seq<TokPattern>)
    requires
        tokens_follow(s, p, pats),
    ensures
        next_lexes(s, p),
{
}

/// The token that starts at a position is unique up to the text of a name, and so is
/// where it ends.
pub proof fn lemma_token_unique(s: Seq<char>, p: int, t1: TokenType, e1: int, t2: TokenType, e2: int)
    requires
        0 <= p < s.len(),
        token_at(s, p, t1, e1),
        token_at(s, p, t2, e2),
    ensures
        e1 == e2,
        t1 is Ident <==> t2 is Ident,
        !(t1 is Ident) ==> t1 == t2,
        t1 matches TokenType::Ident(a) ==> t2 matches TokenType::Ident(b) && a@ == b@,
{
}

/// The tokens of an empty block: `{` and `}`.
pub open spec fn empty_block() -> Seq<TokPattern> {
    seq![TokPattern::Exact(TokenType::LeftCurly), TokPattern::Exact(TokenType::RightCurly)]
}

/// The tokens of a statement made of the keyword `k` and `;`.
pub open spec fn keyword_stmt(k: Keyword) -> Seq<TokPattern> {
    seq![TokPattern::Exact(TokenType::Kw(k)), TokPattern::Exact(TokenType::Semicol)]
}

/// The tokens of `while (x) {}`, with a name or literal for `x`.
pub open spec fn while_tokens() -> Seq<TokPattern> {
    seq![
        TokPattern::Exact(TokenType::Kw(Keyword::While)),
        TokPattern::Exact(TokenType::LeftBrac),
        TokPattern::LoneOperand,
        TokPattern::Exact(TokenType::RightBrac),
        TokPattern::Exact(TokenType::LeftCurly),
        TokPattern::Exact(TokenType::RightCurly),
    ]
}

/// The tokens of `for (;;) {}`.
pub open spec fn for_tokens() -> Seq<TokPattern> {
    seq![
        TokPattern::Exact(TokenType::Kw(Keyword::For)),
        TokPattern::Exact(TokenType::LeftBrac),
        TokPattern::Exact(TokenType::Semicol),
        TokPattern::Exact(TokenType::Semicol),
        TokPattern::Exact(TokenType::RightBrac),
        TokPattern::Exact(TokenType::LeftCurly),
        TokPattern::Exact(TokenType::RightCurly),
    ]
}

/// A name and then `;`.
pub open spec fn named_end() -> Seq<TokPattern> {
    seq![TokPattern::AnyName, TokPattern::Exact(TokenType::Semicol)]
}

/// A function's name, `()` and `;`.
pub open spec fn fn_proto_end() -> Seq<TokPattern> {
    seq![
        TokPattern::AnyName,
        TokPattern::Exact(TokenType::LeftBrac),
        TokPattern::Exact(TokenType::RightBrac),
        TokPattern::Exact(TokenType::Semicol),
    ]
}

/// A function's name, `()` and an empty block.
pub open spec fn fn_empty_end() -> Seq<TokPattern> {
    seq![
        TokPattern::AnyName,
        TokPattern::Exact(TokenType::LeftBrac),
        TokPattern::Exact(TokenType::RightBrac),
        TokPattern::Exact(TokenType::LeftCurly),
        TokPattern::Exact(TokenType::RightCurly),
    ]
}

/// Whether the keyword `k` names a type.
pub open spec fn type_keyword(k: Keyword) -> bool {
    k is Int || k is Char || k is Void
}

/// The tokens of further parameters: for each type keyword of `ks`, a comma, the keyword
/// and a name.
pub open spec fn more_params(ks: Seq<Keyword>) -> Seq<TokPattern>
    decreases ks.len(),
{
    if ks.len() == 0 {
        Seq::empty()
    } else {
        seq![TokPattern::Exact(TokenType::Comma), TokPattern::Exact(TokenType::Kw(ks[0])), TokPattern::AnyName]
            + more_params(ks.drop_first())
    }
}

/// The tokens of a prototype's parameters from the `j`-th one on, after its first one,
/// then `)` and `;`.
pub open spec fn params_rest(ks: Seq<Keyword>, j: int) -> Seq<TokPattern> {
    more_params(ks.subrange(j, ks.len() as int)) + seq![
        TokPattern::Exact(TokenType::RightBrac),
        TokPattern::Exact(TokenType::Semicol),
    ]
}

/// A prototype's name, `(`, parameters of the type keywords `ks`, each with a name and
/// separated by commas, `)` and `;`.
pub open spec fn fn_params_proto_end(ks: Seq<Keyword>) -> Seq<TokPattern> {
    seq![
        TokPattern::AnyName,
        TokPattern::Exact(TokenType::LeftBrac),
        TokPattern::Exact(TokenType::Kw(ks[0])),
        TokPattern::AnyName,
    ] + params_rest(ks, 1)
}

/// Before the `j`-th parameter comes a comma; after the last one, `)`.
pub proof fn lemma_params_rest(ks: Seq<Keyword>, j: int)
    requires
        0 <= j <= ks.len(),
    ensures
        j < ks.len() ==> params_rest(ks, j) == seq![
            TokPattern::Exact(TokenType::Comma),
            TokPattern::Exact(TokenType::Kw(ks[j])),
            TokPattern::AnyName,
        ] + params_rest(ks, j + 1),
        j == ks.len() ==> params_rest(ks, j) == seq![
            TokPattern::Exact(TokenType::RightBrac),
            TokPattern::Exact(TokenType::Semicol),
        ],
{
    if j < ks.len() {
        assert(ks.subrange(j, ks.len() as int).drop_first() =~= ks.subrange(j + 1, ks.len() as int));
        assert(params_rest(ks, j) =~= seq![
            TokPattern::Exact(TokenType::Comma),
            TokPattern::Exact(TokenType::Kw(ks[j])),
            TokPattern::AnyName,
        ] + params_rest(ks, j + 1));
    } else {
        assert(ks.subrange(j, ks.len() as int) =~= Seq::<Keyword>::empty());
        assert(params_rest(ks, j) =~= seq![
            TokPattern::Exact(TokenType::RightBrac),
            TokPattern::Exact(TokenType::Semicol),
        ]);
    }
}

/// The tokens of `struct S;`, with any name for `S`.
pub open spec fn struct_decl_tokens() -> Seq<TokPattern> {
    seq![
        TokPattern::Exact(TokenType::Kw(Keyword::Struct)),
        TokPattern::AnyName,
        TokPattern::Exact(TokenType::Semicol),
    ]
}

/// The tokens of `x;`, with a name or literal for `x`.
pub open spec fn expr_stmt_tokens() -> Seq<TokPattern> {
    seq![TokPattern::LoneOperand, TokPattern::Exact(TokenType::Semicol)]
}

/// The tokens of `if (x) {} else {}`, with a name or literal for `x`.
pub open spec fn if_else_tokens() -> Seq<TokPattern> {
    seq![
        TokPattern::Exact(TokenType::Kw(Keyword::If)),
        TokPattern::Exact(TokenType::LeftBrac),
        TokPattern::LoneOperand,
        TokPattern::Exact(TokenType::RightBrac),
        TokPattern::Exact(TokenType::LeftCurly),
        TokPattern::Exact(TokenType::RightCurly),
        TokPattern::Exact(TokenType::Kw(Keyword::Else)),
        TokPattern::Exact(TokenType::LeftCurly),
        TokPattern::Exact(TokenType::RightCurly),
    ]
}

/// The tokens of `a[i]` and a token that ends the operand, with a name for `a` and a name
/// or literal for `i`.
pub open spec fn index_tokens() -> Seq<TokPattern> {
    seq![
        TokPattern::AnyName,
        TokPattern::Exact(TokenType::LeftSquare),
        TokPattern::LoneOperand,
        TokPattern::Exact(TokenType::RightSquare),
        TokPattern::EndsOperand,
    ]
}

impl Parser {
    /// The current token fits the first of `pats`, and the tokens after it fit the rest.
    pub open spec fn at_tokens(&self, pats: Seq<TokPattern>) -> bool {
        &&& pats.len() > 0
        &&& fits(self.curr_tok.tok, pats[0])
        &&& tokens_follow(self.lexer.input@, self.lexer.pos(), pats.drop_first())
        &&& pats[0] is LoneOperand ==> operand_follows(self.lexer.input@, self.lexer.pos())
    }

    /// The current token is the token that starts at its position, and the lexer stands
    /// right after it.
    pub open spec fn inv(&self) -> bool {
        tok_inv(self.lexer, self.curr_tok)
    }

    /// The current token is a name or a literal, and what follows it ends the operand.
    pub open spec fn at_lone_operand(&self) -> bool {
        operand_tok(self.curr_tok.tok) && operand_follows(self.lexer.input@, self.lexer.pos())
    }

    /// The current token names a type: `void`, `int`, `char` or a declared structure.
    pub open spec fn at_type_name(&self) -> bool {
        match self.curr_tok.tok {
            TokenType::Ident(n) => names_contain(self.type_names@, n@),
            TokenType::Kw(Keyword::Void) => true,
            TokenType::Kw(Keyword::Int) => true,
            TokenType::Kw(Keyword::Char) => true,
            _ => false,
        }
    }

    /// Where more than one token is expected, the token after the current one lexes.
    pub proof fn lemma_tokens_lex(&self, pats: Seq<TokPattern>)
        requires
            self.at_tokens(pats),
            pats.len() > 1,
        ensures
            next_lexes(self.lexer.input@, self.lexer.pos()),
    {
        lemma_follow_lexes(self.lexer.input@, self.lexer.pos(), pats.drop_first());
    }

    /// Reading one token of a pattern leaves the parser at the rest of the pattern.
    pub proof fn lemma_tokens_step(&self, after: &Parser, pats: Seq<TokPattern>)
        requires
            self.at_tokens(pats),
            pats.len() > 1,
            after.lexer.input@ == self.lexer.input@,
            after.stands_after(self),
        ensures
            after.at_tokens(pats.drop_first()),
    {
        lemma_follow_step(
            self.lexer.input@,
            self.lexer.pos(),
            pats.drop_first(),
            after.curr_tok.tok,
            after.lexer.pos(),
        );
    }

    /// The current token names a type, and a name and `;` follow it.
    pub open spec fn at_plain_var(&self) -> bool {
        self.at_type_name() && tokens_follow(self.lexer.input@, self.lexer.pos(), named_end())
    }

    /// The current token names a type, and the tokens after it fit `pats`.
    pub open spec fn at_fn_header(&self, pats: Seq<TokPattern>) -> bool {
        self.at_type_name() && tokens_follow(self.lexer.input@, self.lexer.pos(), pats)
    }

    /// The current token names the return type of a prototype whose parameters have
    /// the type keywords `ks`, at least one.
    pub open spec fn at_fn_params_proto(&self, ks: Seq<Keyword>) -> bool {
        &&& ks.len() > 0
        &&& forall|j: int| 0 <= j < ks.len() ==> type_keyword(#[trigger] ks[j])
        &&& self.at_fn_header(fn_params_proto_end(ks))
    }

    /// The current token is the one read right after the current token of `before`.
    pub open spec fn stands_after(&self, before: &Parser) -> bool {
        lexed_next(before.lexer.input@, before.lexer.pos(), self.curr_tok.tok, self.lexer.pos())
    }

    /// The current token is the second one read after the current token of `before`.
    pub open spec fn stands_second_after(&self, before: &Parser) -> bool {
        lexed_second(before.lexer.input@, before.lexer.pos(), self.curr_tok.tok, self.lexer.pos())
    }

    /// How much input is left from the current token on.
    pub open spec fn measure(&self) -> int {
        self.lexer.input@.len() - self.curr_tok.position
    }

    /// The parser still reads the same input and has not moved back.
    pub open spec fn kept(&self, before: &Parser) -> bool {
        &&& self.inv()
        &&& self.lexer.same_input(&before.lexer)
        &&& self.measure() <= before.measure()
    }

    /// The parser read the same input and consumed at least one token.
    pub open spec fn advanced(&self, before: &Parser) -> bool {
        &&& self.kept(before)
        &&& self.measure() < before.measure()
    }

    pub fn new(lexer: Lexer) -> (r: Result<Self, FrontendError>)
        ensures
            r matches Ok(p) ==> (lexer.pos() <= lexer.input@.len() ==> p.inv()) && p.lexer.input@ == lexer.input@
                && p.type_names@.len() == 0,
            r matches Err(e) ==> e is Lexer,
            next_lexes(lexer.input@, lexer.pos()) ==> r is Ok,
            r matches Ok(p) ==> lexed_next(lexer.input@, lexer.pos(), p.curr_tok.tok, p.lexer.pos()),
            ({
                let st = skip_white(lexer.input@, lexer.pos());
                st < lexer.input@.len() ==> (token_error_at(lexer.input@, st) matches Some(e) ==> r
                    == Err::<Self, FrontendError>(FrontendError::Lexer(e)))
            }),
    {
        let mut lexer = lexer;
        let ghost l0 = lexer;
        let curr_tok = match lexer.get_token() {
            Ok(t) => t,
            Err(e) => return Err(FrontendError::Lexer(e)),
        };
        proof {
            if l0.pos() <= l0.input@.len() {
                Self::lemma_token_inv(l0, lexer, curr_tok);
            }
        }
        Ok(Self { lexer, curr_tok, type_names: Vec::new() })
    }

    proof fn lemma_token_inv(l0: Lexer, l1: Lexer, t: Token)
        requires
            l0.pos() <= l0.input@.len(),
            l1.same_input(&l0),
            ({
                let s = l0.input@;
                let start = skip_white(s, l0.pos());
                &&& start >= s.len() ==> t.tok is Eof && t.position == start && l1.pos() == start
                &&& start < s.len() ==> token_error_at(s, start) is None && t.position == start
                    && token_at(s, start, t.tok, l1.pos())
            }),
        ensures
            tok_inv(l1, t),
            t.position >= l0.pos(),
    {
        let s = l0.input@;
        lemma_skip_white(s, l0.pos());
        let start = skip_white(s, l0.pos());
        if start < s.len() {
            lemma_token_advances(s, start, t.tok, l1.pos());
        }
    }

    fn reset_to(&mut self, position: usize) -> (r: Result<(), FrontendError>)
        requires
            position <= old(self).lexer.input@.len(),
            position < old(self).lexer.input@.len() ==> !spec_is_whitespace(
                old(self).lexer.input@[position as int],
            ),
        ensures
            r is Ok ==> final(self).inv() && final(self).lexer.same_input(&old(self).lexer)
                && final(self).curr_tok.position == position,
            final(self).type_names == old(self).type_names,
            final(self).lexer.same_input(&old(self).lexer),
            position >= old(self).lexer.input@.len() || token_error_at(old(self).lexer.input@, position as int) is None
                ==> r is Ok,
            position < old(self).lexer.input@.len() ==> match token_error_at(old(self).lexer.input@, position as int) {
                Some(e) => r == Err::<(), FrontendError>(FrontendError::Lexer(e)),
                None => r is Ok && token_at(
                    old(self).lexer.input@,
                    position as int,
                    final(self).curr_tok.tok,
                    final(self).lexer.pos(),
                ),
            },
    {
        let ghost l0 = self.lexer;
        self.lexer.reset_to(position);
        let ghost l1 = self.lexer;
        match self.lexer.get_token() {
            Ok(t) => {
                proof {
                    Self::lemma_token_inv(l1, self.lexer, t);
                }
                self.curr_tok = t;
                Ok(())
            },
            Err(e) => Err(FrontendError::Lexer(e)),
        }
    }

    fn top(&self) -> (t: Token)
        ensures
            t == self.curr_tok,
    {
        self.curr_tok.duplicate()
    }

    /// Whether the current token is `t`.
    fn at(&self, t: &TokenType) -> (r: bool)
        ensures
            r == tok_eq(self.curr_tok.tok, *t),
    {
        self.curr_tok.tok.same(t)
    }

    fn pop(&mut self) -> (r: Result<Token, FrontendError>)
        requires
            old(self).inv(),
        ensures
            final(self).type_names == old(self).type_names,
            final(self).lexer.same_input(&old(self).lexer),
            r matches Ok(t) ==> t == old(self).curr_tok && final(self).kept(old(self)) && (!(
            t.tok is Eof) ==> final(self).advanced(old(self))),
            r matches Err(e) ==> e is Lexer,
            next_lexes(old(self).lexer.input@, old(self).lexer.pos()) ==> r is Ok,
            r is Ok ==> ({
                let s = old(self).lexer.input@;
                let st = skip_white(s, old(self).lexer.pos());
                &&& st >= s.len() ==> final(self).curr_tok.tok is Eof
                &&& st < s.len() ==> token_at(s, st, final(self).curr_tok.tok, final(self).lexer.pos())
            }),
            r is Ok ==> lexed_next(
                old(self).lexer.input@,
                old(self).lexer.pos(),
                final(self).curr_tok.tok,
                final(self).lexer.pos(),
            ),
    {
        let tmp = self.top();
        let ghost l0 = self.lexer;
        match self.lexer.get_token() {
            Ok(t) => {
                proof {
                    Self::lemma_token_inv(l0, self.lexer, t);
                }
                self.curr_tok = t;
                Ok(tmp)
            },
            Err(e) => Err(FrontendError::Lexer(e)),
        }
    }

    fn compare(&mut self, tok: TokenType) -> (r: Result<(), FrontendError>)
        requires
            old(self).inv(),
        ensures
            final(self).type_names == old(self).type_names,
            final(self).lexer.same_input(&old(self).lexer),
            r is Ok ==> tok_eq(old(self).curr_tok.tok, tok) && final(self).kept(old(self)),
            r is Ok && !(tok is Eof) ==> final(self).advanced(old(self)),
            r matches Err(FrontendError::Parser(e)) ==> e == ParserError::UnexpectedToken(
                old(self).curr_tok.tok,
            ) && !tok_eq(old(self).curr_tok.tok, tok),
            tok_eq(old(self).curr_tok.tok, tok) && next_lexes(old(self).lexer.input@, old(self).lexer.pos())
                ==> r is Ok,
            r is Ok ==> lexed_next(
                old(self).lexer.input@,
                old(self).lexer.pos(),
                final(self).curr_tok.tok,
                final(self).lexer.pos(),
            ),
    {
        let tmp = self.pop()?.tok;
        if !tmp.same(&tok) {
            Err(FrontendError::Parser(ParserError::UnexpectedToken(tmp)))
        } else {
            Ok(())
        }
    }

    fn act_data(&self) -> (d: AstData)
        ensures
            d.loc == self.curr_tok.loc(),
            d.node_type is None,
    {
        AstData::new(self.curr_tok.loc())
    }

    /// Parses a whole program: structures, global variables and functions, up to the
    /// end of the input.
    pub fn parse(&mut self) -> (r: Result<Program, FrontendError>)
        requires
            old(self).inv(),
        ensures
            final(self).lexer.same_input(&old(self).lexer),
            r is Ok ==> final(self).kept(old(self)) && final(self).curr_tok.tok is Eof,
            old(self).curr_tok.tok is Eof ==> (r matches Ok(p) && p.items@.len() == 0),
            old(self).at_tokens(struct_decl_tokens()) && ends_after(old(self).lexer.input@, old(self).lexer.pos(), 2)
                ==> (r matches Ok(p) && p.items@.len() == 1 && is_bare_struct(p.items@[0])),
    {
        let mut items: Vec<TopLevel> = Vec::new();
        let ghost start = *self;
        let ghost good = old(self).at_tokens(struct_decl_tokens()) && ends_after(
            old(self).lexer.input@,
            old(self).lexer.pos(),
            2,
        );
        while !self.at(&TokenType::Eof)
            invariant
                self.kept(&start),
                start == *old(self),
                self.lexer.same_input(&old(self).lexer),
                old(self).curr_tok.tok is Eof ==> *self == *old(self) && items@.len() == 0,
                good == (old(self).at_tokens(struct_decl_tokens()) && ends_after(old(self).lexer.input@, old(self).lexer.pos(), 2)),
                good ==> ((items@.len() == 0 && *self == *old(self)) || (items@.len() == 1
                    && is_bare_struct(items@[0]) && self.curr_tok.tok is Eof)),
            decreases self.measure(),
        {
            if let TokenType::Kw(Keyword::Struct) = self.curr_tok.tok {
                let s = self.struct_def()?;
                items.push(TopLevel::Structure(s));
            } else {
                let ghost before = *self;
                let position = self.curr_tok.position;
                self.type_parse()?;
                self.get_ident()?;
                let is_fn = self.at(&TokenType::LeftBrac);
                self.reset_to(position)?;
                if is_fn {
                    let f = self.fn_decl()?;
                    items.push(TopLevel::Function(f));
                } else {
                    let v = self.var_decl()?;
                    items.push(TopLevel::Var(v));
                    self.compare(TokenType::Semicol)?;
                }
            }
        }
        Ok(Program { items })
    }

    fn struct_def(&mut self) -> (r: Result<StructDef, FrontendError>)
        requires
            old(self).inv(),
        ensures
            final(self).lexer.same_input(&old(self).lexer),
            r matches Ok(s) ==> {
                &&& final(self).advanced(old(self))
                &&& final(self).type_names@ == old(self).type_names@.push(s.value.name)
                &&& s.data.loc == old(self).curr_tok.loc()
                &&& s.value.fields matches Some(fs) ==> forall|i: int|
                    0 <= i < fs@.len() ==> (#[trigger] fs@[i]).value.init_val is None
            },
            old(self).at_tokens(struct_decl_tokens()) ==> (r matches Ok(s) && s.value.fields is None
                && name_follows(old(self).lexer.input@, old(self).lexer.pos(), s.value.name)),
            old(self).at_tokens(struct_decl_tokens()) && ends_after(old(self).lexer.input@, old(self).lexer.pos(), 2)
                ==> final(self).curr_tok.tok is Eof,
    {
        let data = self.act_data();
        let ghost pats = struct_decl_tokens();
        let ghost s0 = *self;
        proof {
            if s0.at_tokens(pats) {
                s0.lemma_tokens_lex(pats);
            }
        }
        self.compare(TokenType::Kw(Keyword::Struct))?;
        let ghost s1 = *self;
        proof {
            if s0.at_tokens(pats) {
                s0.lemma_tokens_step(&s1, pats);
                s1.lemma_tokens_lex(pats.drop_first());
            }
        }
        let name = self.get_ident()?;
        let ghost s2 = *self;
        let ghost ends = ends_after(s0.lexer.input@, s0.lexer.pos(), 2);
        proof {
            if s0.at_tokens(pats) {
                s1.lemma_tokens_step(self, pats.drop_first());
                lemma_follow_lexes(self.lexer.input@, self.lexer.pos(), seq![]);
                let st = skip_white(s0.lexer.input@, s0.lexer.pos());
                assert(token_at(s0.lexer.input@, st, TokenType::Ident(name), s1.lexer.pos()));
                if ends {
                    lemma_ends_step(s0.lexer.input@, s0.lexer.pos(), 2, s1.curr_tok.tok, s1.lexer.pos());
                    lemma_ends_step(s0.lexer.input@, s1.lexer.pos(), 1, s2.curr_tok.tok, s2.lexer.pos());
                }
            }
        }
        self.type_names.push(name.clone());
        let fields = if self.at(&TokenType::Semicol) {
            self.pop()?;
            proof {
                if s0.at_tokens(pats) && ends {
                    lemma_ends_step(s0.lexer.input@, s2.lexer.pos(), 0, self.curr_tok.tok, self.lexer.pos());
                }
            }
            None
        } else {
            self.compare(TokenType::LeftCurly)?;
            let mut vars: Vec<VarDecl> = Vec::new();
            let ghost mid = *self;
            while !self.at(&TokenType::RightCurly)
                invariant
                    self.kept(&mid),
                    self.type_names == mid.type_names,
                    mid.advanced(old(self)),
                    self.lexer.same_input(&old(self).lexer),
                    forall|i: int| 0 <= i < vars@.len() ==> (#[trigger] vars@[i]).value.init_val is None,
                    !old(self).at_tokens(struct_decl_tokens()),
                decreases self.measure(),
            {
                let var = self.var_decl()?;
                if var.value.init_val.is_some() {
                    return Err(FrontendError::Parser(ParserError::FieldCannotHaveInit));
                }
                vars.push(var);
                self.compare(TokenType::Semicol)?;
            }
            self.compare(TokenType::RightCurly)?;
            Some(vars)
        };
        let res = StructDefType { name, fields };
        Ok(AstNode::new(res, data))
    }

    /// Parses a function: its header and either a block body or `;`.
    #[verifier::rlimit(60)]
    #[verifier::spinoff_prover]
    pub fn fn_decl(&mut self) -> (r: Result<FnDef, FrontendError>)
        requires
            old(self).inv(),
        ensures
            final(self).type_names == old(self).type_names,
            final(self).lexer.same_input(&old(self).lexer),
            r matches Ok(f) ==> {
                &&& final(self).advanced(old(self))
                &&& f.data.loc == old(self).curr_tok.loc()
                &&& f.value.header.data.loc == old(self).curr_tok.loc()
                &&& is_parsed_type(f.value.header.value.ret_type)
                &&& forall|i: int|
                    0 <= i < f.value.header.value.params@.len() ==> is_parsed_type(
                        (#[trigger] f.value.header.value.params@[i]).1,
                    )
                &&& f.value.body matches Some(b) ==> b.value is Block
            },
            r matches Ok(f) ==> pointee_base(f.value.header.value.ret_type) == named_type(old(self).curr_tok.tok),
            old(self).at_fn_header(fn_proto_end()) ==> (r matches Ok(f) && f.value.body is None
                && f.value.header.value.params@.len() == 0 && f.value.header.value.ret_type == named_type(
                old(self).curr_tok.tok,
            ) && name_follows(old(self).lexer.input@, old(self).lexer.pos(), f.value.header.value.name)),
            old(self).at_fn_header(fn_empty_end()) ==> (r matches Ok(f) && f.value.body is Some
                && f.value.header.value.params@.len() == 0 && f.value.header.value.ret_type == named_type(
                old(self).curr_tok.tok,
            ) && name_follows(old(self).lexer.input@, old(self).lexer.pos(), f.value.header.value.name)),
            forall|ks: Seq<Keyword>| #[trigger] old(self).at_fn_params_proto(ks) ==> (r matches Ok(f) && f.value.body is None
                && f.value.header.value.ret_type == named_type(old(self).curr_tok.tok)
                && name_follows(old(self).lexer.input@, old(self).lexer.pos(), f.value.header.value.name)
                && f.value.header.value.params@.len() == ks.len() && forall|j: int| 0 <= j < ks.len()
                ==> (#[trigger] f.value.header.value.params@[j]).1 == named_type(TokenType::Kw(ks[j]))),
    {
        let data = self.act_data();
        let ghost s0 = *self;
        let ghost p1 = fn_proto_end();
        let ghost p2 = fn_empty_end();
        let ghost g1 = s0.at_fn_header(p1);
        let ghost g2 = s0.at_fn_header(p2);
        let ghost g3 = exists|ks: Seq<Keyword>| s0.at_fn_params_proto(ks);
        let ghost k3: Seq<Keyword> = if g3 { choose|ks: Seq<Keyword>| s0.at_fn_params_proto(ks) } else { Seq::empty() };
        let ret_type = self.type_parse()?;
        let ghost s1 = *self;
        proof {
            assert forall|ks: Seq<Keyword>| #[trigger] s0.at_fn_params_proto(ks) implies s1.at_tokens(fn_params_proto_end(ks)) by {
                lemma_follow_step(s0.lexer.input@, s0.lexer.pos(), fn_params_proto_end(ks), s1.curr_tok.tok, s1.lexer.pos());
            }
            if g3 {
                assert(s1.at_tokens(fn_params_proto_end(k3)));
                s1.lemma_tokens_lex(fn_params_proto_end(k3));
            }
            if g1 {
                lemma_follow_step(s0.lexer.input@, s0.lexer.pos(), p1, s1.curr_tok.tok, s1.lexer.pos());
                assert(s1.at_tokens(p1));
                s1.lemma_tokens_lex(p1);
            }
            if g2 {
                lemma_follow_step(s0.lexer.input@, s0.lexer.pos(), p2, s1.curr_tok.tok, s1.lexer.pos());
                assert(s1.at_tokens(p2));
                s1.lemma_tokens_lex(p2);
            }
        }
        let tmp = self.pop()?.tok;
        let ghost s2 = *self;
        proof {
            assert forall|ks: Seq<Keyword>| #[trigger] s0.at_fn_params_proto(ks) implies s2.at_tokens(
                fn_params_proto_end(ks).drop_first(),
            ) by {
                assert(s1.at_tokens(fn_params_proto_end(ks)));
                s1.lemma_tokens_step(&s2, fn_params_proto_end(ks));
            }
            if g3 {
                assert(s2.at_tokens(fn_params_proto_end(k3).drop_first()));
                s2.lemma_tokens_lex(fn_params_proto_end(k3).drop_first());
            }
            if g1 {
                s1.lemma_tokens_step(&s2, p1);
                s2.lemma_tokens_lex(p1.drop_first());
            }
            if g2 {
                s1.lemma_tokens_step(&s2, p2);
                s2.lemma_tokens_lex(p2.drop_first());
            }
        }
        let name = match tmp {
            TokenType::Ident(x) => x,
            _ => return Err(FrontendError::Parser(ParserError::UnexpectedToken(tmp))),
        };
        proof {
            if g1 || g2 || g3 {
                let st = skip_white(s0.lexer.input@, s0.lexer.pos());
                assert(token_at(s0.lexer.input@, st, TokenType::Ident(name), s1.lexer.pos()));
            }
        }
        self.compare(TokenType::LeftBrac)?;
        let ghost s3 = *self;
        proof {
            assert forall|ks: Seq<Keyword>| #[trigger] s0.at_fn_params_proto(ks) implies s3.at_tokens(
                fn_params_proto_end(ks).drop_first().drop_first(),
            ) by {
                assert(s2.at_tokens(fn_params_proto_end(ks).drop_first()));
                s2.lemma_tokens_step(&s3, fn_params_proto_end(ks).drop_first());
            }
            if g1 {
                s2.lemma_tokens_step(&s3, p1.drop_first());
                s3.lemma_tokens_lex(p1.drop_first().drop_first());
                assert(p1.drop_first().drop_first()[0] == TokPattern::Exact(TokenType::RightBrac));
            }
            if g2 {
                s2.lemma_tokens_step(&s3, p2.drop_first());
                s3.lemma_tokens_lex(p2.drop_first().drop_first());
                assert(p2.drop_first().drop_first()[0] == TokPattern::Exact(TokenType::RightBrac));
            }
        }
        let mut params: Vec<(String, TypeDef)> = Vec::new();
        if !self.at(&TokenType::RightBrac) {
            proof {
                if g3 {
                    assert(s3.at_tokens(fn_params_proto_end(k3).drop_first().drop_first()));
                    assert(fn_params_proto_end(k3).drop_first().drop_first()[0] == TokPattern::Exact(TokenType::Kw(k3[0])));
                    assert(type_keyword(k3[0]));
                    assert(fn_params_proto_end(k3).drop_first().drop_first().drop_first()[0] == TokPattern::AnyName);
                }
            }
            let t = self.type_parse()?;
            let ghost s4 = *self;
            proof {
                assert forall|ks: Seq<Keyword>| #[trigger] s0.at_fn_params_proto(ks) implies s4.at_tokens(
                    fn_params_proto_end(ks).drop_first().drop_first().drop_first(),
                ) && t == named_type(TokenType::Kw(ks[0])) by {
                    let q = fn_params_proto_end(ks).drop_first().drop_first();
                    assert(s3.at_tokens(q));
                    assert(q[0] == TokPattern::Exact(TokenType::Kw(ks[0])));
                    assert(type_keyword(ks[0]));
                    assert(q.drop_first()[0] == TokPattern::AnyName);
                    s3.lemma_tokens_step(&s4, q);
                }
                if g3 {
                    assert(s4.at_tokens(fn_params_proto_end(k3).drop_first().drop_first().drop_first()));
                    s4.lemma_tokens_lex(fn_params_proto_end(k3).drop_first().drop_first().drop_first());
                }
            }
            let i = self.get_ident()?;
            let ghost s5 = *self;
            params.push((i, t));
            proof {
                assert forall|ks: Seq<Keyword>| #[trigger] s0.at_fn_params_proto(ks) implies self.at_tokens(params_rest(ks, 1)) by {
                    let q = fn_params_proto_end(ks).drop_first().drop_first().drop_first();
                    assert(s4.at_tokens(q));
                    s4.lemma_tokens_step(&s5, q);
                    assert(q.drop_first() =~= params_rest(ks, 1));
                }
            }
            let ghost mid = *self;
            while self.at(&TokenType::Comma)
                invariant
                    self.kept(&mid),
                    self.type_names == old(self).type_names,
                    self.lexer.same_input(&old(self).lexer),
                    forall|i: int| 0 <= i < params@.len() ==> is_parsed_type((#[trigger] params@[i]).1),
                    !old(self).at_fn_header(fn_proto_end()),
                    !old(self).at_fn_header(fn_empty_end()),
                    g3 == exists|ks: Seq<Keyword>| s0.at_fn_params_proto(ks),
                    g3 ==> s0.at_fn_params_proto(k3),
                    s0 == *old(self),
                    forall|ks: Seq<Keyword>| #[trigger] s0.at_fn_params_proto(ks) ==> {
                        &&& 1 <= params@.len() <= ks.len()
                        &&& self.at_tokens(params_rest(ks, params@.len() as int))
                        &&& forall|m: int| 0 <= m < params@.len() ==> (#[trigger] params@[m]).1 == named_type(TokenType::Kw(ks[m]))
                    },
                decreases self.measure(),
            {
                let ghost t0 = *self;
                let ghost n = params@.len() as int;
                proof {
                    assert forall|ks: Seq<Keyword>| #[trigger] s0.at_fn_params_proto(ks) implies n < ks.len() && t0.at_tokens(
                        seq![
                            TokPattern::Exact(TokenType::Comma),
                            TokPattern::Exact(TokenType::Kw(ks[n])),
                            TokPattern::AnyName,
                        ] + params_rest(ks, n + 1),
                    ) by {
                        lemma_params_rest(ks, n);
                    }
                    if g3 {
                        lemma_params_rest(k3, n);
                        t0.lemma_tokens_lex(params_rest(k3, n));
                    }
                }
                self.pop()?;
                let ghost t1 = *self;
                proof {
                    assert forall|ks: Seq<Keyword>| #[trigger] s0.at_fn_params_proto(ks) implies t1.at_tokens(
                        seq![TokPattern::Exact(TokenType::Kw(ks[n])), TokPattern::AnyName] + params_rest(ks, n + 1),
                    ) by {
                        let q = seq![
                            TokPattern::Exact(TokenType::Comma),
                            TokPattern::Exact(TokenType::Kw(ks[n])),
                            TokPattern::AnyName,
                        ] + params_rest(ks, n + 1);
                        assert(t0.at_tokens(q));
                        t0.lemma_tokens_step(&t1, q);
                        assert(q.drop_first() =~= seq![TokPattern::Exact(TokenType::Kw(ks[n])), TokPattern::AnyName] + params_rest(
                            ks,
                            n + 1,
                        ));
                        assert(type_keyword(ks[n]));
                    }
                }
                let t = self.type_parse()?;
                let ghost t2 = *self;
                proof {
                    assert forall|ks: Seq<Keyword>| #[trigger] s0.at_fn_params_proto(ks) implies t2.at_tokens(
                        seq![TokPattern::AnyName] + params_rest(ks, n + 1),
                    ) && t == named_type(TokenType::Kw(ks[n])) by {
                        let q = seq![TokPattern::Exact(TokenType::Kw(ks[n])), TokPattern::AnyName] + params_rest(ks, n + 1);
                        assert(t1.at_tokens(q));
                        assert(q[0] == TokPattern::Exact(TokenType::Kw(ks[n])));
                        assert(type_keyword(ks[n]));
                        assert(q.drop_first()[0] == TokPattern::AnyName);
                        t1.lemma_tokens_step(&t2, q);
                        assert(q.drop_first() =~= seq![TokPattern::AnyName] + params_rest(ks, n + 1));
                    }
                    if g3 {
                        t2.lemma_tokens_lex(seq![TokPattern::AnyName] + params_rest(k3, n + 1));
                    }
                }
                let i = self.get_ident()?;
                let ghost t3 = *self;
                let ghost before = params@;
                params.push((i, t));
                proof {
                    assert forall|ks: Seq<Keyword>| #[trigger] s0.at_fn_params_proto(ks) implies {
                        &&& 1 <= params@.len() <= ks.len()
                        &&& self.at_tokens(params_rest(ks, params@.len() as int))
                        &&& forall|m: int| 0 <= m < params@.len() ==> (#[trigger] params@[m]).1 == named_type(TokenType::Kw(ks[m]))
                    } by {
                        let q = seq![TokPattern::AnyName] + params_rest(ks, n + 1);
                        assert(t2.at_tokens(q));
                        t2.lemma_tokens_step(&t3, q);
                        assert(q.drop_first() =~= params_rest(ks, n + 1));
                        assert forall|m: int| 0 <= m < params@.len() implies (#[trigger] params@[m]).1 == named_type(TokenType::Kw(ks[m])) by {
                            if m < n {
                                assert(params@[m] == before[m]);
                            }
                        }
                    }
                }
            }
            proof {
                assert forall|ks: Seq<Keyword>| #[trigger] s0.at_fn_params_proto(ks) implies params@.len() == ks.len() by {
                    lemma_params_rest(ks, params@.len() as int);
                }
            }
        } else {
            proof {
                if g3 {
                    assert(s3.at_tokens(fn_params_proto_end(k3).drop_first().drop_first()));
                    assert(fn_params_proto_end(k3).drop_first().drop_first()[0] == TokPattern::Exact(TokenType::Kw(k3[0])));
                }
            }
        }
        let ghost s6 = *self;
        proof {
            if g3 {
                lemma_params_rest(k3, k3.len() as int);
                assert(s6.at_tokens(params_rest(k3, k3.len() as int)));
                s6.lemma_tokens_lex(params_rest(k3, k3.len() as int));
            }
        }
        self.compare(TokenType::RightBrac)?;
        proof {
            if g3 {
                s6.lemma_tokens_step(self, params_rest(k3, k3.len() as int));
                lemma_follow_lexes(self.lexer.input@, self.lexer.pos(), seq![]);
            }
            if g1 {
                s3.lemma_tokens_step(self, p1.drop_first().drop_first());
                assert(p1.drop_first().drop_first().drop_first()[0] == TokPattern::Exact(TokenType::Semicol));
                lemma_follow_lexes(self.lexer.input@, self.lexer.pos(), seq![]);
            }
            if g2 {
                s3.lemma_tokens_step(self, p2.drop_first().drop_first());
                assert(p2.drop_first().drop_first().drop_first() =~= empty_block());
            }
        }
        let body = if !self.at(&TokenType::Semicol) {
            Some(self.block_statement()?)
        } else {
            self.compare(TokenType::Semicol)?;
            None
        };
        let header = FnDeclType { name, params, ret_type };
        let header = AstNode::new(header, AstData::new(data.loc));
        Ok(AstNode::new(FnDefType { header, body }, data))
    }

    fn get_ident(&mut self) -> (r: Result<String, FrontendError>)
        requires
            old(self).inv(),
        ensures
            final(self).type_names == old(self).type_names,
            final(self).lexer.same_input(&old(self).lexer),
            r matches Ok(name) ==> final(self).advanced(old(self)) && (old(
                self,
            ).curr_tok.tok matches TokenType::Ident(n) && n == name),
            r matches Err(FrontendError::Parser(e)) ==> e == ParserError::UnexpectedToken(
                old(self).curr_tok.tok,
            ) && !(old(self).curr_tok.tok is Ident),
            old(self).curr_tok.tok is Ident && next_lexes(old(self).lexer.input@, old(self).lexer.pos())
                ==> r is Ok,
            r is Ok ==> lexed_next(
                old(self).lexer.input@,
                old(self).lexer.pos(),
                final(self).curr_tok.tok,
                final(self).lexer.pos(),
            ),
    {
        let tmp = self.pop()?.tok;
        match tmp {
            TokenType::Ident(ident) => Ok(ident),
            _ => Err(FrontendError::Parser(ParserError::UnexpectedToken(tmp))),
        }
    }

    fn statement(&mut self) -> (r: Result<Statement, FrontendError>)
        requires
            old(self).inv(),
        ensures
            final(self).type_names == old(self).type_names,
            final(self).lexer.same_input(&old(self).lexer),
            r is Ok ==> final(self).advanced(old(self)),
            old(self).at_tokens(empty_block()) ==> (r matches Ok(s) && s.value matches StatementType::Block(b)
                && b@.len() == 0 && final(self).stands_second_after(old(self))),
            old(self).at_tokens(keyword_stmt(Keyword::Break)) ==> (r matches Ok(s) && s.value
                is Break),
            old(self).at_tokens(keyword_stmt(Keyword::Conti)) ==> (r matches Ok(s) && s.value
                is Continue),
            old(self).at_tokens(keyword_stmt(Keyword::Return)) ==> (r matches Ok(s) && s.value
                is Return && s.value->Return_0 is None),
            old(self).at_tokens(while_tokens()) ==> (r matches Ok(s) && s.value is While),
            old(self).at_tokens(if_else_tokens()) ==> (r matches Ok(s) && s.value is IfElse),
            old(self).at_tokens(for_tokens()) ==> (r matches Ok(s) && s.value is For),
            old(self).at_plain_var() ==> (r matches Ok(s) && s.value is VarDecl),
            old(self).at_tokens(expr_stmt_tokens()) && !old(self).at_type_name() ==> (r matches Ok(
                s,
            ) && s.value is Expr),
        decreases old(self).measure(), 40nat,
    {
        let data = self.act_data();
        let ghost start = *self;
        proof {
            if self.at_tokens(keyword_stmt(Keyword::Break)) {
                self.lemma_tokens_lex(keyword_stmt(Keyword::Break));
            }
            if self.at_tokens(keyword_stmt(Keyword::Conti)) {
                self.lemma_tokens_lex(keyword_stmt(Keyword::Conti));
            }
            if self.at_tokens(keyword_stmt(Keyword::Return)) {
                self.lemma_tokens_lex(keyword_stmt(Keyword::Return));
            }
        }
        match self.curr_tok.tok {
            TokenType::Kw(Keyword::If) => self.if_statement(),
            TokenType::Kw(Keyword::While) => self.while_statement(),
            TokenType::Kw(Keyword::For) => self.for_statement(),
            TokenType::Kw(Keyword::Break) => {
                self.pop()?;
                proof {
                    if start.at_tokens(keyword_stmt(Keyword::Break)) {
                        start.lemma_tokens_step(self, keyword_stmt(Keyword::Break));
                        lemma_follow_lexes(self.lexer.input@, self.lexer.pos(), seq![]);
                    }
                }
                self.compare(TokenType::Semicol)?;
                Ok(AstNode::new(StatementType::Break, data))
            },
            TokenType::Kw(Keyword::Conti) => {
                self.pop()?;
                proof {
                    if start.at_tokens(keyword_stmt(Keyword::Conti)) {
                        start.lemma_tokens_step(self, keyword_stmt(Keyword::Conti));
                        lemma_follow_lexes(self.lexer.input@, self.lexer.pos(), seq![]);
                    }
                }
                self.compare(TokenType::Semicol)?;
                Ok(AstNode::new(StatementType::Continue, data))
            },
            TokenType::Kw(Keyword::Return) => {
                self.pop()?;
                proof {
                    if start.at_tokens(keyword_stmt(Keyword::Return)) {
                        start.lemma_tokens_step(self, keyword_stmt(Keyword::Return));
                        lemma_follow_lexes(self.lexer.input@, self.lexer.pos(), seq![]);
                    }
                }
                let result = if !self.at(&TokenType::Semicol) {
                    StatementType::Return(Some(Box::new(self.expr()?)))
                } else {
                    StatementType::Return(None)
                };
                self.compare(TokenType::Semicol)?;
                Ok(AstNode::new(result, data))
            },
            TokenType::LeftCurly => self.block_statement(),
            _ => {
                let res = self.expr_or_vars()?;
                proof {
                    if start.at_tokens(expr_stmt_tokens()) && !start.at_type_name() {
                        start.lemma_tokens_step(self, expr_stmt_tokens());
                        lemma_follow_lexes(self.lexer.input@, self.lexer.pos(), seq![]);
                    }
                }
                self.compare(TokenType::Semicol)?;
                Ok(res)
            },
        }
    }

    fn if_statement(&mut self) -> (r: Result<Statement, FrontendError>)
        requires
            old(self).inv(),
        ensures
            final(self).type_names == old(self).type_names,
            final(self).lexer.same_input(&old(self).lexer),
            r is Ok ==> final(self).advanced(old(self)),
            r matches Ok(s) ==> s.value is If || s.value is IfElse,
            old(self).at_tokens(if_else_tokens()) ==> (r matches Ok(s) && s.value is IfElse),
        decreases old(self).measure(), 39nat,
    {
        let data = self.act_data();
        let ghost pats = if_else_tokens();
        let ghost s0 = *self;
        let ghost good = s0.at_tokens(pats);
        proof {
            if good {
                s0.lemma_tokens_lex(pats);
            }
        }
        self.compare(TokenType::Kw(Keyword::If))?;
        let ghost s1 = *self;
        proof {
            if good {
                s0.lemma_tokens_step(&s1, pats);
                s1.lemma_tokens_lex(pats.drop_first());
            }
        }
        self.compare(TokenType::LeftBrac)?;
        let ghost s2 = *self;
        proof {
            if good {
                s1.lemma_tokens_step(&s2, pats.drop_first());
            }
        }
        let cond = self.expr()?;
        let ghost s3 = *self;
        proof {
            if good {
                s2.lemma_tokens_step(&s3, pats.drop_first().drop_first());
                s3.lemma_tokens_lex(pats.drop_first().drop_first().drop_first());
            }
        }
        self.compare(TokenType::RightBrac)?;
        let ghost s4 = *self;
        let ghost rest = pats.drop_first().drop_first().drop_first().drop_first();
        proof {
            if good {
                s3.lemma_tokens_step(&s4, pats.drop_first().drop_first().drop_first());
                lemma_follow_prefix(s4.lexer.input@, s4.lexer.pos(), rest.drop_first(), 1);
                assert(rest.take(2) =~= empty_block());
                assert(rest.drop_first().take(1) =~= empty_block().drop_first());
            }
        }
        let then = self.statement()?;
        proof {
            if good {
                lemma_follow_second(
                    s4.lexer.input@,
                    s4.lexer.pos(),
                    rest.drop_first(),
                    self.curr_tok.tok,
                    self.lexer.pos(),
                );
                assert(self.at_tokens(rest.drop_first().drop_first()));
                self.lemma_tokens_lex(rest.drop_first().drop_first());
            }
        }
        let value = if self.at(&TokenType::Kw(Keyword::Else)) {
            let ghost s5 = *self;
            self.compare(TokenType::Kw(Keyword::Else))?;
            proof {
                if good {
                    s5.lemma_tokens_step(self, rest.drop_first().drop_first());
                    assert(rest.drop_first().drop_first().drop_first() =~= empty_block());
                }
            }
            let else_b = self.statement()?;
            StatementType::IfElse(cond, Box::new(then), Box::new(else_b))
        } else {
            StatementType::If(cond, Box::new(then))
        };
        Ok(AstNode::new(value, data))
    }

    fn while_statement(&mut self) -> (r: Result<Statement, FrontendError>)
        requires
            old(self).inv(),
        ensures
            final(self).type_names == old(self).type_names,
            final(self).lexer.same_input(&old(self).lexer),
            r is Ok ==> final(self).advanced(old(self)),
            r matches Ok(s) ==> s.value is While,
            old(self).at_tokens(while_tokens()) ==> (r matches Ok(s) && s.value is While),
        decreases old(self).measure(), 39nat,
    {
        let data = self.act_data();
        let ghost pats = while_tokens();
        let ghost s0 = *self;
        proof {
            if s0.at_tokens(pats) {
                s0.lemma_tokens_lex(pats);
            }
        }
        self.compare(TokenType::Kw(Keyword::While))?;
        let ghost s1 = *self;
        proof {
            if s0.at_tokens(pats) {
                s0.lemma_tokens_step(&s1, pats);
                s1.lemma_tokens_lex(pats.drop_first());
            }
        }
        self.compare(TokenType::LeftBrac)?;
        let ghost s2 = *self;
        proof {
            if s0.at_tokens(pats) {
                s1.lemma_tokens_step(&s2, pats.drop_first());
            }
        }
        let cond = self.expr()?;
        let ghost s3 = *self;
        proof {
            if s0.at_tokens(pats) {
                s2.lemma_tokens_step(&s3, pats.drop_first().drop_first());
                s3.lemma_tokens_lex(pats.drop_first().drop_first().drop_first());
            }
        }
        self.compare(TokenType::RightBrac)?;
        proof {
            if s0.at_tokens(pats) {
                s3.lemma_tokens_step(self, pats.drop_first().drop_first().drop_first());
                assert(pats.drop_first().drop_first().drop_first().drop_first() =~= empty_block());
            }
        }
        let body = self.statement()?;
        Ok(AstNode::new(StatementType::While(cond, Box::new(body)), data))
    }

    fn for_statement(&mut self) -> (r: Result<Statement, FrontendError>)
        requires
            old(self).inv(),
        ensures
            final(self).type_names == old(self).type_names,
            final(self).lexer.same_input(&old(self).lexer),
            r is Ok ==> final(self).advanced(old(self)),
            r matches Ok(s) ==> s.value is For,
            old(self).at_tokens(for_tokens()) ==> (r matches Ok(s) && s.value matches StatementType::For(
                v,
                c,
                e,
                _,
            ) && v is None && c is None && e is None),
        decreases old(self).measure(), 39nat,
    {
        let data = self.act_data();
        let ghost pats = for_tokens();
        let ghost s0 = *self;
        proof {
            if s0.at_tokens(pats) {
                s0.lemma_tokens_lex(pats);
            }
        }
        self.compare(TokenType::Kw(Keyword::For))?;
        let ghost s1 = *self;
        proof {
            if s0.at_tokens(pats) {
                s0.lemma_tokens_step(&s1, pats);
                s1.lemma_tokens_lex(pats.drop_first());
            }
        }
        self.compare(TokenType::LeftBrac)?;
        let ghost s2 = *self;
        proof {
            if s0.at_tokens(pats) {
                s1.lemma_tokens_step(&s2, pats.drop_first());
                s2.lemma_tokens_lex(pats.drop_first().drop_first());
            }
        }
        let var = if !self.at(&TokenType::Semicol) {
            Some(Box::new(self.expr_or_vars()?))
        } else {
            None
        };
        self.compare(TokenType::Semicol)?;
        let ghost s3 = *self;
        proof {
            if s0.at_tokens(pats) {
                s2.lemma_tokens_step(&s3, pats.drop_first().drop_first());
                s3.lemma_tokens_lex(pats.drop_first().drop_first().drop_first());
            }
        }
        let cond = if !self.at(&TokenType::Semicol) {
            Some(self.expr()?)
        } else {
            None
        };
        self.compare(TokenType::Semicol)?;
        let ghost s4 = *self;
        proof {
            if s0.at_tokens(pats) {
                s3.lemma_tokens_step(&s4, pats.drop_first().drop_first().drop_first());
                s4.lemma_tokens_lex(pats.drop_first().drop_first().drop_first().drop_first());
            }
        }
        let end = if !self.at(&TokenType::RightBrac) {
            Some(Box::new(self.expr_or_vars()?))
        } else {
            None
        };
        self.compare(TokenType::RightBrac)?;
        proof {
            if s0.at_tokens(pats) {
                s4.lemma_tokens_step(self, pats.drop_first().drop_first().drop_first().drop_first());
                assert(pats.drop_first().drop_first().drop_first().drop_first().drop_first()
                    =~= empty_block());
            }
        }
        let body = self.statement()?;
        Ok(AstNode::new(StatementType::For(var, cond, end, Box::new(body)), data))
    }

    fn block_statement(&mut self) -> (r: Result<Statement, FrontendError>)
        requires
            old(self).inv(),
        ensures
            final(self).type_names == old(self).type_names,
            final(self).lexer.same_input(&old(self).lexer),
            r is Ok ==> final(self).advanced(old(self)),
            r matches Ok(s) ==> s.value is Block,
            old(self).at_tokens(empty_block()) ==> (r matches Ok(s) && s.value matches StatementType::Block(b)
                && b@.len() == 0 && final(self).stands_second_after(old(self))),
        decreases old(self).measure(), 39nat,
    {
        let data = self.act_data();
        proof {
            if self.at_tokens(empty_block()) {
                lemma_follow_lexes(self.lexer.input@, self.lexer.pos(), empty_block().drop_first());
            }
        }
        self.compare(TokenType::LeftCurly)?;
        proof {
            if old(self).at_tokens(empty_block()) {
                lemma_follow_step(
                    self.lexer.input@,
                    old(self).lexer.pos(),
                    empty_block().drop_first(),
                    self.curr_tok.tok,
                    self.lexer.pos(),
                );
            }
        }
        let mut statements: Vec<Statement> = Vec::new();
        let ghost mid = *self;
        while !self.at(&TokenType::RightCurly)
            invariant
                self.kept(&mid),
                mid.advanced(old(self)),
                self.type_names == old(self).type_names,
                self.lexer.same_input(&old(self).lexer),
                old(self).at_tokens(empty_block()) ==> self.curr_tok.tok == TokenType::RightCurly
                    && next_lexes(self.lexer.input@, self.lexer.pos()) && statements@.len() == 0
                    && self.stands_after(old(self)),
            decreases self.measure(),
        {
            let s = self.statement()?;
            statements.push(s);
        }
        let ghost m = *self;
        self.compare(TokenType::RightCurly)?;
        proof {
            if old(self).at_tokens(empty_block()) {
                let st = skip_white(self.lexer.input@, old(self).lexer.pos());
                assert(token_at(self.lexer.input@, st, m.curr_tok.tok, m.lexer.pos()));
                assert(lexed_next(self.lexer.input@, m.lexer.pos(), self.curr_tok.tok, self.lexer.pos()));
            }
        }
        Ok(AstNode::new(StatementType::Block(statements), data))
    }

    fn var_decl(&mut self) -> (r: Result<VarDecl, FrontendError>)
        requires
            old(self).inv(),
        ensures
            final(self).type_names == old(self).type_names,
            final(self).lexer.same_input(&old(self).lexer),
            r matches Ok(v) ==> final(self).advanced(old(self)) && v.data.loc == old(
                self,
            ).curr_tok.loc(),
            old(self).at_plain_var() ==> (r matches Ok(v) && v.value.init_val is None
                && final(self).curr_tok.tok == TokenType::Semicol && next_lexes(
                final(self).lexer.input@,
                final(self).lexer.pos(),
            )),
        decreases old(self).measure(), 37nat,
    {
        let data = self.act_data();
        let ghost s0 = *self;
        let mut var_type = self.type_parse()?;
        let ghost s1 = *self;
        proof {
            if s0.at_plain_var() {
                lemma_follow_step(
                    s0.lexer.input@,
                    s0.lexer.pos(),
                    named_end(),
                    s1.curr_tok.tok,
                    s1.lexer.pos(),
                );
                lemma_follow_lexes(s1.lexer.input@, s1.lexer.pos(), named_end().drop_first());
            }
        }
        let name = self.get_ident()?;
        proof {
            if s0.at_plain_var() {
                lemma_follow_step(
                    s1.lexer.input@,
                    s1.lexer.pos(),
                    named_end().drop_first(),
                    self.curr_tok.tok,
                    self.lexer.pos(),
                );
            }
        }
        if self.at(&TokenType::LeftSquare) {
            self.pop()?;
            let index = match self.pop()?.tok {
                TokenType::Int(index) => index,
                _ => return Err(FrontendError::Parser(ParserError::NonNumberAsSize)),
            };
            if index < 0 {
                return Err(FrontendError::Parser(ParserError::NegativeArraySize));
            }
            var_type = TypeDef::Array(
                ArrayType { inner_type: Box::new(var_type), index: index as usize },
            );
            self.compare(TokenType::RightSquare)?;
        }
        let init_val = if self.at(&TokenType::Operator(Operator::Assign)) {
            self.pop()?;
            Some(self.expr()?)
        } else {
            None
        };
        let result = VarDeclType { name, var_type, init_val };
        Ok(AstNode::new(result, data))
    }

    fn expr_or_vars(&mut self) -> (r: Result<Statement, FrontendError>)
        requires
            old(self).inv(),
        ensures
            final(self).type_names == old(self).type_names,
            final(self).lexer.same_input(&old(self).lexer),
            r is Ok ==> final(self).advanced(old(self)),
            r matches Ok(s) ==> s.value is VarDecl || s.value is Expr,
            old(self).at_plain_var() ==> (r matches Ok(s) && s.value is VarDecl
                && final(self).curr_tok.tok == TokenType::Semicol && next_lexes(
                final(self).lexer.input@,
                final(self).lexer.pos(),
            )),
            old(self).at_lone_operand() && !old(self).at_type_name() ==> (r matches Ok(s)
                && s.value is Expr && final(self).stands_after(old(self))),
        decreases old(self).measure(), 38nat,
    {
        let ghost s0 = *self;
        let p = self.curr_tok.position;
        let t = self.type_parse();
        proof {
            if s0.at_lone_operand() && !s0.at_type_name() {
                assert(t is Err);
            }
        }
        self.reset_to(p)?;
        proof {
            let s = self.lexer.input@;
            if s0.at_plain_var() || s0.at_lone_operand() {
                lemma_token_unique(
                    s,
                    p as int,
                    s0.curr_tok.tok,
                    s0.lexer.pos(),
                    self.curr_tok.tok,
                    self.lexer.pos(),
                );
            }
        }
        match t {
            Ok(_) => Ok(self.var_decl()?.into_statement()),
            Err(_) => Ok(self.expr()?.into_statement()),
        }
    }

    fn binop(o: Operator, l: Expr, r: Expr, data: AstData) -> (e: Expr)
        ensures
            e.value == ExprType::BinOp(o, Box::new(l), Box::new(r)),
            e.data == data,
    {
        AstNode::new(ExprType::BinOp(o, Box::new(l), Box::new(r)), data)
    }

    /// Assignments, which associate to the right.
    fn expr(&mut self) -> (r: Result<Expr, FrontendError>)
        requires
            old(self).inv(),
        ensures
            final(self).type_names == old(self).type_names,
            final(self).lexer.same_input(&old(self).lexer),
            r is Ok ==> final(self).advanced(old(self)),
            old(self).at_lone_operand() ==> r is Ok && ends_operand(final(self).curr_tok.tok)
                && final(self).stands_after(old(self)),
            r matches Ok(e) ==> old(self).curr_tok.position <= e.data.loc.position < final(self).curr_tok.position
                && in_source_order(e),
        decreases old(self).measure(), 20nat,
    {
        let e = self.e9()?;
        if self.at(&TokenType::Operator(Operator::Assign)) {
            let data = self.act_data();
            self.pop()?;
            let rhs = self.expr()?;
            Ok(Self::binop(Operator::Assign, e, rhs, data))
        } else {
            Ok(e)
        }
    }

    /// `||`
    fn e9(&mut self) -> (r: Result<Expr, FrontendError>)
        requires
            old(self).inv(),
        ensures
            final(self).type_names == old(self).type_names,
            final(self).lexer.same_input(&old(self).lexer),
            r is Ok ==> final(self).advanced(old(self)),
            old(self).at_lone_operand() ==> r is Ok && ends_operand(final(self).curr_tok.tok)
                && final(self).stands_after(old(self)),
            r matches Ok(e) ==> old(self).curr_tok.position <= e.data.loc.position < final(self).curr_tok.position
                && in_source_order(e),
        decreases old(self).measure(), 19nat,
    {
        let mut result = self.e8()?;
        let ghost mid = *self;
        while self.at(&TokenType::Operator(Operator::Or))
            invariant
                self.kept(&mid),
                mid.advanced(old(self)),
                old(self).curr_tok.position <= result.data.loc.position < self.curr_tok.position,
                in_source_order(result),
                self.type_names == old(self).type_names,
                self.lexer.same_input(&old(self).lexer),
                old(self).at_lone_operand() ==> ends_operand(self.curr_tok.tok) && self.stands_after(
                    old(self),
                ),
            decreases self.measure(),
        {
            let data = self.act_data();
            self.pop()?;
            let rhs = self.e8()?;
            result = Self::binop(Operator::Or, result, rhs, data);
        }
        Ok(result)
    }

    /// `&&`
    fn e8(&mut self) -> (r: Result<Expr, FrontendError>)
        requires
            old(self).inv(),
        ensures
            final(self).type_names == old(self).type_names,
            final(self).lexer.same_input(&old(self).lexer),
            r is Ok ==> final(self).advanced(old(self)),
            old(self).at_lone_operand() ==> r is Ok && ends_operand(final(self).curr_tok.tok)
                && final(self).stands_after(old(self)),
            r matches Ok(e) ==> old(self).curr_tok.position <= e.data.loc.position < final(self).curr_tok.position
                && in_source_order(e),
        decreases old(self).measure(), 18nat,
    {
        let mut result = self.e7()?;
        let ghost mid = *self;
        while self.at(&TokenType::Operator(Operator::And))
            invariant
                self.kept(&mid),
                mid.advanced(old(self)),
                old(self).curr_tok.position <= result.data.loc.position < self.curr_tok.position,
                in_source_order(result),
                self.type_names == old(self).type_names,
                self.lexer.same_input(&old(self).lexer),
                old(self).at_lone_operand() ==> ends_operand(self.curr_tok.tok) && self.stands_after(
                    old(self),
                ),
            decreases self.measure(),
        {
            let data = self.act_data();
            self.pop()?;
            let rhs = self.e7()?;
            result = Self::binop(Operator::And, result, rhs, data);
        }
        Ok(result)
    }

    /// `|`
    fn e7(&mut self) -> (r: Result<Expr, FrontendError>)
        requires
            old(self).inv(),
        ensures
            final(self).type_names == old(self).type_names,
            final(self).lexer.same_input(&old(self).lexer),
            r is Ok ==> final(self).advanced(old(self)),
            old(self).at_lone_operand() ==> r is Ok && ends_operand(final(self).curr_tok.tok)
                && final(self).stands_after(old(self)),
            r matches Ok(e) ==> old(self).curr_tok.position <= e.data.loc.position < final(self).curr_tok.position
                && in_source_order(e),
        decreases old(self).measure(), 17nat,
    {
        let mut result = self.e6()?;
        let ghost mid = *self;
        while self.at(&TokenType::Operator(Operator::BitOr))
            invariant
                self.kept(&mid),
                mid.advanced(old(self)),
                old(self).curr_tok.position <= result.data.loc.position < self.curr_tok.position,
                in_source_order(result),
                self.type_names == old(self).type_names,
                self.lexer.same_input(&old(self).lexer),
                old(self).at_lone_operand() ==> ends_operand(self.curr_tok.tok) && self.stands_after(
                    old(self),
                ),
            decreases self.measure(),
        {
            let data = self.act_data();
            self.pop()?;
            let rhs = self.e6()?;
            result = Self::binop(Operator::BitOr, result, rhs, data);
        }
        Ok(result)
    }

    /// `&`
    fn e6(&mut self) -> (r: Result<Expr, FrontendError>)
        requires
            old(self).inv(),
        ensures
            final(self).type_names == old(self).type_names,
            final(self).lexer.same_input(&old(self).lexer),
            r is Ok ==> final(self).advanced(old(self)),
            old(self).at_lone_operand() ==> r is Ok && ends_operand(final(self).curr_tok.tok)
                && final(self).stands_after(old(self)),
            r matches Ok(e) ==> old(self).curr_tok.position <= e.data.loc.position < final(self).curr_tok.position
                && in_source_order(e),
        decreases old(self).measure(), 16nat,
    {
        let mut result = self.e5()?;
        let ghost mid = *self;
        while self.at(&TokenType::Operator(Operator::BitAnd))
            invariant
                self.kept(&mid),
                mid.advanced(old(self)),
                old(self).curr_tok.position <= result.data.loc.position < self.curr_tok.position,
                in_source_order(result),
                self.type_names == old(self).type_names,
                self.lexer.same_input(&old(self).lexer),
                old(self).at_lone_operand() ==> ends_operand(self.curr_tok.tok) && self.stands_after(
                    old(self),
                ),
            decreases self.measure(),
        {
            let data = self.act_data();
            self.pop()?;
            let rhs = self.e5()?;
            result = Self::binop(Operator::BitAnd, result, rhs, data);
        }
        Ok(result)
    }

    /// The operator of the current token if it is one of `ops`.
    fn op_in(&self, ops: &[Operator]) -> (r: Option<Operator>)
        ensures
            r matches Some(o) ==> self.curr_tok.tok == TokenType::Operator(o) && ops@.contains(o),
            r is None ==> !(self.curr_tok.tok matches TokenType::Operator(o) && ops@.contains(o)),
    {
        if let TokenType::Operator(o) = self.curr_tok.tok {
            let mut i: usize = 0;
            while i < ops.len()
                invariant
                    0 <= i <= ops@.len(),
                    self.curr_tok.tok == TokenType::Operator(o),
                    forall|j: int| 0 <= j < i ==> ops@[j] != o,
                decreases ops@.len() - i,
            {
                if ops[i] == o {
                    assert(ops@[i as int] == o);
                    return Some(o);
                }
                i += 1;
            }
            None
        } else {
            None
        }
    }

    /// `==` and `!=`
    fn e5(&mut self) -> (r: Result<Expr, FrontendError>)
        requires
            old(self).inv(),
        ensures
            final(self).type_names == old(self).type_names,
            final(self).lexer.same_input(&old(self).lexer),
            r is Ok ==> final(self).advanced(old(self)),
            old(self).at_lone_operand() ==> r is Ok && ends_operand(final(self).curr_tok.tok)
                && final(self).stands_after(old(self)),
            r matches Ok(e) ==> old(self).curr_tok.position <= e.data.loc.position < final(self).curr_tok.position
                && in_source_order(e),
        decreases old(self).measure(), 15nat,
    {
        let mut result = self.e4()?;
        let ghost mid = *self;
        loop
            invariant
                self.kept(&mid),
                mid.advanced(old(self)),
                old(self).curr_tok.position <= result.data.loc.position < self.curr_tok.position,
                in_source_order(result),
                self.type_names == old(self).type_names,
                self.lexer.same_input(&old(self).lexer),
                old(self).at_lone_operand() ==> ends_operand(self.curr_tok.tok) && self.stands_after(
                    old(self),
                ),
            decreases self.measure(),
        {
            let o = match self.op_in(&[Operator::Eql, Operator::Neq]) {
                Some(o) => o,
                None => break,
            };
            let data = self.act_data();
            self.pop()?;
            let rhs = self.e4()?;
            result = Self::binop(o, result, rhs, data);
        }
        Ok(result)
    }

    /// `<`, `<=`, `>` and `>=`
    fn e4(&mut self) -> (r: Result<Expr, FrontendError>)
        requires
            old(self).inv(),
        ensures
            final(self).type_names == old(self).type_names,
            final(self).lexer.same_input(&old(self).lexer),
            r is Ok ==> final(self).advanced(old(self)),
            old(self).at_lone_operand() ==> r is Ok && ends_operand(final(self).curr_tok.tok)
                && final(self).stands_after(old(self)),
            r matches Ok(e) ==> old(self).curr_tok.position <= e.data.loc.position < final(self).curr_tok.position
                && in_source_order(e),
        decreases old(self).measure(), 14nat,
    {
        let mut result = self.e3()?;
        let ghost mid = *self;
        loop
            invariant
                self.kept(&mid),
                mid.advanced(old(self)),
                old(self).curr_tok.position <= result.data.loc.position < self.curr_tok.position,
                in_source_order(result),
                self.type_names == old(self).type_names,
                self.lexer.same_input(&old(self).lexer),
                old(self).at_lone_operand() ==> ends_operand(self.curr_tok.tok) && self.stands_after(
                    old(self),
                ),
            decreases self.measure(),
        {
            let o = match self.op_in(&[Operator::Lt, Operator::Le, Operator::Gt, Operator::Ge]) {
                Some(o) => o,
                None => break,
            };
            let data = self.act_data();
            self.pop()?;
            let rhs = self.e3()?;
            result = Self::binop(o, result, rhs, data);
        }
        Ok(result)
    }

    /// `<<` and `>>`
    fn e3(&mut self) -> (r: Result<Expr, FrontendError>)
        requires
            old(self).inv(),
        ensures
            final(self).type_names == old(self).type_names,
            final(self).lexer.same_input(&old(self).lexer),
            r is Ok ==> final(self).advanced(old(self)),
            old(self).at_lone_operand() ==> r is Ok && ends_operand(final(self).curr_tok.tok)
                && final(self).stands_after(old(self)),
            r matches Ok(e) ==> old(self).curr_tok.position <= e.data.loc.position < final(self).curr_tok.position
                && in_source_order(e),
        decreases old(self).measure(), 13nat,
    {
        let mut result = self.e2()?;
        let ghost mid = *self;
        loop
            invariant
                self.kept(&mid),
                mid.advanced(old(self)),
                old(self).curr_tok.position <= result.data.loc.position < self.curr_tok.position,
                in_source_order(result),
                self.type_names == old(self).type_names,
                self.lexer.same_input(&old(self).lexer),
                old(self).at_lone_operand() ==> ends_operand(self.curr_tok.tok) && self.stands_after(
                    old(self),
                ),
            decreases self.measure(),
        {
            let o = match self.op_in(&[Operator::ShiftLeft, Operator::ShiftRight]) {
                Some(o) => o,
                None => break,
            };
            let data = self.act_data();
            self.pop()?;
            let rhs = self.e2()?;
            result = Self::binop(o, result, rhs, data);
        }
        Ok(result)
    }

    /// `+` and `-`
    fn e2(&mut self) -> (r: Result<Expr, FrontendError>)
        requires
            old(self).inv(),
        ensures
            final(self).type_names == old(self).type_names,
            final(self).lexer.same_input(&old(self).lexer),
            r is Ok ==> final(self).advanced(old(self)),
            old(self).at_lone_operand() ==> r is Ok && ends_operand(final(self).curr_tok.tok)
                && final(self).stands_after(old(self)),
            r matches Ok(e) ==> old(self).curr_tok.position <= e.data.loc.position < final(self).curr_tok.position
                && in_source_order(e),
        decreases old(self).measure(), 12nat,
    {
        let mut result = self.e1()?;
        let ghost mid = *self;
        loop
            invariant
                self.kept(&mid),
                mid.advanced(old(self)),
                old(self).curr_tok.position <= result.data.loc.position < self.curr_tok.position,
                in_source_order(result),
                self.type_names == old(self).type_names,
                self.lexer.same_input(&old(self).lexer),
                old(self).at_lone_operand() ==> ends_operand(self.curr_tok.tok) && self.stands_after(
                    old(self),
                ),
            decreases self.measure(),
        {
            let o = match self.op_in(&[Operator::Add, Operator::Sub]) {
                Some(o) => o,
                None => break,
            };
            let data = self.act_data();
            self.pop()?;
            let rhs = self.e1()?;
            result = Self::binop(o, result, rhs, data);
        }
        Ok(result)
    }

    /// `*`, `/` and `%`
    fn e1(&mut self) -> (r: Result<Expr, FrontendError>)
        requires
            old(self).inv(),
        ensures
            final(self).type_names == old(self).type_names,
            final(self).lexer.same_input(&old(self).lexer),
            r is Ok ==> final(self).advanced(old(self)),
            old(self).at_lone_operand() ==> r is Ok && ends_operand(final(self).curr_tok.tok)
                && final(self).stands_after(old(self)),
            r matches Ok(e) ==> old(self).curr_tok.position <= e.data.loc.position < final(self).curr_tok.position
                && in_source_order(e),
        decreases old(self).measure(), 11nat,
    {
        let mut result = self.e_unary_pre()?;
        let ghost mid = *self;
        loop
            invariant
                self.kept(&mid),
                mid.advanced(old(self)),
                old(self).curr_tok.position <= result.data.loc.position < self.curr_tok.position,
                in_source_order(result),
                self.type_names == old(self).type_names,
                self.lexer.same_input(&old(self).lexer),
                old(self).at_lone_operand() ==> ends_operand(self.curr_tok.tok) && self.stands_after(
                    old(self),
                ),
            decreases self.measure(),
        {
            let o = match self.op_in(&[Operator::Mul, Operator::Div, Operator::Mod]) {
                Some(o) => o,
                None => break,
            };
            let data = self.act_data();
            self.pop()?;
            let rhs = self.e_unary_pre()?;
            result = Self::binop(o, result, rhs, data);
        }
        Ok(result)
    }

    fn e_unary_pre(&mut self) -> (r: Result<Expr, FrontendError>)
        requires
            old(self).inv(),
        ensures
            final(self).type_names == old(self).type_names,
            final(self).lexer.same_input(&old(self).lexer),
            r is Ok ==> final(self).advanced(old(self)),
            old(self).at_lone_operand() ==> r is Ok && ends_operand(final(self).curr_tok.tok)
                && final(self).stands_after(old(self)),
            r matches Ok(e) ==> old(self).curr_tok.position <= e.data.loc.position < final(self).curr_tok.position
                && in_source_order(e),
        decreases old(self).measure(), 10nat,
    {
        if let TokenType::Operator(o) = self.curr_tok.tok {
            self.e_unary_pre_inner(o)
        } else {
            self.e_post()
        }
    }

    fn e_unary_pre_inner(&mut self, operator: Operator) -> (r: Result<Expr, FrontendError>)
        requires
            old(self).inv(),
            old(self).curr_tok.tok == TokenType::Operator(operator),
        ensures
            final(self).type_names == old(self).type_names,
            final(self).lexer.same_input(&old(self).lexer),
            r is Ok ==> final(self).advanced(old(self)),
            r matches Ok(e) ==> match operator {
                Operator::Add | Operator::Sub | Operator::Inc | Operator::Dec | Operator::Not
                | Operator::BitNot => e.value matches ExprType::UnaryPreOp(o, _) && o == operator,
                Operator::Mul => e.value is Deref,
                Operator::BitAnd => e.value is Address,
                _ => true,
            },
            (operator is Add || operator is Sub || operator is Inc || operator is Dec || operator is Not
                || operator is BitNot || operator is Mul || operator is BitAnd) && lone_operand_after(
                old(self).lexer.input@,
                old(self).lexer.pos(),
            ) ==> r is Ok && ends_operand(final(self).curr_tok.tok),
            r matches Ok(e) ==> old(self).curr_tok.position <= e.data.loc.position < final(self).curr_tok.position
                && in_source_order(e),
        decreases old(self).measure(), 9nat,
    {
        let data = self.act_data();
        match operator {
            Operator::Add | Operator::Sub | Operator::Inc | Operator::Dec | Operator::Not
            | Operator::BitNot => {
                self.pop()?;
                let e = self.e_unary_pre()?;
                Ok(AstNode::new(ExprType::UnaryPreOp(operator, Box::new(e)), data))
            },
            Operator::Mul => {
                self.pop()?;
                let e = self.e_unary_pre()?;
                Ok(AstNode::new(ExprType::Deref(Box::new(e)), data))
            },
            Operator::BitAnd => {
                self.pop()?;
                let e = self.e_unary_pre()?;
                Ok(AstNode::new(ExprType::Address(Box::new(e)), data))
            },
            _ => self.e_post(),
        }
    }

    /// Whether an expression is the name `@` of the system call.
    fn is_syscall_name(e: &Expr) -> (r: bool)
        ensures
            r == (e.value matches ExprType::Ident(n) && n@ == seq!['@']),
    {
        match &e.value {
            ExprType::Ident(n) => {
                let cs = string_chars(n);
                let r = cs.len() == 1 && cs[0] == '@';
                proof {
                    if r {
                        assert(n@ =~= seq!['@']);
                    }
                }
                r
            },
            _ => false,
        }
    }

    /// Arguments after the first one, each introduced by a comma.
    fn comma_args(&mut self, args: &mut Vec<Expr>) -> (r: Result<(), FrontendError>)
        requires
            old(self).inv(),
        ensures
            final(self).type_names == old(self).type_names,
            final(self).lexer.same_input(&old(self).lexer),
            r is Ok ==> final(self).kept(old(self)) && !tok_eq(final(self).curr_tok.tok, TokenType::Comma),
            final(args)@.len() >= old(args)@.len(),
            final(args)@.take(old(args)@.len() as int) == old(args)@,
            !tok_eq(old(self).curr_tok.tok, TokenType::Comma) ==> r is Ok && *final(self) == *old(self) && final(args)@
                == old(args)@,
        decreases old(self).measure(), 30nat,
    {
        let ghost start = *self;
        while self.at(&TokenType::Comma)
            invariant
                self.kept(&start),
                start == *old(self),
                self.type_names == old(self).type_names,
                self.lexer.same_input(&old(self).lexer),
                args@.len() >= old(args)@.len(),
                args@.take(old(args)@.len() as int) == old(args)@,
                !tok_eq(old(self).curr_tok.tok, TokenType::Comma) ==> *self == *old(self) && args@ == old(args)@,
            decreases self.measure(),
        {
            self.pop()?;
            let e = self.expr()?;
            let ghost before = args@;
            args.push(e);
            proof {
                assert(args@.take(old(args)@.len() as int) =~= before.take(old(args)@.len() as int));
            }
        }
        Ok(())
    }

    /// Postfix operators: `++`, `--`, calls, indexing and field access.
    fn e_post(&mut self) -> (r: Result<Expr, FrontendError>)
        requires
            old(self).inv(),
        ensures
            final(self).type_names == old(self).type_names,
            final(self).lexer.same_input(&old(self).lexer),
            r is Ok ==> final(self).advanced(old(self)),
            old(self).at_lone_operand() ==> r is Ok && ends_operand(final(self).curr_tok.tok)
                && final(self).stands_after(old(self)),
            old(self).at_tokens(index_tokens()) ==> (r matches Ok(e) && e.value is Index),
            r matches Ok(e) ==> old(self).curr_tok.position <= e.data.loc.position < final(self).curr_tok.position
                && in_source_order(e),
        decreases old(self).measure(), 8nat,
    {
        let ghost pats = index_tokens();
        proof {
            if old(self).at_tokens(pats) {
                old(self).lemma_tokens_lex(pats);
            }
        }
        let mut result = self.f()?;
        proof {
            if old(self).at_tokens(pats) {
                old(self).lemma_tokens_step(self, pats);
            }
        }
        let ghost mid = *self;
        loop
            invariant
                self.kept(&mid),
                mid.advanced(old(self)),
                old(self).curr_tok.position <= result.data.loc.position < self.curr_tok.position,
                in_source_order(result),
                self.type_names == old(self).type_names,
                self.lexer.same_input(&old(self).lexer),
                old(self).at_lone_operand() ==> ends_operand(self.curr_tok.tok) && self.stands_after(
                    old(self),
                ),
                old(self).at_tokens(index_tokens()) ==> (self.at_tokens(index_tokens().drop_first())
                    || (self.at_tokens(seq![TokPattern::EndsOperand]) && result.value is Index)),
            ensures
                self.kept(&mid),
                mid.advanced(old(self)),
                old(self).curr_tok.position <= result.data.loc.position < self.curr_tok.position,
                in_source_order(result),
                self.type_names == old(self).type_names,
                self.lexer.same_input(&old(self).lexer),
                old(self).at_lone_operand() ==> ends_operand(self.curr_tok.tok) && self.stands_after(
                    old(self),
                ),
                old(self).at_tokens(index_tokens()) ==> result.value is Index,
            decreases self.measure(),
        {
            let data = self.act_data();
            match self.curr_tok.tok {
                TokenType::Operator(o) if o == Operator::Inc || o == Operator::Dec => {
                    self.pop()?;
                    result = AstNode::new(ExprType::UnaryPostOp(o, Box::new(result)), data);
                },
                TokenType::LeftBrac if Self::is_syscall_name(&result) => {
                    self.pop()?;
                    let call_num = if let TokenType::Int(num) = self.curr_tok.tok {
                        num
                    } else {
                        return Err(
                            FrontendError::Parser(
                                ParserError::UnexpectedToken(self.curr_tok.tok.duplicate()),
                            ),
                        );
                    };
                    self.pop()?;
                    let mut args: Vec<Expr> = Vec::new();
                    self.comma_args(&mut args)?;
                    self.compare(TokenType::RightBrac)?;
                    result = AstNode::new(ExprType::SysCall(call_num, args), data);
                },
                TokenType::LeftBrac => {
                    self.pop()?;
                    let mut args: Vec<Expr> = Vec::new();
                    if !self.at(&TokenType::RightBrac) {
                        let e = self.expr()?;
                        args.push(e);
                        self.comma_args(&mut args)?;
                    }
                    self.pop()?;
                    result = AstNode::new(ExprType::Call(Box::new(result), args), data);
                },
                TokenType::LeftSquare => {
                    let ghost q0 = *self;
                    let ghost good = old(self).at_tokens(index_tokens()) && q0.at_tokens(
                        index_tokens().drop_first(),
                    );
                    let ghost p1 = index_tokens().drop_first();
                    proof {
                        if good {
                            q0.lemma_tokens_lex(p1);
                        }
                    }
                    self.pop()?;
                    let ghost q1 = *self;
                    proof {
                        if good {
                            q0.lemma_tokens_step(&q1, p1);
                        }
                    }
                    let index = self.expr()?;
                    let ghost q2 = *self;
                    proof {
                        if good {
                            q1.lemma_tokens_step(&q2, p1.drop_first());
                            q2.lemma_tokens_lex(p1.drop_first().drop_first());
                        }
                    }
                    result = AstNode::new(ExprType::Index(Box::new(result), Box::new(index)), data);
                    self.compare(TokenType::RightSquare)?;
                    proof {
                        if good {
                            q2.lemma_tokens_step(self, p1.drop_first().drop_first());
                            assert(p1.drop_first().drop_first().drop_first() =~= seq![TokPattern::EndsOperand]);
                        }
                        if old(self).at_tokens(index_tokens()) {
                            assert(!q0.at_tokens(seq![TokPattern::EndsOperand]));
                        }
                    }
                },
                TokenType::Dot => {
                    self.pop()?;
                    let field = self.get_ident()?;
                    result = AstNode::new(ExprType::FieldAccess(Box::new(result), field), data);
                },
                _ => break,
            }
        }
        Ok(result)
    }

    /// Primary expressions: names, literals, parentheses and casts.
    fn f(&mut self) -> (r: Result<Expr, FrontendError>)
        requires
            old(self).inv(),
        ensures
            final(self).type_names == old(self).type_names,
            final(self).lexer.same_input(&old(self).lexer),
            r is Ok ==> final(self).advanced(old(self)),
            old(self).at_lone_operand() ==> r is Ok && ends_operand(final(self).curr_tok.tok)
                && final(self).stands_after(old(self)),
            old(self).curr_tok.tok is Ident && next_lexes(old(self).lexer.input@, old(self).lexer.pos())
                ==> (r matches Ok(e) && e.value is Ident && final(self).stands_after(old(self))),
            r matches Ok(e) ==> old(self).curr_tok.position <= e.data.loc.position < final(self).curr_tok.position
                && in_source_order(e),
        decreases old(self).measure(), 7nat,
    {
        let data = self.act_data();
        let t = self.pop()?.tok;
        match t {
            TokenType::Ident(name) => Ok(AstNode::new(ExprType::Ident(name), data)),
            TokenType::At => {
                let mut v: Vec<char> = Vec::new();
                v.push('@');
                Ok(AstNode::new(ExprType::Ident(chars_to_string(&v)), data))
            },
            TokenType::Int(num) => Ok(AstNode::new(ExprType::Value(Val::Integer(num)), data)),
            TokenType::Char(c) => Ok(AstNode::new(ExprType::Value(Val::Char(c)), data)),
            TokenType::LeftBrac => {
                let e = self.expr()?;
                self.compare(TokenType::RightBrac)?;
                Ok(e)
            },
            TokenType::Kw(Keyword::Cast) => {
                self.compare(TokenType::Operator(Operator::Lt))?;
                let t = self.type_parse()?;
                self.compare(TokenType::Operator(Operator::Gt))?;
                self.compare(TokenType::LeftBrac)?;
                let e = self.expr()?;
                self.compare(TokenType::RightBrac)?;
                Ok(AstNode::new(ExprType::Cast(t, Box::new(e)), data))
            },
            t => Err(FrontendError::Parser(ParserError::UnexpectedToken(t))),
        }
    }

    /// Whether `name` is a declared structure name.
    fn is_type_name(&self, name: &String) -> (r: bool)
        ensures
            r == names_contain(self.type_names@, name@),
    {
        let mut i: usize = 0;
        while i < self.type_names.len()
            invariant
                0 <= i <= self.type_names@.len(),
                forall|j: int| 0 <= j < i ==> (#[trigger] self.type_names@[j])@ != name@,
            decreases self.type_names@.len() - i,
        {
            if self.type_names[i] == *name {
                return true;
            }
            i += 1;
        }
        false
    }

    fn base_type(&mut self) -> (r: Result<TypeDef, FrontendError>)
        requires
            old(self).inv(),
        ensures
            final(self).type_names == old(self).type_names,
            final(self).lexer.same_input(&old(self).lexer),
            r is Ok ==> final(self).advanced(old(self)),
            r matches Ok(t) ==> match old(self).curr_tok.tok {
                TokenType::Ident(n) => names_contain(old(self).type_names@, n@) && t
                    == TypeDef::Alias(n),
                TokenType::Kw(Keyword::Void) => t == TypeDef::Void,
                TokenType::Kw(Keyword::Int) => t == TypeDef::PrimType(PrimType::Int),
                TokenType::Kw(Keyword::Char) => t == TypeDef::PrimType(PrimType::Char),
                _ => false,
            },
            r matches Err(FrontendError::Parser(e)) ==> e == ParserError::InvalidType(
                old(self).curr_tok.tok,
            ),
            old(self).at_type_name() && next_lexes(old(self).lexer.input@, old(self).lexer.pos())
                ==> r is Ok,
            r is Ok ==> lexed_next(
                old(self).lexer.input@,
                old(self).lexer.pos(),
                final(self).curr_tok.tok,
                final(self).lexer.pos(),
            ),
    {
        if let TokenType::Ident(name) = &self.curr_tok.tok {
            if self.is_type_name(name) {
                let n = name.clone();
                self.pop()?;
                return Ok(TypeDef::Alias(n));
            }
        }
        match self.pop()?.tok {
            TokenType::Kw(Keyword::Void) => Ok(TypeDef::Void),
            TokenType::Kw(Keyword::Int) => Ok(TypeDef::PrimType(PrimType::Int)),
            TokenType::Kw(Keyword::Char) => Ok(TypeDef::PrimType(PrimType::Char)),
            t => Err(FrontendError::Parser(ParserError::InvalidType(t))),
        }
    }

    fn type_parse(&mut self) -> (r: Result<TypeDef, FrontendError>)
        requires
            old(self).inv(),
        ensures
            final(self).type_names == old(self).type_names,
            final(self).lexer.same_input(&old(self).lexer),
            r is Ok ==> final(self).advanced(old(self)),
            r matches Ok(t) ==> is_parsed_type(t),
            old(self).at_type_name() && type_follows(old(self).lexer.input@, old(self).lexer.pos())
                ==> r is Ok && final(self).stands_after(old(self)),
            r is Ok ==> old(self).at_type_name(),
            r matches Ok(t) ==> pointee_base(t) == named_type(old(self).curr_tok.tok),
            old(self).at_type_name() && type_follows(old(self).lexer.input@, old(self).lexer.pos())
                ==> r == Ok::<TypeDef, FrontendError>(named_type(old(self).curr_tok.tok)),
    {
        let mut t = self.base_type()?;
        let ghost t0 = t;
        let ghost mid = *self;
        while self.at(&TokenType::Operator(Operator::Mul))
            invariant
                self.kept(&mid),
                mid.advanced(old(self)),
                self.type_names == old(self).type_names,
                is_parsed_type(t),
                old(self).at_type_name() && type_follows(old(self).lexer.input@, old(self).lexer.pos())
                    ==> !tok_eq(self.curr_tok.tok, TokenType::Operator(Operator::Mul))
                    && self.stands_after(old(self)) && t == t0,
                pointee_base(t) == named_type(old(self).curr_tok.tok),
            decreases self.measure(),
        {
            self.pop()?;
            t = TypeDef::PointerType(Box::new(t));
        }
        Ok(t)
    }
}

} // verus!
