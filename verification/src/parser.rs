//! The parser: its state, the steps that all rules are made of, and the rules
//! for expressions, lists and statements.
use crate::expression::{node, nodes, Ast, Expression, Node};
use crate::grammar::{
    apply_infix_of, apply_prefix_of, infix_error, prefix_error, rule_of, with_node, Grammar, ParseRule,
};
use crate::lexer::{lexer_message, next, next_goes_forward, Lex, Lexer, LexerError};
use crate::text::owned;
use crate::tokens::{merged, shown, Position, Span, Spanned, Tok, Token};
use vstd::prelude::*;
use vstd::string::StringExecFns;

verus! {

// ── Errors ───────────────────────────────────────────────────────────────

/// Why a source does not parse.
#[derive(Debug, PartialEq)]
pub enum ParseError {
    ExpectedButFound(Token, Token),
    /// A token that starts no expression.
    ExpectedExpression,
    /// A token that continues no expression.
    ExpectedOperator,
    ExpectedIdentifier,
    LexError(LexerError),
    /// A function type without parentheses.
    FunctionTypeNeedsParens,
    /// The left side of `=` is no place.
    InvalidAssignmentTarget,
    Other(String),
}

/// Why a source does not parse, as a mathematical value.
pub ghost enum PErr {
    ExpectedButFound(Tok, Tok),
    ExpectedExpression,
    ExpectedOperator,
    ExpectedIdentifier,
    LexError(LexerError),
    FunctionTypeNeedsParens,
    InvalidAssignmentTarget,
    Other(Seq<char>),
}

impl View for ParseError {
    type V = PErr;

    open spec fn view(&self) -> PErr {
        match *self {
            ParseError::ExpectedButFound(expected, found) => PErr::ExpectedButFound(expected@, found@),
            ParseError::ExpectedExpression => PErr::ExpectedExpression,
            ParseError::ExpectedOperator => PErr::ExpectedOperator,
            ParseError::ExpectedIdentifier => PErr::ExpectedIdentifier,
            ParseError::LexError(e) => PErr::LexError(e),
            ParseError::FunctionTypeNeedsParens => PErr::FunctionTypeNeedsParens,
            ParseError::InvalidAssignmentTarget => PErr::InvalidAssignmentTarget,
            ParseError::Other(msg) => PErr::Other(msg@),
        }
    }
}

/// An error with its place, as a mathematical value.
pub type Fail = Spanned<PErr>;

pub open spec fn fail_at(item: PErr, span: Span) -> Fail {
    Spanned { span, item }
}

pub open spec fn fail_view(e: Spanned<ParseError>) -> Fail {
    Spanned { span: e.span, item: e.item@ }
}

pub open spec fn fail_views(es: Seq<Spanned<ParseError>>) -> Seq<Fail> {
    es.map_values(|e: Spanned<ParseError>| fail_view(e))
}

/// What is said to the user of an error.
pub open spec fn parse_message(e: PErr) -> Seq<char> {
    match e {
        PErr::ExpectedButFound(expected, found) => "expected "@ + shown(expected) + ", found "@ + shown(found),
        PErr::ExpectedExpression => "expected an expression"@,
        PErr::ExpectedOperator => "expected an operator"@,
        PErr::ExpectedIdentifier => "expected an identifier"@,
        PErr::LexError(e) => lexer_message(e),
        PErr::FunctionTypeNeedsParens => "a function type needs parentheses, e.g. `(A -> B)`"@,
        PErr::InvalidAssignmentTarget => "invalid assignment target"@,
        PErr::Other(msg) => msg,
    }
}

impl ParseError {
    /// What is said to the user.
    pub fn message(&self) -> (r: String)
        ensures
            r@ == parse_message(self@),
    {
        match self {
            ParseError::ExpectedButFound(expected, found) => {
                let mut out = owned("expected ");
                let e = expected.show();
                let f = found.show();
                out.append(e.as_str());
                out.append(", found ");
                out.append(f.as_str());
                assert(out@ =~= parse_message(self@));
                out
            },
            ParseError::ExpectedExpression => owned("expected an expression"),
            ParseError::ExpectedOperator => owned("expected an operator"),
            ParseError::ExpectedIdentifier => owned("expected an identifier"),
            ParseError::LexError(e) => e.message(),
            ParseError::FunctionTypeNeedsParens => owned("a function type needs parentheses, e.g. `(A -> B)`"),
            ParseError::InvalidAssignmentTarget => owned("invalid assignment target"),
            ParseError::Other(msg) => owned(msg.as_str()),
        }
    }
}

// ── Precedence ───────────────────────────────────────────────────────────

/// How tightly an operator binds, from the loosest on.
#[derive(Debug, PartialEq, Eq, Clone, Copy, Structural)]
pub enum Precedence {
    /// Of a token that is no operator.
    Lowest,
    Assign,
    TypeAnnotation,
    Catch,
    Range,
    Or,
    And,
    Equality,
    Comparison,
    Term,
    Factor,
    Unary,
    Call,
    Primary,
}

pub open spec fn rank_of(p: Precedence) -> u8 {
    match p {
        Precedence::Lowest => 0,
        Precedence::Assign => 1,
        Precedence::TypeAnnotation => 2,
        Precedence::Catch => 3,
        Precedence::Range => 4,
        Precedence::Or => 5,
        Precedence::And => 6,
        Precedence::Equality => 7,
        Precedence::Comparison => 8,
        Precedence::Term => 9,
        Precedence::Factor => 10,
        Precedence::Unary => 11,
        Precedence::Call => 12,
        Precedence::Primary => 13,
    }
}

/// The next tighter precedence.
pub open spec fn next_of(p: Precedence) -> Precedence {
    match p {
        Precedence::Lowest => Precedence::Assign,
        Precedence::Assign => Precedence::TypeAnnotation,
        Precedence::TypeAnnotation => Precedence::Catch,
        Precedence::Catch => Precedence::Range,
        Precedence::Range => Precedence::Or,
        Precedence::Or => Precedence::And,
        Precedence::And => Precedence::Equality,
        Precedence::Equality => Precedence::Comparison,
        Precedence::Comparison => Precedence::Term,
        Precedence::Term => Precedence::Factor,
        Precedence::Factor => Precedence::Unary,
        Precedence::Unary => Precedence::Call,
        Precedence::Call => Precedence::Primary,
        Precedence::Primary => Precedence::Primary,
    }
}

/// The next tighter precedence is one rank up, except at the top.
pub proof fn next_is_tighter(p: Precedence)
    ensures
        p != Precedence::Primary ==> rank_of(next_of(p)) == rank_of(p) + 1,
        p == Precedence::Primary ==> next_of(p) == p,
{
}

impl Precedence {
    /// The position in the order of precedence.
    pub fn rank(self) -> (r: u8)
        ensures
            r == rank_of(self),
    {
        match self {
            Precedence::Lowest => 0,
            Precedence::Assign => 1,
            Precedence::TypeAnnotation => 2,
            Precedence::Catch => 3,
            Precedence::Range => 4,
            Precedence::Or => 5,
            Precedence::And => 6,
            Precedence::Equality => 7,
            Precedence::Comparison => 8,
            Precedence::Term => 9,
            Precedence::Factor => 10,
            Precedence::Unary => 11,
            Precedence::Call => 12,
            Precedence::Primary => 13,
        }
    }

    /// The next tighter precedence.
    pub fn next(self) -> (r: Precedence)
        ensures
            r == next_of(self),
    {
        match self {
            Precedence::Lowest => Precedence::Assign,
            Precedence::Assign => Precedence::TypeAnnotation,
            Precedence::TypeAnnotation => Precedence::Catch,
            Precedence::Catch => Precedence::Range,
            Precedence::Range => Precedence::Or,
            Precedence::Or => Precedence::And,
            Precedence::And => Precedence::Equality,
            Precedence::Equality => Precedence::Comparison,
            Precedence::Comparison => Precedence::Term,
            Precedence::Term => Precedence::Factor,
            Precedence::Factor => Precedence::Unary,
            Precedence::Unary => Precedence::Call,
            Precedence::Call => Precedence::Primary,
            Precedence::Primary => Precedence::Primary,
        }
    }
}

// ── The state ────────────────────────────────────────────────────────────

/// A parser: the source, the token under consideration, and the errors so far.
#[derive(Debug)]
pub struct Parser {
    lexer: Lexer,
    pub current_token: Spanned<Token>,
    errors: Vec<Spanned<ParseError>>,
}

/// The state of a parser as a value.
pub ghost struct PState {
    pub lex: Lex,
    pub cur: Spanned<Tok>,
    pub errs: Seq<Fail>,
}

pub open spec fn tok_view(t: Spanned<Token>) -> Spanned<Tok> {
    Spanned { span: t.span, item: t.item@ }
}

impl View for Parser {
    type V = PState;

    closed spec fn view(&self) -> PState {
        PState { lex: self.lexer@, cur: tok_view(self.current_token), errs: fail_views(self.errors@) }
    }
}

impl PState {
    pub open spec fn ok(self) -> bool {
        self.lex.valid()
    }

    /// Whether the present token is `t`.
    pub open spec fn sees(self, t: Token) -> bool {
        self.cur.item == Tok::Word(t)
    }

    pub open spec fn at_end(self) -> bool {
        self.sees(Token::EOF)
    }

    pub open spec fn reported(self, e: Fail) -> PState {
        PState { errs: self.errs.push(e), ..self }
    }
}

/// How much is left to parse: every step that succeeds makes it less.
pub open spec fn measure(s: PState) -> nat {
    (if s.lex.left() > 0 {
        2 * s.lex.left()
    } else {
        0int
    } + if s.at_end() {
        0int
    } else {
        1int
    }) as nat
}

/// The state `t` that a step from `s` leads to. No step leaves more to parse
/// than there was, so this is always `t`; said here, it shows that the rules
/// below come to an end.
pub open spec fn after(s: PState, t: PState) -> PState {
    if measure(t) <= measure(s) {
        t
    } else {
        s
    }
}

/// The error of a rule that makes no headway, which no rule does.
pub open spec fn stuck(s: PState) -> Fail {
    fail_at(PErr::ExpectedExpression, s.cur.span)
}

pub open spec fn node_result(r: Result<Spanned<Expression>, Spanned<ParseError>>) -> Result<Node, Fail> {
    match r {
        Ok(e) => Ok(node(e)),
        Err(e) => Err(fail_view(e)),
    }
}

// ── Steps ────────────────────────────────────────────────────────────────

/// Takes the present token and reads the next one. Where that fails, the
/// present token stays.
#[verifier::opaque]
pub open spec fn advance_of(s: PState) -> (Result<Spanned<Tok>, Fail>, PState) {
    let (r, lex) = next(s.lex);
    match r {
        Ok((item, span)) => (Ok(s.cur), PState { lex, cur: Spanned { span, item }, ..s }),
        Err((e, span)) => (Err(fail_at(PErr::LexError(e), span)), PState { lex, ..s }),
    }
}

proof fn advance_goes_on(s: PState)
    requires
        s.ok(),
    ensures
        advance_of(s).1.ok(),
        advance_of(s).1.lex.text == s.lex.text,
        advance_of(s).1.errs == s.errs,
        measure(advance_of(s).1) <= measure(s),
        !s.at_end() ==> measure(advance_of(s).1) < measure(s),
{
    reveal(advance_of);
    next_goes_forward(s.lex);
}

/// Takes the present token, whatever is next.
#[verifier::opaque]
pub open spec fn step_over_of(s: PState) -> PState {
    advance_of(s).1
}

/// Takes the present token, which must be `expected`.
#[verifier::opaque]
pub open spec fn consume_of(s: PState, expected: Tok) -> (Result<Spanned<Tok>, Fail>, PState) {
    let (r, t) = advance_of(s);
    match r {
        Err(e) => (Err(e), t),
        Ok(found) => if found.item == expected {
            (Ok(found), t)
        } else {
            let e = fail_at(PErr::ExpectedButFound(expected, found.item), found.span);
            (Err(e), t.reported(e))
        },
    }
}

/// Takes the present token, which must be a name.
#[verifier::opaque]
pub open spec fn identifier_of(s: PState) -> (Result<Spanned<Tok>, Fail>, PState) {
    let (r, t) = advance_of(s);
    match r {
        Err(e) => (Err(e), t),
        Ok(found) => if found.item is Name {
            (Ok(found), t)
        } else {
            let e = fail_at(PErr::ExpectedIdentifier, found.span);
            (Err(e), t.reported(e))
        },
    }
}

/// Past newlines.
#[verifier::opaque]
pub open spec fn skip_newlines_of(s: PState) -> PState
    decreases measure(s),
{
    if s.sees(Token::Newline) {
        let t = advance_of(s).1;
        if measure(t) < measure(s) {
            skip_newlines_of(t)
        } else {
            t
        }
    } else {
        s
    }
}

/// Past newlines and semicolons.
#[verifier::opaque]
pub open spec fn skip_newlines_and_semicolons_of(s: PState) -> PState
    decreases measure(s),
{
    if s.sees(Token::Newline) || s.sees(Token::Semicolon) {
        let t = advance_of(s).1;
        if measure(t) < measure(s) {
            skip_newlines_and_semicolons_of(t)
        } else {
            t
        }
    } else {
        s
    }
}

/// Whether `expected` comes next, perhaps after newlines. Only if it does are
/// the newlines taken.
#[verifier::opaque]
pub open spec fn peek_past_newlines_is_of(s: PState, expected: Tok) -> (bool, PState) {
    if !s.sees(Token::Newline) {
        (s.cur.item == expected, s)
    } else {
        let t = skip_newlines_of(s);
        if t.cur.item == expected {
            (true, t)
        } else {
            (false, s)
        }
    }
}

/// Whether names follow, a comma before each, up to a `)` with `->` behind it.
#[verifier::opaque]
pub open spec fn names_ahead_of(s: PState) -> bool
    decreases measure(s),
{
    let (past_comma, t) = advance_of(s);
    let name = skip_newlines_of(t);
    let (past_name, t) = advance_of(name);
    let end = skip_newlines_of(t);
    let (past_end, behind) = advance_of(end);
    &&& s.sees(Token::Comma)
    &&& past_comma is Ok
    &&& name.cur.item is Name
    &&& past_name is Ok
    &&& if end.sees(Token::RightParen) {
        past_end is Ok && behind.sees(Token::Arrow)
    } else {
        measure(end) < measure(s) && names_ahead_of(end)
    }
}

pub open spec fn report_of(s: PState, e: Fail) -> PState {
    s.reported(e)
}

/// Reads on to the next newline, comma or end. Lexical errors on the way are
/// reported.
#[verifier::opaque]
pub open spec fn synchronize_of(s: PState) -> PState
    decreases s.lex.left(),
{
    let (r, lex) = next(s.lex);
    let t = match r {
        Ok(_) => PState { lex, ..s },
        Err((e, span)) => PState { lex, ..s }.reported(fail_at(PErr::LexError(e), span)),
    };
    match r {
        Ok((item, span)) => if item == Tok::Word(Token::EOF) || item == Tok::Word(Token::Newline) || item == Tok::Word(
            Token::Comma,
        ) {
            PState { cur: Spanned { span, item }, ..t }
        } else if 0 <= lex.left() < s.lex.left() {
            synchronize_of(t)
        } else {
            t
        },
        Err(_) => if 0 <= lex.left() < s.lex.left() {
            synchronize_of(t)
        } else {
            t
        },
    }
}

/// Reports an error and goes on behind the next newline or comma.
#[verifier::opaque]
pub open spec fn recover_of(s: PState, e: Fail) -> PState {
    step_over_of(synchronize_of(s.reported(e)))
}

/// The items, with one more where it could be read; else its error is
/// reported.
pub open spec fn keep_of(s: PState, items: Seq<Node>, found: Result<Node, Fail>) -> (Seq<Node>, PState) {
    match found {
        Ok(n) => (items.push(n), s),
        Err(e) => (items, s.reported(e)),
    }
}

/// The `>` that closes type arguments. `>=` is split: its `=` stays as a token
/// of its own.
#[verifier::opaque]
pub open spec fn close_angle_of(s: PState) -> (Result<Span, Fail>, PState) {
    if s.sees(Token::GtEq) {
        let whole = s.cur.span;
        let split = Position { line: whole.start.line, col: whole.start.col.wrapping_add(1) };
        (
            Ok(Span { start: whole.start, end: split }),
            PState { cur: Spanned { span: Span { start: split, end: whole.end }, item: Tok::Word(Token::Assign) }, ..s },
        )
    } else {
        let (r, t) = consume_of(s, Tok::Word(Token::Gt));
        match r {
            Ok(found) => (Ok(found.span), t),
            Err(e) => (Err(e), t),
        }
    }
}

/// The name of a field: a name with a colon after it. Without the colon it is
/// the start of a type, and nothing is taken.
#[verifier::opaque]
pub open spec fn field_name_of(s: PState) -> (Result<Option<Seq<char>>, Fail>, PState) {
    match s.cur.item {
        Tok::Name(name) => {
            let (r, t) = advance_of(s);
            match r {
                Err(e) => (Err(e), t),
                Ok(_) => if t.sees(Token::Colon) {
                    let (r, u) = advance_of(t);
                    match r {
                        Err(e) => (Err(e), u),
                        Ok(_) => (Ok(Some(name)), u),
                    }
                } else {
                    (Ok(None), s)
                },
            }
        },
        _ => (Ok(None), s),
    }
}

/// A place in the source that a parser can go back to.
#[derive(Debug)]
pub struct Snapshot {
    place: (usize, u32, u32),
    token: Spanned<Token>,
}

impl Snapshot {
    pub closed spec fn lex(self, text: Seq<char>) -> Lex {
        Lex { text, pos: self.place.0 as int, line: self.place.1, col: self.place.2 }
    }

    pub closed spec fn cur(self) -> Spanned<Tok> {
        tok_view(self.token)
    }
}

impl Parser {
    /// The start of a source. If its first token is no token, that is an
    /// error, and the source is taken to be at its end.
    pub fn new(input: &str) -> (r: Parser)
        ensures
            r@ == start_of(input@),
            r@.ok(),
    {
        let mut lexer = Lexer::new(input);
        proof {
            next_goes_forward(lexer@);
        }
        let mut errors: Vec<Spanned<ParseError>> = Vec::new();
        assert(fail_views(errors@) =~= Seq::<Fail>::empty());
        match lexer.next_token() {
            Ok(t) => Parser { lexer, current_token: t, errors },
            Err(e) => {
                let err = Spanned { span: e.span, item: ParseError::LexError(e.item) };
                errors.push(err);
                assert(fail_views(errors@) =~= seq![fail_view(err)]);
                let current_token = Spanned { span: e.span, item: Token::EOF };
                Parser { lexer, current_token, errors }
            },
        }
    }

    /// Whether the present token is `expected`.
    pub fn check(&self, expected: &Token) -> (r: bool)
        ensures
            r == (self@.cur.item == expected@),
    {
        self.current_token.item.same(expected)
    }

    /// What the present token means.
    pub(crate) fn rule(&self) -> (r: ParseRule)
        ensures
            r == rule_of(self@.cur.item),
    {
        Grammar::get_parse_rule(&self.current_token.item)
    }

    /// Takes the present token and reads the next one. Where that fails, the
    /// present token stays.
    pub fn advance(&mut self) -> (r: Result<Spanned<Token>, Spanned<ParseError>>)
        requires
            old(self)@.ok(),
        ensures
            final(self)@.ok(),
            final(self)@.lex.text == old(self)@.lex.text,
            final(self)@.errs == old(self)@.errs,
            measure(final(self)@) <= measure(old(self)@),
            !old(self)@.at_end() ==> measure(final(self)@) < measure(old(self)@),
            r matches Ok(t) ==> tok_view(t) == old(self)@.cur,
            (match r { Ok(x) => Ok(tok_view(x)), Err(e) => Err(fail_view(e)) }, final(self)@) == advance_of(old(self)@),
    {
        proof {
            reveal(advance_of);
        }
        proof {
            advance_goes_on(self@);
        }
        match self.lexer.next_token() {
            Ok(t) => {
                let mut token = t;
                std::mem::swap(&mut self.current_token, &mut token);
                Ok(token)
            },
            Err(e) => Err(Spanned { span: e.span, item: ParseError::LexError(e.item) }),
        }
    }

    fn step_over(&mut self)
        requires
            old(self)@.ok(),
        ensures
            final(self)@.ok(),
            measure(final(self)@) <= measure(old(self)@),
            !old(self)@.at_end() ==> measure(final(self)@) < measure(old(self)@),
            final(self)@ == step_over_of(old(self)@),
    {
        proof {
            reveal(step_over_of);
        }
        let _ = self.advance();
    }

    pub(crate) fn report(&mut self, e: Spanned<ParseError>)
        requires
            old(self)@.ok(),
        ensures
            final(self)@.ok(),
            measure(final(self)@) == measure(old(self)@),
            final(self)@ == report_of(old(self)@, fail_view(e)),
    {
        let ghost before = self.errors@;
        self.errors.push(e);
        assert(fail_views(self.errors@) =~= fail_views(before).push(fail_view(e)));
    }

    /// That the present token is not `expected`.
    pub(crate) fn expected(&self, expected: Token) -> (r: Spanned<ParseError>)
        ensures
            fail_view(r) == fail_at(PErr::ExpectedButFound(expected@, self@.cur.item), self@.cur.span),
    {
        let found = self.current_token.item.dup();
        Spanned { span: self.current_token.span, item: ParseError::ExpectedButFound(expected, found) }
    }

    /// Takes the present token, which must be `expected`. If it is another,
    /// that is reported, and is the error.
    pub fn consume(&mut self, expected: &Token) -> (r: Result<Spanned<Token>, Spanned<ParseError>>)
        requires
            old(self)@.ok(),
        ensures
            final(self)@.ok(),
            measure(final(self)@) <= measure(old(self)@),
            !old(self)@.at_end() ==> measure(final(self)@) < measure(old(self)@),
            r is Ok && expected@ != Tok::Word(Token::EOF) ==> measure(final(self)@) < measure(old(self)@),
            (match r { Ok(x) => Ok(tok_view(x)), Err(e) => Err(fail_view(e)) }, final(self)@) == consume_of(
                old(self)@,
                expected@,
            ),
    {
        proof {
            reveal(consume_of);
        }
        let found = self.advance()?;
        if found.item.same(expected) {
            Ok(found)
        } else {
            let reported = ParseError::ExpectedButFound(expected.dup(), found.item.dup());
            self.report(Spanned { span: found.span, item: reported });
            Err(Spanned { span: found.span, item: ParseError::ExpectedButFound(expected.dup(), found.item) })
        }
    }

    /// Takes the present token, which must be a name. If it is none, that is
    /// reported, and is the error.
    pub fn identifier(&mut self) -> (r: Result<Spanned<Token>, Spanned<ParseError>>)
        requires
            old(self)@.ok(),
        ensures
            final(self)@.ok(),
            measure(final(self)@) <= measure(old(self)@),
            !old(self)@.at_end() ==> measure(final(self)@) < measure(old(self)@),
            r is Ok ==> measure(final(self)@) < measure(old(self)@),
            (match r { Ok(x) => Ok(tok_view(x)), Err(e) => Err(fail_view(e)) }, final(self)@) == identifier_of(
                old(self)@,
            ),
    {
        proof {
            reveal(identifier_of);
        }
        let found = self.advance()?;
        match &found.item {
            Token::Identifier(_) => Ok(found),
            _ => {
                self.report(Spanned { span: found.span, item: ParseError::ExpectedIdentifier });
                Err(Spanned { span: found.span, item: ParseError::ExpectedIdentifier })
            },
        }
    }

    /// Past newlines.
    pub fn skip_newlines(&mut self)
        requires
            old(self)@.ok(),
        ensures
            final(self)@.ok(),
            final(self)@.lex.text == old(self)@.lex.text,
            final(self)@.errs == old(self)@.errs,
            measure(final(self)@) <= measure(old(self)@),
            !final(self)@.sees(Token::Newline),
            final(self)@ == skip_newlines_of(old(self)@),
    {
        proof {
            reveal(skip_newlines_of);
        }
        while self.check(&Token::Newline)
            invariant
                self@.ok(),
                self@.lex.text == old(self)@.lex.text,
                self@.errs == old(self)@.errs,
                measure(self@) <= measure(old(self)@),
                skip_newlines_of(self@) == skip_newlines_of(old(self)@),
            decreases measure(self@),
        {
            proof {
                reveal(skip_newlines_of);
                reveal(advance_of);
            }
            let _ = self.advance();
        }
    }

    /// Past newlines and semicolons.
    pub fn skip_newlines_and_semicolons(&mut self)
        requires
            old(self)@.ok(),
        ensures
            final(self)@.ok(),
            measure(final(self)@) <= measure(old(self)@),
            final(self)@ == skip_newlines_and_semicolons_of(old(self)@),
    {
        proof {
            reveal(skip_newlines_and_semicolons_of);
        }
        while self.check(&Token::Newline) || self.check(&Token::Semicolon)
            invariant
                self@.ok(),
                measure(self@) <= measure(old(self)@),
                skip_newlines_and_semicolons_of(self@) == skip_newlines_and_semicolons_of(old(self)@),
            decreases measure(self@),
        {
            proof {
                reveal(skip_newlines_and_semicolons_of);
                reveal(advance_of);
            }
            let _ = self.advance();
        }
    }

    /// Where the parser is.
    pub fn snapshot(&self) -> (r: Snapshot)
        ensures
            r.lex(self@.lex.text) == self@.lex,
            r.cur() == self@.cur,
    {
        let token = Spanned { span: self.current_token.span, item: self.current_token.item.dup() };
        Snapshot { place: self.lexer.place(), token }
    }

    /// Goes back to where the parser was. Errors that were reported since
    /// stay.
    pub fn restore(&mut self, snapshot: Snapshot)
        ensures
            final(self)@ == (PState {
                lex: snapshot.lex(old(self)@.lex.text),
                cur: snapshot.cur(),
                errs: old(self)@.errs,
            }),
    {
        self.lexer.go_back(snapshot.place);
        self.current_token = snapshot.token;
    }

    /// Whether `expected` comes next, perhaps after newlines. Only if it does
    /// are the newlines taken.
    pub fn peek_past_newlines_is(&mut self, expected: &Token) -> (r: bool)
        requires
            old(self)@.ok(),
        ensures
            final(self)@.ok(),
            measure(final(self)@) <= measure(old(self)@),
            r ==> final(self)@.cur.item == expected@,
            (r, final(self)@) == peek_past_newlines_is_of(old(self)@, expected@),
    {
        proof {
            reveal(peek_past_newlines_is_of);
        }
        if !self.check(&Token::Newline) {
            return self.check(expected);
        }
        let saved = self.snapshot();
        self.skip_newlines();
        if self.check(expected) {
            true
        } else {
            self.restore(saved);
            false
        }
    }

    /// Reads names, a comma before each, up to a `)` with `->` behind it.
    fn names_follow(&mut self) -> (r: bool)
        requires
            old(self)@.ok(),
        ensures
            final(self)@.ok(),
            final(self)@.lex.text == old(self)@.lex.text,
            final(self)@.errs == old(self)@.errs,
            r == names_ahead_of(old(self)@),
        decreases measure(old(self)@),
    {
        proof {
            reveal(names_ahead_of);
        }
        if !self.check(&Token::Comma) || self.advance().is_err() {
            return false;
        }
        self.skip_newlines();
        match &self.current_token.item {
            Token::Identifier(_) => {},
            _ => {
                return false;
            },
        }
        if self.advance().is_err() {
            return false;
        }
        self.skip_newlines();
        if self.check(&Token::RightParen) {
            self.advance().is_ok() && self.check(&Token::Arrow)
        } else {
            self.names_follow()
        }
    }

    /// Whether names follow, a comma before each, up to a `)` with `->` behind
    /// it. Nothing is read.
    pub fn names_ahead(&mut self) -> (r: bool)
        requires
            old(self)@.ok(),
        ensures
            final(self)@ == old(self)@,
            r == names_ahead_of(old(self)@),
    {
        let saved = self.snapshot();
        let found = self.names_follow();
        self.restore(saved);
        found
    }

    fn synchronize(&mut self)
        requires
            old(self)@.ok(),
        ensures
            final(self)@.ok(),
            measure(final(self)@) <= measure(old(self)@),
            final(self)@ == synchronize_of(old(self)@),
    {
        loop
            invariant
                self@.ok(),
                self@.cur == old(self)@.cur,
                self@.lex.left() <= old(self)@.lex.left(),
                synchronize_of(self@) == synchronize_of(old(self)@),
            decreases self@.lex.left(),
        {
            proof {
                reveal(synchronize_of);
                next_goes_forward(self@.lex);
            }
            match self.lexer.next_token() {
                Ok(t) => {
                    if t.item.same(&Token::EOF) || t.item.same(&Token::Newline) || t.item.same(&Token::Comma) {
                        self.current_token = t;
                        return;
                    }
                },
                Err(e) => {
                    let err = Spanned { span: e.span, item: ParseError::LexError(e.item) };
                    let ghost es = self.errors@;
                    self.errors.push(err);
                    assert(fail_views(self.errors@) =~= fail_views(es).push(fail_view(err)));
                },
            }
        }
    }

    fn recover(&mut self, e: Spanned<ParseError>)
        requires
            old(self)@.ok(),
        ensures
            final(self)@.ok(),
            measure(final(self)@) <= measure(old(self)@),
            final(self)@ == recover_of(old(self)@, fail_view(e)),
    {
        proof {
            reveal(recover_of);
        }
        self.report(e);
        self.synchronize();
        self.step_over();
    }

    fn keep(
        &mut self,
        items: Vec<Spanned<Expression>>,
        found: Result<Spanned<Expression>, Spanned<ParseError>>,
    ) -> (r:
        Vec<Spanned<Expression>>)
        requires
            old(self)@.ok(),
        ensures
            final(self)@.ok(),
            measure(final(self)@) == measure(old(self)@),
            (nodes(r@), final(self)@) == keep_of(old(self)@, nodes(items@), node_result(found)),
    {
        match found {
            Ok(e) => with_node(items, e),
            Err(e) => {
                self.report(e);
                items
            },
        }
    }

    pub(crate) fn close_angle(&mut self) -> (r: Result<Span, Spanned<ParseError>>)
        requires
            old(self)@.ok(),
        ensures
            final(self)@.ok(),
            measure(final(self)@) <= measure(old(self)@),
            (match r { Ok(x) => Ok(x), Err(e) => Err(fail_view(e)) }, final(self)@) == close_angle_of(old(self)@),
    {
        proof {
            reveal(close_angle_of);
        }
        if self.check(&Token::GtEq) {
            let whole = self.current_token.span;
            let split = Position { line: whole.start.line, col: whole.start.col.wrapping_add(1) };
            self.current_token = Spanned { span: Span { start: split, end: whole.end }, item: Token::Assign };
            Ok(Span { start: whole.start, end: split })
        } else {
            let found = self.consume(&Token::Gt)?;
            Ok(found.span)
        }
    }

    pub(crate) fn field_name(&mut self) -> (r: Result<Option<String>, Spanned<ParseError>>)
        requires
            old(self)@.ok(),
        ensures
            final(self)@.ok(),
            measure(final(self)@) <= measure(old(self)@),
            r matches Ok(Some(_)) ==> measure(final(self)@) < measure(old(self)@),
            r matches Ok(None) ==> final(self)@ == old(self)@,
            (match r { Ok(x) => Ok(crate::expression::opt_text(x)), Err(e) => Err(fail_view(e)) }, final(self)@)
                == field_name_of(old(self)@),
    {
        proof {
            reveal(field_name_of);
        }
        let saved = self.snapshot();
        let name = match &self.current_token.item {
            Token::Identifier(s) => Some(owned(s.as_str())),
            _ => None,
        };
        match name {
            Some(s) => {
                let _name = self.advance()?;
                if self.check(&Token::Colon) {
                    let _colon = self.advance()?;
                    Ok(Some(s))
                } else {
                    self.restore(saved);
                    Ok(None)
                }
            },
            None => Ok(None),
        }
    }

    /// The whole of a source, or all errors in it.
    pub fn parse(input: &str) -> (r: Result<Spanned<Expression>, Vec<Spanned<ParseError>>>)
        ensures
            match parsed(input@) {
                Ok(n) => r is Ok && node(r->Ok_0) == n,
                Err(es) => r is Err && fail_views(r->Err_0@) == es,
            },
    {
        reveal(parsed);
        let mut p = Parser::new(input);
        let block = p.block();
        match block {
            Ok(b) => {
                if p.errors.len() == 0 {
                    assert(fail_views(p.errors@).len() == 0);
                    Ok(b)
                } else {
                    assert(fail_views(p.errors@).len() > 0);
                    Err(p.errors)
                }
            },
            Err(_) => Err(p.errors),
        }
    }
}

/// The state at the start of a source.
pub open spec fn start_of(text: Seq<char>) -> PState {
    let (r, lex) = next(Lex { text, pos: 0, line: 0, col: 0 });
    match r {
        Ok((item, span)) => PState { lex, cur: Spanned { span, item }, errs: Seq::empty() },
        Err((e, span)) => PState {
            lex,
            cur: Spanned { span, item: Tok::Word(Token::EOF) },
            errs: seq![fail_at(PErr::LexError(e), span)],
        },
    }
}

/// What a source parses to: its statements as a block, or all errors in it.
#[verifier::opaque]
pub open spec fn parsed(text: Seq<char>) -> Result<Node, Seq<Fail>> {
    let (r, s) = block_of(start_of(text));
    if s.errs.len() == 0 {
        match r {
            Ok(n) => Ok(n),
            Err(_) => Err(s.errs),
        }
    } else {
        Err(s.errs)
    }
}

// ── Rules ────────────────────────────────────────────────────────────────

/// An expression, up to the first operator that binds less tightly than `precedence`.
pub open spec fn expression_of(s: PState, precedence: Precedence) -> (Result<Node, Fail>, PState)
    decreases measure(s), 0int,
{
    let start = s;
    let (r, t) = advance_of(s);
    let s = after(s, t);
    match r {
        Err(e) => (Err(e), s),
        Ok(token) => {
            match rule_of(token.item).prefix {
                None => {
                    (Err(fail_at(PErr::ExpectedExpression, token.span)), s)
                },
                Some(rule) => {
                    if measure(s) < measure(start) {
                        let (r, t) = apply_prefix_of(s, rule, token);
                        let s = after(s, t);
                        match r {
                            Err(e) => (Err(e), s),
                            Ok(left) => {
                                let (r, t) = infixes_of(s, precedence, left);
                                (r, after(s, t))
                            },
                        }
                    } else {
                        (Err(stuck(s)), s)
                    }
                },
            }
        },
    }
}

/// What follows an expression: operators that bind at least as tightly as `precedence`.
pub open spec fn infixes_of(s: PState, precedence: Precedence, left: Node) -> (Result<Node, Fail>, PState)
    decreases measure(s), 0int,
{
    let start = s;
    let rule = rule_of(s.cur.item);
    if rank_of(precedence) > rank_of(rule.precedence) {
        (Ok(left), s)
    } else {
        let (r, t) = advance_of(s);
        let s = after(s, t);
        match r {
            Err(e) => (Err(e), s),
            Ok(token) => {
                if token.item == Tok::Word(Token::EOF) {
                    (Err(fail_at(PErr::ExpectedOperator, token.span)), s)
                } else {
                    if measure(s) < measure(start) {
                        let (r, t) = apply_infix_of(s, rule.infix, token, left, rule.precedence);
                        let s = after(s, t);
                        match r {
                            Err(e) => (Err(e), s),
                            Ok(more) => {
                                if measure(s) < measure(start) {
                                    infixes_of(s, precedence, more)
                                } else {
                                    (Err(stuck(s)), s)
                                }
                            },
                        }
                    } else {
                        (Err(stuck(s)), s)
                    }
                }
            },
        }
    }
}

/// The items of a list, up to its end. A faulty item is reported and left out.
pub open spec fn list_items_of(s: PState, separator: Tok, terminator: Tok, items: Seq<Node>) -> (Seq<Node>, PState)
    decreases measure(s), 1int,
{
    let start = s;
    if s.cur.item == terminator || s.sees(Token::EOF) {
        (items, s)
    } else {
        let (found, t) = expression_of(s, Precedence::Assign);
        let s = after(s, t);
        let (kept, t) = keep_of(s, items, found);
        let s = after(s, t);
        let s = after(s, skip_newlines_of(s));
        if s.cur.item == terminator {
            (kept, s)
        } else if s.cur.item != separator {
            let wanted = fail_at(PErr::ExpectedButFound(separator, s.cur.item), s.cur.span);
            let s = after(s, report_of(s, wanted));
            (kept, s)
        } else {
            let s = after(s, step_over_of(s));
            let s = after(s, skip_newlines_of(s));
            if measure(s) < measure(start) {
                list_items_of(s, separator, terminator, kept)
            } else {
                (items, s)
            }
        }
    }
}

/// Expressions with separators between them, up to a token that ends the list.
/// Newlines around them do not count.
pub open spec fn expression_list_of(s: PState, separator: Tok, terminator: Tok) -> (Seq<Node>, PState)
    decreases measure(s), 2int,
{
    let s = after(s, skip_newlines_of(s));
    let none = Seq::<Node>::empty();
    if s.cur.item == terminator {
        (none, s)
    } else {
        let (items, t) = list_items_of(s, separator, terminator, none);
        let s = after(s, t);
        (items, s)
    }
}

/// The end of a statement: a newline or a semicolon.
#[verifier::opaque]
pub open spec fn end_statement_of(s: PState) -> (Result<(), Fail>, PState)
    decreases measure(s), 0int,
{
    if s.sees(Token::Semicolon) {
        let (r, t) = advance_of(s);
        let s = after(s, t);
        match r {
            Err(e) => (Err(e), s),
            Ok(_semi) => {
                (Ok(()), s)
            },
        }
    } else {
        let (r, t) = consume_of(s, Tok::Word(Token::Newline));
        let s = after(s, t);
        match r {
            Err(e) => (Err(e), s),
            Ok(_newline) => {
                (Ok(()), s)
            },
        }
    }
}

/// A statement and what ends it; at the end of the source nothing needs to.
#[verifier::opaque]
pub open spec fn statement_of(s: PState) -> (Result<Node, Fail>, PState)
    decreases measure(s), 1int,
{
    let (r, t) = expression_of(s, Precedence::Assign);
    let s = after(s, t);
    match r {
        Err(e) => (Err(e), s),
        Ok(expr) => {
            if s.sees(Token::EOF) {
                (Ok(expr), s)
            } else {
                let (r, t) = end_statement_of(s);
                let s = after(s, t);
                match r {
                    Err(e) => (Err(e), s),
                    Ok(_end) => {
                        (Ok(expr), s)
                    },
                }
            }
        },
    }
}

/// All statements. After a faulty one, reading goes on behind the next newline or comma.
#[verifier::opaque]
pub open spec fn statements_of(s: PState, stmts: Seq<Node>) -> (Seq<Node>, PState)
    decreases measure(s), 2int,
{
    let start = s;
    if s.sees(Token::EOF) {
        (stmts, s)
    } else {
        let s = after(s, skip_newlines_and_semicolons_of(s));
        if s.sees(Token::EOF) {
            (stmts, s)
        } else {
            let (found, t) = statement_of(s);
            let s = after(s, t);
            match found {
                Ok(expr) => {
                    if measure(s) < measure(start) {
                        statements_of(s, stmts.push(expr))
                    } else {
                        (stmts, s)
                    }
                },
                Err(e) => {
                    let s = after(s, recover_of(s, e));
                    if measure(s) < measure(start) {
                        statements_of(s, stmts)
                    } else {
                        (stmts, s)
                    }
                },
            }
        }
    }
}

/// All statements of a source, as a block.
#[verifier::opaque]
pub open spec fn block_of(s: PState) -> (Result<Node, Fail>, PState)
    decreases measure(s), 3int,
{
    let start_span = s.cur.span;
    let none = Seq::<Node>::empty();
    let (stmts, t) = statements_of(s, none);
    let s = after(s, t);
    let end_span = s.cur.span;
    let span = merged(start_span, end_span);
    (Ok(Spanned { span: span, item: Ast::Block(stmts) }), s)
}

impl Parser {
    /// An expression, up to the first operator that binds less tightly than `precedence`.
    pub fn expression(&mut self, precedence: Precedence) -> (r: Result<Spanned<Expression>, Spanned<ParseError>>)
        requires
            old(self)@.ok(),
        ensures
            final(self)@.ok(),
            measure(final(self)@) <= measure(old(self)@),
            !old(self)@.at_end() ==> measure(final(self)@) < measure(old(self)@),
            (match r { Ok(x) => Ok(node(x)), Err(e) => Err(fail_view(e)) }, final(self)@) == expression_of(old(self)@, precedence),
        decreases measure(old(self)@), 0int,
    {
        let token = self.advance()?;
        match Grammar::get_parse_rule(&token.item).prefix {
            None => {
                Err(prefix_error(token))
            },
            Some(rule) => {
                assert(measure(self@) < measure(old(self)@));
                let left = Grammar::apply_prefix(self, rule, token)?;
                self.infixes(precedence, left)
            },
        }
    }

    /// What follows an expression: operators that bind at least as tightly as `precedence`.
    fn infixes(
        &mut self,
        precedence: Precedence,
        given: Spanned<Expression>,
    ) -> (r: Result<Spanned<Expression>, Spanned<ParseError>>)
        requires
            old(self)@.ok(),
        ensures
            final(self)@.ok(),
            measure(final(self)@) <= measure(old(self)@),
            (match r { Ok(x) => Ok(node(x)), Err(e) => Err(fail_view(e)) }, final(self)@) == infixes_of(old(self)@, precedence, node(given)),
        decreases measure(old(self)@), 0int,
    {
        let mut left = given;
        loop
            invariant
                self@.ok(),
                measure(self@) <= measure(old(self)@),
                infixes_of(self@, precedence, node(left)) == infixes_of(old(self)@, precedence, node(given)),
            decreases measure(self@),
        {
            let ghost start = self@;
            let rule = self.rule();
            if precedence.rank() > rule.precedence.rank() {
                return Ok(left);
            } else {
                let token = self.advance()?;
                if token.item.same(&Token::EOF) {
                    return Err(infix_error(token));
                } else {
                    assert(measure(self@) < measure(start));
                    let more = Grammar::apply_infix(self, rule.infix, token, left, rule.precedence)?;
                    left = more;
                }
            }
        }
    }

    /// The items of a list, up to its end. A faulty item is reported and left out.
    pub(crate) fn list_items(
        &mut self,
        separator: &Token,
        terminator: &Token,
        given: Vec<Spanned<Expression>>,
    ) -> (r: Vec<Spanned<Expression>>)
        requires
            old(self)@.ok(),
        ensures
            final(self)@.ok(),
            measure(final(self)@) <= measure(old(self)@),
            (nodes(r@), final(self)@) == list_items_of(old(self)@, separator@, terminator@, nodes(given@)),
        decreases measure(old(self)@), 1int,
    {
        let mut items = given;
        loop
            invariant
                self@.ok(),
                measure(self@) <= measure(old(self)@),
                list_items_of(self@, separator@, terminator@, nodes(items@)) == list_items_of(old(self)@, separator@, terminator@, nodes(given@)),
            decreases measure(self@),
        {
            let ghost start = self@;
            if self.check(terminator) || self.check(&Token::EOF) {
                return items;
            } else {
                let found = self.expression(Precedence::Assign);
                let kept = self.keep(items, found);
                self.skip_newlines();
                if self.check(terminator) {
                    return kept;
                } else if !self.check(separator) {
                    let wanted = self.expected(separator.dup());
                    self.report(wanted);
                    return kept;
                } else {
                    self.step_over();
                    self.skip_newlines();
                    items = kept;
                }
            }
        }
    }

    /// Expressions with separators between them, up to a token that ends
    /// the list. Newlines around them do not count.
    pub fn expression_list(&mut self, separator: &Token, terminator: &Token) -> (r: Vec<Spanned<Expression>>)
        requires
            old(self)@.ok(),
        ensures
            final(self)@.ok(),
            measure(final(self)@) <= measure(old(self)@),
            (nodes(r@), final(self)@) == expression_list_of(old(self)@, separator@, terminator@),
        decreases measure(old(self)@), 2int,
    {
        self.skip_newlines();
        let none = Vec::new();
        assert(nodes(none@) =~= Seq::<Node>::empty());
        if self.check(terminator) {
            none
        } else {
            let items = self.list_items(separator, terminator, none);
            items
        }
    }

    /// The end of a statement: a newline or a semicolon.
    fn end_statement(&mut self) -> (r: Result<(), Spanned<ParseError>>)
        requires
            old(self)@.ok(),
        ensures
            final(self)@.ok(),
            measure(final(self)@) <= measure(old(self)@),
            (match r { Ok(x) => Ok(()), Err(e) => Err(fail_view(e)) }, final(self)@) == end_statement_of(old(self)@),
        decreases measure(old(self)@), 0int,
    {
        proof {
            reveal(end_statement_of);
        }
        if self.check(&Token::Semicolon) {
            let _semi = self.advance()?;
            Ok(())
        } else {
            let _newline = self.consume(&Token::Newline)?;
            Ok(())
        }
    }

    /// A statement and what ends it; at the end of the source nothing needs to.
    pub fn statement(&mut self) -> (r: Result<Spanned<Expression>, Spanned<ParseError>>)
        requires
            old(self)@.ok(),
        ensures
            final(self)@.ok(),
            measure(final(self)@) <= measure(old(self)@),
            !old(self)@.at_end() ==> measure(final(self)@) < measure(old(self)@),
            (match r { Ok(x) => Ok(node(x)), Err(e) => Err(fail_view(e)) }, final(self)@) == statement_of(old(self)@),
        decreases measure(old(self)@), 1int,
    {
        proof {
            reveal(statement_of);
        }
        let expr = self.expression(Precedence::Assign)?;
        if self.check(&Token::EOF) {
            Ok(expr)
        } else {
            let _end = self.end_statement()?;
            Ok(expr)
        }
    }

    /// All statements. After a faulty one, reading goes on behind the next newline or comma.
    fn statements(&mut self, given: Vec<Spanned<Expression>>) -> (r: Vec<Spanned<Expression>>)
        requires
            old(self)@.ok(),
        ensures
            final(self)@.ok(),
            measure(final(self)@) <= measure(old(self)@),
            (nodes(r@), final(self)@) == statements_of(old(self)@, nodes(given@)),
        decreases measure(old(self)@), 2int,
    {
        proof {
            reveal(statements_of);
        }
        let mut stmts = given;
        loop
            invariant
                self@.ok(),
                measure(self@) <= measure(old(self)@),
                statements_of(self@, nodes(stmts@)) == statements_of(old(self)@, nodes(given@)),
            decreases measure(self@),
        {
            proof {
                reveal(statements_of);
            }
            let ghost start = self@;
            if self.check(&Token::EOF) {
                return stmts;
            } else {
                self.skip_newlines_and_semicolons();
                if self.check(&Token::EOF) {
                    return stmts;
                } else {
                    let found = self.statement();
                    match found {
                        Ok(expr) => {
                            stmts = with_node(stmts, expr);
                        },
                        Err(e) => {
                            self.recover(e);
                        },
                    }
                }
            }
        }
    }

    /// All statements of a source, as a block.
    pub fn block(&mut self) -> (r: Result<Spanned<Expression>, Spanned<ParseError>>)
        requires
            old(self)@.ok(),
        ensures
            final(self)@.ok(),
            measure(final(self)@) <= measure(old(self)@),
            (match r { Ok(x) => Ok(node(x)), Err(e) => Err(fail_view(e)) }, final(self)@) == block_of(old(self)@),
        decreases measure(old(self)@), 3int,
    {
        proof {
            reveal(block_of);
        }
        let start_span = self.current_token.span;
        let none = Vec::new();
        assert(nodes(none@) =~= Seq::<Node>::empty());
        let stmts = self.statements(none);
        let end_span = self.current_token.span;
        let span = start_span.merge(end_span);
        Ok(Spanned { span: span, item: Expression::Block(stmts) })
    }
}

} // verus!
