//! How operators bind: which tighter than which, and what tree a chain of them
//! is.
use crate::expression::{Ast, BinaryExprView, Node};
use crate::grammar::{apply_infix_of, apply_prefix_of, binary_of, literal_of, rule_of, unary_of};
use crate::parser::{
    advance_of, expression_of, infixes_of, measure, next_is_tighter, next_of, rank_of, Fail, PState, Precedence,
};
use crate::tokens::{merged, Spanned, Tok, Token};
use vstd::prelude::*;

verus! {

/// How tightly an operator with two operands binds; zero of any other token.
/// First come products, next sums, then comparisons, equality, `and`, and last
/// `or`.
pub open spec fn level(w: Token) -> int {
    match w {
        Token::Star | Token::Slash => 6,
        Token::Plus | Token::Minus => 5,
        Token::Lt | Token::Gt | Token::LtEq | Token::GtEq | Token::In => 4,
        Token::EqEq | Token::NotEq => 3,
        Token::And => 2,
        Token::Or => 1,
        _ => 0,
    }
}

/// How tightly a token binds as an operator with two operands.
pub open spec fn tightness(t: Tok) -> int {
    match t {
        Tok::Word(w) => level(w),
        _ => 0,
    }
}

/// Whether the token is an operator with two operands.
pub open spec fn operator(t: Tok) -> bool {
    tightness(t) > 0
}

/// How tightly the parser takes the token to bind.
pub open spec fn rank(t: Tok) -> int {
    rank_of(rule_of(t).precedence) as int
}

/// Of two operators the parser lets the one bind tighter that is to, and lets
/// them bind alike where they are to.
pub proof fn operators_bind_by_level(a: Tok, b: Tok)
    requires
        operator(a),
        operator(b),
    ensures
        rule_of(a).infix is Binary,
        rank(a) < rank(b) <==> tightness(a) < tightness(b),
        rank(a) == rank(b) <==> tightness(a) == tightness(b),
{
}

/// What is written behind an operand, a field, a call, an index, `?` or `!`,
/// binds tighter than a sign or `not`, which bind tighter than every operator
/// with two operands. A range, `catch`, a type and an assignment or `->` bind
/// less and less tightly than all of those.
pub proof fn other_marks_bind_around_operators(a: Tok, post: Token)
    requires
        operator(a),
        post is Dot || post is LeftParen || post is LeftBracket || post is Question || post is Exclamation,
    ensures
        rank(a) < rank_of(Precedence::Unary) < rank(Tok::Word(post)),
        rank(Tok::Word(Token::DotDot)) < rank(a),
        rank(Tok::Word(Token::Catch)) < rank(Tok::Word(Token::DotDot)),
        rank(Tok::Word(Token::Assign)) < rank(Tok::Word(Token::Catch)),
        rank(Tok::Word(Token::Arrow)) == rank(Tok::Word(Token::Assign)),
        rank(Tok::Word(Token::Colon)) == rank(Tok::Word(Token::Assign)),
        rule_of(Tok::Word(Token::DotDot)).infix is Range,
        rule_of(Tok::Word(Token::Catch)).infix is CatchExpr,
        rule_of(Tok::Word(Token::Assign)).infix is Assign,
        rule_of(Tok::Word(Token::Arrow)).infix is ArrowFunc,
        rule_of(Tok::Word(Token::Colon)).infix is TypeAnnotation,
        rule_of(Tok::Word(Token::Dot)).infix is FieldAccess,
        rule_of(Tok::Word(Token::LeftParen)).infix is Call,
        rule_of(Tok::Word(Token::LeftBracket)).infix is Index,
        rule_of(Tok::Word(Token::Question)).infix is PostfixTry,
        rule_of(Tok::Word(Token::Exclamation)).infix is PostfixUnwrap,
{
}

// ── Chains ───────────────────────────────────────────────────────────────

/// Whether the token is an operand by itself.
pub open spec fn atom(t: Tok) -> bool {
    t is Int || t is Float || t is Text || t is Name
}

/// Whether no expression goes on with the token.
pub open spec fn stops(t: Tok) -> bool {
    t matches Tok::Word(w) && (w is EOF || w is Newline || w is Semicolon || w is Comma || w is RightParen
        || w is RightBracket || w is RightBrace || w is If || w is Then || w is Else || w is Do)
}

/// Whether the token is a sign or `not`.
pub open spec fn sign(t: Tok) -> bool {
    t matches Tok::Word(w) && (w is Minus || w is Not)
}

/// Whether operands, each perhaps with signs before it, come next, with an
/// operator between any two of them, up to a token that no expression goes on
/// with.
pub open spec fn chain(s: PState) -> bool
    decreases measure(s),
{
    let (r, t) = advance_of(s);
    s.ok() && r is Ok && measure(t) < measure(s) && ((atom(s.cur.item) && rest(t)) || (sign(s.cur.item) && chain(t)))
}

/// The same behind an operand.
pub open spec fn rest(s: PState) -> bool
    decreases measure(s),
{
    let (r, t) = advance_of(s);
    s.ok() && (stops(s.cur.item) || (operator(s.cur.item) && r is Ok && measure(t) < measure(s) && chain(t)))
}

/// The tokens of a chain.
pub open spec fn tokens_of(s: PState) -> Seq<Tok>
    decreases measure(s),
{
    let t = advance_of(s).1;
    if measure(t) < measure(s) {
        seq![s.cur.item] + if sign(s.cur.item) {
            tokens_of(t)
        } else {
            tokens_of_rest(t)
        }
    } else {
        seq![s.cur.item]
    }
}

/// The tokens of a chain behind an operand.
pub open spec fn tokens_of_rest(s: PState) -> Seq<Tok>
    decreases measure(s),
{
    let t = advance_of(s).1;
    if operator(s.cur.item) && measure(t) < measure(s) {
        seq![s.cur.item] + tokens_of(t)
    } else {
        Seq::empty()
    }
}

/// Where a chain ends: at the token that no expression goes on with.
pub open spec fn end_of(s: PState) -> PState
    decreases measure(s),
{
    let t = advance_of(s).1;
    if measure(t) < measure(s) {
        if sign(s.cur.item) {
            end_of(t)
        } else {
            end_of_rest(t)
        }
    } else {
        s
    }
}

pub open spec fn end_of_rest(s: PState) -> PState
    decreases measure(s),
{
    let t = advance_of(s).1;
    if operator(s.cur.item) && measure(t) < measure(s) {
        end_of(t)
    } else {
        s
    }
}

/// The tokens of a tree, from left to right.
pub open spec fn spelled(a: Ast) -> Seq<Tok>
    decreases a,
{
    match a {
        Ast::Literal(x) => seq![x.token],
        Ast::Unary(x) => seq![x.op] + spelled(x.expr.item),
        Ast::Binary(x) => spelled(x.left.item) + seq![x.op] + spelled(x.right.item),
        _ => Seq::empty(),
    }
}

/// How tightly the operator at the top binds; more than any does where there is
/// none.
pub open spec fn top(a: Ast) -> int {
    match a {
        Ast::Binary(x) => tightness(x.op),
        _ => 7,
    }
}

/// Whether the tree is made of operands, signs and operators, each operator has
/// only such below it on its left that bind at least as tightly as it does, and
/// on its right only such that bind more tightly, and a sign has no operator
/// below it.
pub open spec fn bracketed(a: Ast) -> bool
    decreases a,
{
    match a {
        Ast::Literal(x) => atom(x.token),
        Ast::Unary(x) => sign(x.op) && bracketed(x.expr.item) && top(x.expr.item) > 6,
        Ast::Binary(x) => {
            &&& operator(x.op)
            &&& bracketed(x.left.item)
            &&& bracketed(x.right.item)
            &&& tightness(x.op) <= top(x.left.item)
            &&& tightness(x.op) < top(x.right.item)
        },
        _ => false,
    }
}

/// The precedence that the operators of a level have, and those above.
spec fn at_level(p: Precedence, n: int) -> bool {
    forall|t: Tok| #[trigger] operator(t) ==> (rank(t) >= rank_of(p) <==> tightness(t) >= n)
}

proof fn chain_up_to(s: PState, p: Precedence, n: int)
    requires
        chain(s),
        rank_of(p) > 0,
        at_level(p, n),
        n <= 7,
    ensures
        ({
            let (r, t) = expression_of(s, p);
            &&& r matches Ok(e) && bracketed(e.item) && top(e.item) >= n && tokens_of(s) == spelled(e.item)
                + tokens_of_rest(t)
            &&& rest(t)
            &&& end_of(s) == end_of_rest(t)
            &&& measure(t) < measure(s)
            &&& operator(t.cur.item) ==> tightness(t.cur.item) < n
        }),
    decreases measure(s), 1int,
{
    let (r, t) = advance_of(s);
    let token = s.cur;
    assert(r == Ok::<_, Fail>(token)) by {
        reveal(advance_of);
    }
    if sign(token.item) {
        assert(at_level(Precedence::Unary, 7));
        chain_up_to(t, Precedence::Unary, 7);
        let (inner, u) = expression_of(t, Precedence::Unary);
        assert(unary_of(t, token).1 == u);
        assert(apply_prefix_of(t, rule_of(token.item).prefix->0, token) == unary_of(t, token));
        let left = unary_of(t, token).0->Ok_0;
        assert(spelled(left.item) == seq![token.item] + spelled(inner->Ok_0.item));
        chain_rest_up_to(u, p, n, left);
        assert(tokens_of(s) =~= spelled(left.item) + tokens_of_rest(u));
    } else {
        reveal(literal_of);
        let (lit, u) = apply_prefix_of(t, rule_of(token.item).prefix->0, token);
        assert(u == t);
        chain_rest_up_to(t, p, n, lit->Ok_0);
    }
    assert(tokens_of(s) =~= spelled(expression_of(s, p).0->Ok_0.item) + tokens_of_rest(expression_of(s, p).1));
}

/// An operator with its operands, read.
proof fn an_operator_is_read(s: PState, p: Precedence, left: Node, right: Node, u: PState)
    requires
        operator(s.cur.item),
        rank_of(p) <= rank(s.cur.item),
        advance_of(s).0 == Ok::<_, Fail>(s.cur),
        measure(advance_of(s).1) < measure(s),
        expression_of(advance_of(s).1, next_of(rule_of(s.cur.item).precedence)) == (Ok::<Node, Fail>(right), u),
        measure(u) <= measure(advance_of(s).1),
    ensures
        infixes_of(s, p, left) == ({
            let item = Ast::Binary(
                BinaryExprView { op: s.cur.item, left: Box::new(left), right: Box::new(right) },
            );
            let (r, t) = infixes_of(u, p, Spanned { span: merged(left.span, right.span), item });
            (r, t)
        }),
{
    let rule = rule_of(s.cur.item);
    let t = advance_of(s).1;
    let more = binary_of(t, s.cur, left, rule.precedence);
    assert(more.1 == u);
    assert(apply_infix_of(t, rule.infix, s.cur, left, rule.precedence) == more);
}

proof fn chain_rest_up_to(s: PState, p: Precedence, n: int, left: Node)
    requires
        rest(s),
        rank_of(p) > 0,
        at_level(p, n),
        n <= 7,
        bracketed(left.item),
        top(left.item) >= n,
        operator(s.cur.item) ==> tightness(s.cur.item) <= top(left.item),
    ensures
        ({
            let (r, t) = infixes_of(s, p, left);
            &&& r matches Ok(e) && bracketed(e.item) && top(e.item) >= n && spelled(left.item) + tokens_of_rest(s)
                == spelled(e.item) + tokens_of_rest(t)
            &&& rest(t)
            &&& end_of_rest(s) == end_of_rest(t)
            &&& measure(t) <= measure(s)
            &&& operator(t.cur.item) ==> tightness(t.cur.item) < n
        }),
    decreases measure(s), 0int,
{
    let rule = rule_of(s.cur.item);
    if rank_of(p) <= rank(s.cur.item) {
        assert(operator(s.cur.item));
        let (r, t) = advance_of(s);
        let token = s.cur;
        assert(r == Ok::<_, Fail>(token)) by {
            reveal(advance_of);
        }
        let q = next_of(rule.precedence);
        let m = tightness(token.item) + 1;
        next_is_tighter(rule.precedence);
        assert(at_level(q, m)) by {
            assert forall|x: Tok| #[trigger] operator(x) implies (rank(x) >= rank_of(q) <==> tightness(x) >= m) by {
                operators_bind_by_level(token.item, x);
            }
        }
        chain_up_to(t, q, m);
        let (right, u) = expression_of(t, q);
        let r = right->Ok_0;
        an_operator_is_read(s, p, left, r, u);
        let item = Ast::Binary(BinaryExprView { op: token.item, left: Box::new(left), right: Box::new(r) });
        let more = Spanned { span: merged(left.span, r.span), item };
        assert(spelled(more.item) == spelled(left.item) + seq![token.item] + spelled(r.item));
        chain_rest_up_to(u, p, n, more);
        assert(spelled(left.item) + tokens_of_rest(s) =~= spelled(more.item) + tokens_of_rest(u));
    } else {
        assert(infixes_of(s, p, left) == (Ok::<Node, Fail>(left), s));
    }
}

/// A chain of operands, signs and operators, without brackets, is read to its
/// end, and as the tree that how tightly they bind makes of it: to the left of an
/// operator stands what binds at least as tightly, to its right only what binds
/// more tightly, and a sign belongs to its operand alone.
pub proof fn a_chain_is_bracketed_by_tightness(s: PState)
    requires
        chain(s),
    ensures
        ({
            let (r, t) = expression_of(s, Precedence::Assign);
            &&& r matches Ok(e) && bracketed(e.item) && spelled(e.item) == tokens_of(s)
            &&& t == end_of(s)
            &&& stops(t.cur.item)
            &&& t.ok()
            &&& measure(t) < measure(s)
        }),
{
    assert(at_level(Precedence::Assign, 0));
    chain_up_to(s, Precedence::Assign, 0);
    let (r, t) = expression_of(s, Precedence::Assign);
    assert(tokens_of(s) =~= spelled(r->Ok_0.item));
}

} // verus!
