//! What the forms with keywords and brackets are read as, where their parts are
//! chains of operands and operators.
use crate::expression::{Ast, Node};
use crate::grammar::{
    apply_infix_of, apply_prefix_of, assign_of, call_of, conditional_of, for_expr_of, grouping_of, literal_of,
    opt_else_of, opt_guard_of, rule_of, tuple_of,
};
use crate::parser::{
    advance_of, consume_of, end_statement_of, expression_list_of, expression_of, identifier_of, infixes_of,
    list_items_of, measure, peek_past_newlines_is_of, skip_newlines_and_semicolons_of, skip_newlines_of, statement_of,
    statements_of, step_over_of, Fail, PState, Precedence,
};
use crate::precedence::{a_chain_is_bracketed_by_tightness, bracketed, chain, end_of, spelled, stops, tokens_of};
use crate::tokens::{Spanned, Tok, Token};
use vstd::prelude::*;

verus! {

/// Whether the present token is `t`, and another can be read after it.
pub open spec fn marked(s: PState, t: Tok) -> bool {
    s.ok() && s.cur.item == t && advance_of(s).0 is Ok && measure(advance_of(s).1) < measure(s)
}

/// Whether the present token is the word, and another can be read after it.
pub open spec fn at_word(s: PState, w: Token) -> bool {
    marked(s, Tok::Word(w))
}

/// Behind the present token.
pub open spec fn past(s: PState) -> PState {
    advance_of(s).1
}

/// Whether `e` is the tree of the chain that comes next.
pub open spec fn tree_of(s: PState, e: Node) -> bool {
    bracketed(e.item) && spelled(e.item) == tokens_of(s)
}

proof fn a_mark_is_taken(s: PState, t: Tok)
    requires
        marked(s, t),
    ensures
        advance_of(s).0 == Ok::<Spanned<Tok>, Fail>(s.cur),
        consume_of(s, t) == (Ok::<Spanned<Tok>, Fail>(s.cur), past(s)),
        t is Name ==> identifier_of(s) == (Ok::<Spanned<Tok>, Fail>(s.cur), past(s)),
{
    reveal(advance_of);
    reveal(consume_of);
    reveal(identifier_of);
}

proof fn a_chain_comes_next(s: PState)
    requires
        chain(s),
    ensures
        skip_newlines_of(s) == s,
{
    reveal(skip_newlines_of);
}

proof fn a_chain_is_read(s: PState) -> (e: Node)
    requires
        chain(s),
    ensures
        expression_of(s, Precedence::Assign) == (Ok::<Node, Fail>(e), end_of(s)),
        tree_of(s, e),
        stops(end_of(s).cur.item),
        measure(end_of(s)) < measure(s),
{
    a_chain_is_bracketed_by_tightness(s);
    expression_of(s, Precedence::Assign).0->Ok_0
}

proof fn nothing_goes_on(s: PState, left: Node)
    requires
        stops(s.cur.item),
    ensures
        infixes_of(s, Precedence::Assign, left) == (Ok::<Node, Fail>(left), s),
{
}

// ── Conditionals ─────────────────────────────────────────────────────────

/// `if`, a chain, `then`, a chain, and perhaps `else` and a chain are read as the
/// conditional of these: the first is its condition, the second is what it comes
/// to where that holds, and the third what it comes to where it does not.
pub proof fn a_conditional_is_read(s: PState)
    requires
        at_word(s, Token::If),
        chain(past(s)),
        at_word(end_of(past(s)), Token::Then),
        chain(past(end_of(past(s)))),
    ensures
        ({
            let cond = past(s);
            let yes = past(end_of(cond));
            let no = past(end_of(yes));
            let (r, t) = expression_of(s, Precedence::Assign);
            &&& at_word(end_of(yes), Token::Else) && chain(no) ==> (r matches Ok(e) && (e.item matches Ast::Conditional(x)
                && tree_of(cond, *x.cond) && tree_of(yes, *x.true_branch) && (x.false_branch matches Some(other)
                && tree_of(no, *other)))) && t == end_of(no)
            &&& !end_of(yes).sees(Token::Else) && !end_of(yes).sees(Token::Newline) ==> (r matches Ok(e)
                && (e.item matches Ast::Conditional(x) && tree_of(cond, *x.cond) && tree_of(yes, *x.true_branch)
                && x.false_branch is None)) && t == end_of(yes)
        }),
{
    let cond = past(s);
    let s2 = end_of(cond);
    let yes = past(s2);
    let s4 = end_of(yes);
    let no = past(s4);
    a_mark_is_taken(s, Tok::Word(Token::If));
    let c = a_chain_is_read(cond);
    a_mark_is_taken(s2, Tok::Word(Token::Then));
    a_chain_comes_next(yes);
    let a = a_chain_is_read(yes);
    reveal(peek_past_newlines_is_of);
    if at_word(s4, Token::Else) && chain(no) {
        a_mark_is_taken(s4, Tok::Word(Token::Else));
        a_chain_comes_next(no);
        let b = a_chain_is_read(no);
        assert(opt_else_of(s4, true) == (Ok::<Option<Node>, Fail>(Some(b)), end_of(no)));
        let (r, t) = conditional_of(cond, s.cur);
        assert(t == end_of(no));
        assert(apply_prefix_of(cond, rule_of(s.cur.item).prefix->0, s.cur) == (r, t));
        nothing_goes_on(t, r->Ok_0);
    } else if !s4.sees(Token::Else) && !s4.sees(Token::Newline) {
        assert(opt_else_of(s4, false) == (Ok::<Option<Node>, Fail>(None), s4));
        let (r, t) = conditional_of(cond, s.cur);
        assert(t == s4);
        assert(apply_prefix_of(cond, rule_of(s.cur.item).prefix->0, s.cur) == (r, t));
        nothing_goes_on(t, r->Ok_0);
    }
}

// ── Brackets ─────────────────────────────────────────────────────────────

/// A chain in parentheses is read as the chain.
pub proof fn parentheses_are_read(s: PState)
    requires
        at_word(s, Token::LeftParen),
        chain(past(s)),
        at_word(end_of(past(s)), Token::RightParen),
    ensures
        ({
            let (r, t) = apply_prefix_of(past(s), rule_of(s.cur.item).prefix->0, s.cur);
            &&& rule_of(s.cur.item).prefix is Some
            &&& r matches Ok(e) && tree_of(past(s), e)
            &&& t == past(end_of(past(s)))
        }),
{
    let inner = past(s);
    let end = end_of(inner);
    a_chain_comes_next(inner);
    let e = a_chain_is_read(inner);
    a_mark_is_taken(end, Tok::Word(Token::RightParen));
    assert(skip_newlines_of(end) == end) by {
        reveal(skip_newlines_of);
    }
    assert(grouping_of(inner, s.cur) == (Ok::<Node, Fail>(e), past(end)));
}

// ── Loops ────────────────────────────────────────────────────────────────

/// `for`, a name, `in`, a chain, perhaps `if` and a chain, `do` and a chain are
/// read as the loop of these: what it runs over, its guard, and its body.
pub proof fn a_loop_is_read(s: PState, name: Seq<char>)
    requires
        at_word(s, Token::For),
        marked(past(s), Tok::Name(name)),
        at_word(past(past(s)), Token::In),
        chain(past(past(past(s)))),
    ensures
        ({
            let over = past(past(past(s)));
            let guard = past(end_of(over));
            let (r, t) = expression_of(s, Precedence::Assign);
            &&& at_word(end_of(over), Token::Do) && chain(guard) ==> (r matches Ok(e) && (e.item matches Ast::ForLoop(x)
                && x.var == name && tree_of(over, *x.iterable) && x.cond is None && tree_of(guard, *x.body))) && t
                == end_of(guard)
            &&& at_word(end_of(over), Token::If) && chain(guard) && at_word(end_of(guard), Token::Do) && chain(
                past(end_of(guard)),
            ) ==> (r matches Ok(e) && (e.item matches Ast::ForLoop(x) && x.var == name && tree_of(over, *x.iterable) && (
            x.cond matches Some(g) && tree_of(guard, *g)) && tree_of(past(end_of(guard)), *x.body))) && t == end_of(
                past(end_of(guard)),
            )
        }),
{
    let s1 = past(s);
    let s2 = past(s1);
    let over = past(s2);
    let s4 = end_of(over);
    let guard = past(s4);
    a_mark_is_taken(s, Tok::Word(Token::For));
    a_mark_is_taken(s1, Tok::Name(name));
    a_mark_is_taken(s2, Tok::Word(Token::In));
    a_chain_comes_next(over);
    let l = a_chain_is_read(over);
    reveal(peek_past_newlines_is_of);
    if at_word(s4, Token::Do) && chain(guard) {
        a_mark_is_taken(s4, Tok::Word(Token::Do));
        a_chain_comes_next(guard);
        let b = a_chain_is_read(guard);
        assert(opt_guard_of(s4) == (Ok::<Option<Node>, Fail>(None), s4));
        let (r, t) = for_expr_of(s1, s.cur);
        assert(t == end_of(guard));
        assert(apply_prefix_of(s1, rule_of(s.cur.item).prefix->0, s.cur) == (r, t));
        nothing_goes_on(t, r->Ok_0);
    } else if at_word(s4, Token::If) && chain(guard) && at_word(end_of(guard), Token::Do) && chain(past(end_of(guard))) {
        let s6 = end_of(guard);
        let body = past(s6);
        a_mark_is_taken(s4, Tok::Word(Token::If));
        let g = a_chain_is_read(guard);
        a_mark_is_taken(s6, Tok::Word(Token::Do));
        a_chain_comes_next(body);
        let b = a_chain_is_read(body);
        assert(opt_guard_of(s4) == (Ok::<Option<Node>, Fail>(Some(g)), s6));
        let (r, t) = for_expr_of(s1, s.cur);
        assert(t == end_of(body));
        assert(apply_prefix_of(s1, rule_of(s.cur.item).prefix->0, s.cur) == (r, t));
        nothing_goes_on(t, r->Ok_0);
    }
}

// ── Assignments ──────────────────────────────────────────────────────────

/// A name, `=` and a chain are read as an assignment of the chain to the name.
pub proof fn an_assignment_is_read(s: PState, name: Seq<char>)
    requires
        marked(s, Tok::Name(name)),
        at_word(past(s), Token::Assign),
        chain(past(past(s))),
    ensures
        ({
            let value = past(past(s));
            let (r, t) = expression_of(s, Precedence::Assign);
            &&& r matches Ok(e) && (e.item matches Ast::Assign(x) && spelled(x.target.item) == seq![Tok::Name(name)]
                && tree_of(value, *x.value) && x.typ is None && x.decl is None)
            &&& t == end_of(value)
        }),
{
    let s1 = past(s);
    let value = past(s1);
    a_mark_is_taken(s, Tok::Name(name));
    a_mark_is_taken(s1, Tok::Word(Token::Assign));
    a_chain_comes_next(value);
    let v = a_chain_is_read(value);
    reveal(literal_of);
    let (left, u) = apply_prefix_of(s1, rule_of(s.cur.item).prefix->0, s.cur);
    assert(u == s1);
    let rule = rule_of(s1.cur.item);
    let (r, t) = assign_of(value, left->Ok_0, rule.precedence);
    assert(t == end_of(value));
    assert(apply_infix_of(value, rule.infix, s1.cur, left->Ok_0, rule.precedence) == (r, t));
    nothing_goes_on(t, r->Ok_0);
    assert(infixes_of(s1, Precedence::Assign, left->Ok_0) == (r, t));
}

// ── Lists ────────────────────────────────────────────────────────────────

/// Whether chains come next with commas between them, up to `close`.
pub open spec fn listed(s: PState, close: Token) -> bool
    decreases measure(s),
{
    let e = end_of(s);
    &&& chain(s)
    &&& at_word(e, close) || (at_word(e, Token::Comma) && measure(past(e)) < measure(s) && listed(past(e), close))
}

/// Where the list is closed.
pub open spec fn closing(s: PState, close: Token) -> PState
    decreases measure(s),
{
    let e = end_of(s);
    if at_word(e, Token::Comma) && measure(past(e)) < measure(s) {
        closing(past(e), close)
    } else {
        e
    }
}

/// Whether `es` are the trees of these chains, one for each, in order.
pub open spec fn trees_of(s: PState, close: Token, es: Seq<Node>) -> bool
    decreases measure(s),
{
    let e = end_of(s);
    &&& es.len() > 0
    &&& tree_of(s, es[0])
    &&& if at_word(e, Token::Comma) && measure(past(e)) < measure(s) {
        trees_of(past(e), close, es.skip(1))
    } else {
        es.len() == 1
    }
}

proof fn items_are_read(s: PState, close: Token, items: Seq<Node>) -> (es: Seq<Node>)
    requires
        listed(s, close),
        close is RightParen || close is RightBracket,
    ensures
        list_items_of(s, Tok::Word(Token::Comma), Tok::Word(close), items) == (items + es, closing(s, close)),
        trees_of(s, close, es),
        at_word(closing(s, close), close),
        measure(closing(s, close)) < measure(s),
    decreases measure(s),
{
    let e = end_of(s);
    let x = a_chain_is_read(s);
    assert(skip_newlines_of(e) == e) by {
        reveal(skip_newlines_of);
    }
    let kept = items.push(x);
    if at_word(e, Token::Comma) {
        let t = past(e);
        assert(!at_word(e, close));
        assert(listed(t, close));
        a_chain_comes_next(t);
        assert(step_over_of(e) == t) by {
            reveal(step_over_of);
        }
        let more = items_are_read(t, close, kept);
        let es = seq![x] + more;
        assert(es.skip(1) =~= more);
        assert(kept + more =~= items + es);
        es
    } else {
        let es = seq![x];
        assert(items + es =~= kept);
        es
    }
}

/// A call is read with all its arguments, in order.
pub proof fn a_call_is_read(s: PState, left: Node, p: Precedence)
    requires
        at_word(s, Token::LeftParen),
        listed(past(s), Token::RightParen),
    ensures
        ({
            let rule = rule_of(s.cur.item);
            let (r, t) = apply_infix_of(past(s), rule.infix, s.cur, left, p);
            &&& r matches Ok(e) && (e.item matches Ast::Call(x) && *x.callable == left && trees_of(
                past(s),
                Token::RightParen,
                x.args,
            ))
            &&& t == past(closing(past(s), Token::RightParen))
        }),
{
    let inner = past(s);
    let end = closing(inner, Token::RightParen);
    a_chain_comes_next(inner);
    let none = Seq::<Node>::empty();
    let es = items_are_read(inner, Token::RightParen, none);
    assert(none + es =~= es);
    a_mark_is_taken(end, Tok::Word(Token::RightParen));
    assert(expression_list_of(inner, Tok::Word(Token::Comma), Tok::Word(Token::RightParen)) == (es, end));
    assert(call_of(inner, left).1 == past(end));
}

/// A list in brackets is read with all its items, in order.
pub proof fn a_list_is_read(s: PState)
    requires
        at_word(s, Token::LeftBracket),
        listed(past(s), Token::RightBracket),
    ensures
        ({
            let (r, t) = apply_prefix_of(past(s), rule_of(s.cur.item).prefix->0, s.cur);
            &&& r matches Ok(e) && (e.item matches Ast::Tuple(xs) && trees_of(past(s), Token::RightBracket, xs))
            &&& t == past(closing(past(s), Token::RightBracket))
        }),
{
    let inner = past(s);
    let end = closing(inner, Token::RightBracket);
    a_chain_comes_next(inner);
    let none = Seq::<Node>::empty();
    let es = items_are_read(inner, Token::RightBracket, none);
    assert(none + es =~= es);
    a_mark_is_taken(end, Tok::Word(Token::RightBracket));
    assert(expression_list_of(inner, Tok::Word(Token::Comma), Tok::Word(Token::RightBracket)) == (es, end));
    assert(tuple_of(inner, s.cur).1 == past(end));
}

// ── Lines ────────────────────────────────────────────────────────────────

/// Whether chains come next, each on a line of its own, up to the end of the
/// source.
pub open spec fn lines(s: PState) -> bool
    decreases measure(s),
{
    let e = end_of(s);
    &&& chain(s)
    &&& e.sees(Token::EOF) || (at_word(e, Token::Newline) && measure(past(e)) < measure(s) && (past(e).sees(Token::EOF)
        || lines(past(e))))
}

/// Whether `es` are the trees of these chains, one for each, in order.
pub open spec fn line_trees(s: PState, es: Seq<Node>) -> bool
    decreases measure(s),
{
    let e = end_of(s);
    &&& es.len() > 0
    &&& tree_of(s, es[0])
    &&& if !e.sees(Token::EOF) && !past(e).sees(Token::EOF) && measure(past(e)) < measure(s) {
        line_trees(past(e), es.skip(1))
    } else {
        es.len() == 1
    }
}

proof fn a_statement_is_read(s: PState) -> (x: Node)
    requires
        chain(s),
        end_of(s).sees(Token::EOF) || at_word(end_of(s), Token::Newline),
    ensures
        tree_of(s, x),
        statement_of(s) == (
            Ok::<Node, Fail>(x),
            if end_of(s).sees(Token::EOF) {
                end_of(s)
            } else {
                past(end_of(s))
            },
        ),
        measure(end_of(s)) < measure(s),
{
    reveal(statement_of);
    let e = end_of(s);
    let x = a_chain_is_read(s);
    if !e.sees(Token::EOF) {
        a_mark_is_taken(e, Tok::Word(Token::Newline));
        assert(end_statement_of(e) == (Ok::<(), Fail>(()), past(e))) by {
            reveal(end_statement_of);
        }
    }
    x
}

proof fn statements_go_on(s: PState, before: Seq<Node>, x: Node, t: PState)
    requires
        chain(s),
        statement_of(s) == (Ok::<Node, Fail>(x), t),
        measure(t) < measure(s),
    ensures
        statements_of(s, before) == statements_of(t, before.push(x)),
{
    assert(skip_newlines_and_semicolons_of(s) == s) by {
        reveal(skip_newlines_and_semicolons_of);
    }
    assert(!s.sees(Token::EOF));
    reveal(statements_of);
}

proof fn the_source_ends(s: PState, stmts: Seq<Node>)
    requires
        s.sees(Token::EOF),
    ensures
        statements_of(s, stmts) == (stmts, s),
{
    reveal(statements_of);
}

/// The statements on the lines of a source are read one after the other, each
/// to the end of its line.
pub proof fn lines_are_read(s: PState, before: Seq<Node>) -> (es: Seq<Node>)
    requires
        lines(s),
    ensures
        statements_of(s, before).0 == before + es,
        line_trees(s, es),
    decreases measure(s),
{
    let e = end_of(s);
    let x = a_statement_is_read(s);
    let kept = before.push(x);
    let t = if e.sees(Token::EOF) {
        e
    } else {
        past(e)
    };
    statements_go_on(s, before, x, t);
    if t.sees(Token::EOF) {
        the_source_ends(t, kept);
        let es = seq![x];
        assert(before + es =~= kept);
        es
    } else {
        let more = lines_are_read(t, kept);
        let es = seq![x] + more;
        assert(es.skip(1) =~= more);
        assert(kept + more =~= before + es);
        es
    }
}

} // verus!
