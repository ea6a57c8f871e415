//! The rules of the grammar.
use crate::display::shown_expression;
use crate::expression::{
    field_access_expr_view, field_decl_view, field_decl_views, field_decl_views_index, identifier_of as name_of_ast,
    index_expr_view, match_arm_view, match_arm_views, match_expr_view, node, nodes, nodes_index, nodes_push, opt_node,
    opt_text, parameter_view, parameter_views, pattern_view, variant_decl_views, AnnotatedExprView, AssignExprView,
    Ast, BinaryExprView, CallExprView, ConditionalExprView, DataDeclExpr, DataDeclExprView, ExprRef, Expression,
    FieldAccessExprView, FieldDecl, FieldDeclView, ForLoopExprView, FunctionExprView, ImportExpr, ImportExprView,
    ImportKind, ImportKindView, IndexExprView, IsPatternExprView, LiteralExprView, MatchArm, MatchArmView, MatchExpr,
    MatchExprView, Mutability, Node, Parameter, ParameterView, Pattern, PatternView, RangeExprView, SliceExprView,
    UnaryExprView, VariantDecl, VariantDeclView,
};
use crate::parser::{
    Fail, PErr, PState, ParseError, Parser, Precedence, advance_of, after, close_angle_of, consume_of,
    expression_list_of, expression_of, fail_at, fail_view, field_name_of, identifier_of, list_items_of, measure,
    names_ahead_of, next_of, peek_past_newlines_is_of, skip_newlines_and_semicolons_of, skip_newlines_of, stuck, tok_view,
};
use crate::text::{owned, same_text, texts};
use crate::tokens::{merged, shown, Position, Span, Spanned, Tok, Token};
use crate::type_expr::{
    opt_type_node, type_node, type_nodes, type_nodes_index, type_nodes_push, TypeAst, TypeExpr, TypeNode,
};
use vstd::prelude::*;
use vstd::string::StringExecFns;

verus! {

// ── The table of rules ───────────────────────────────────────────────────

/// What a token starts.
#[derive(Debug, Clone, Copy, PartialEq, Eq, Structural)]
pub enum PrefixRule {
    Literal,
    Unary,
    LetBinding,
    MutPrefix,
    Conditional,
    FuncDecl,
    ReturnExpr,
    ForExpr,
    DataDecl,
    ErrorDecl,
    MatchExpr,
    ImportDecl,
    Grouping,
    Tuple,
    BlockExpr,
}

/// What a token makes of the expression before it.
#[derive(Debug, Clone, Copy, PartialEq, Eq, Structural)]
pub enum InfixRule {
    /// Nothing.
    Missing,
    Binary,
    Assign,
    Range,
    IsPattern,
    FieldAccess,
    ArrowFunc,
    TypeAnnotation,
    Call,
    Index,
    PostfixUnwrap,
    PostfixTry,
    CatchExpr,
}

/// What a token means at the start of an expression and after one, and how
/// tightly it binds there.
#[derive(Debug, Clone, Copy, PartialEq, Eq, Structural)]
pub struct ParseRule {
    pub prefix: Option<PrefixRule>,
    pub infix: InfixRule,
    pub precedence: Precedence,
}

pub open spec fn starts(prefix: PrefixRule) -> ParseRule {
    ParseRule { prefix: Some(prefix), infix: InfixRule::Missing, precedence: Precedence::Lowest }
}

pub open spec fn continues(infix: InfixRule, precedence: Precedence) -> ParseRule {
    ParseRule { prefix: None, infix, precedence }
}

pub open spec fn both(prefix: PrefixRule, infix: InfixRule, precedence: Precedence) -> ParseRule {
    ParseRule { prefix: Some(prefix), infix, precedence }
}

/// What a token means.
pub open spec fn rule_of(t: Tok) -> ParseRule {
    match t {
        Tok::Word(w) => word_rule(w),
        _ => starts(PrefixRule::Literal),
    }
}

/// What a keyword, an operator or a bracket means.
pub open spec fn word_rule(w: Token) -> ParseRule {
    match w {
        Token::True | Token::False | Token::NoneLit | Token::Inf | Token::Nan => starts(PrefixRule::Literal),
        Token::Plus => continues(InfixRule::Binary, Precedence::Term),
        Token::Minus => both(PrefixRule::Unary, InfixRule::Binary, Precedence::Term),
        Token::Not => starts(PrefixRule::Unary),
        Token::Star | Token::Slash => continues(InfixRule::Binary, Precedence::Factor),
        Token::Let => starts(PrefixRule::LetBinding),
        Token::Mut => starts(PrefixRule::MutPrefix),
        Token::Assign => continues(InfixRule::Assign, Precedence::Assign),
        Token::EqEq | Token::NotEq => continues(InfixRule::Binary, Precedence::Equality),
        Token::Lt | Token::Gt | Token::LtEq | Token::GtEq | Token::In => continues(InfixRule::Binary, Precedence::Comparison),
        Token::DotDot => continues(InfixRule::Range, Precedence::Range),
        Token::Or => continues(InfixRule::Binary, Precedence::Or),
        Token::And => continues(InfixRule::Binary, Precedence::And),
        Token::If => starts(PrefixRule::Conditional),
        Token::Func => starts(PrefixRule::FuncDecl),
        Token::Return => starts(PrefixRule::ReturnExpr),
        Token::For => starts(PrefixRule::ForExpr),
        Token::Data => starts(PrefixRule::DataDecl),
        Token::Error => starts(PrefixRule::ErrorDecl),
        Token::Is => continues(InfixRule::IsPattern, Precedence::Comparison),
        Token::Match => starts(PrefixRule::MatchExpr),
        Token::Import => starts(PrefixRule::ImportDecl),
        Token::Dot => continues(InfixRule::FieldAccess, Precedence::Call),
        Token::Arrow => continues(InfixRule::ArrowFunc, Precedence::Assign),
        Token::Colon => continues(InfixRule::TypeAnnotation, Precedence::Assign),
        Token::LeftParen => both(PrefixRule::Grouping, InfixRule::Call, Precedence::Call),
        Token::LeftBracket => both(PrefixRule::Tuple, InfixRule::Index, Precedence::Call),
        Token::LeftBrace => starts(PrefixRule::BlockExpr),
        Token::Exclamation => continues(InfixRule::PostfixUnwrap, Precedence::Call),
        Token::Question => continues(InfixRule::PostfixTry, Precedence::Call),
        Token::Catch => continues(InfixRule::CatchExpr, Precedence::Catch),
        _ => continues(InfixRule::Missing, Precedence::Lowest),
    }
}

/// The rules of the grammar.
pub struct Grammar {}

impl Grammar {
    /// What a token means.
    pub fn get_parse_rule(token: &Token) -> (r: ParseRule)
        ensures
            r == rule_of(token@),
    {
        let none = ParseRule { prefix: None, infix: InfixRule::Missing, precedence: Precedence::Lowest };
        match token {
            Token::Float(_) | Token::Int(_) | Token::String(_) | Token::Identifier(_) | Token::True | Token::False | Token::NoneLit | Token::Inf | Token::Nan => ParseRule { prefix: Some(PrefixRule::Literal), infix: InfixRule::Missing, precedence: Precedence::Lowest },
            Token::Plus => ParseRule { prefix: None, infix: InfixRule::Binary, precedence: Precedence::Term },
            Token::Minus => ParseRule { prefix: Some(PrefixRule::Unary), infix: InfixRule::Binary, precedence: Precedence::Term },
            Token::Not => ParseRule { prefix: Some(PrefixRule::Unary), infix: InfixRule::Missing, precedence: Precedence::Lowest },
            Token::Star | Token::Slash => ParseRule { prefix: None, infix: InfixRule::Binary, precedence: Precedence::Factor },
            Token::Let => ParseRule { prefix: Some(PrefixRule::LetBinding), infix: InfixRule::Missing, precedence: Precedence::Lowest },
            Token::Mut => ParseRule { prefix: Some(PrefixRule::MutPrefix), infix: InfixRule::Missing, precedence: Precedence::Lowest },
            Token::Assign => ParseRule { prefix: None, infix: InfixRule::Assign, precedence: Precedence::Assign },
            Token::EqEq | Token::NotEq => ParseRule { prefix: None, infix: InfixRule::Binary, precedence: Precedence::Equality },
            Token::Lt | Token::Gt | Token::LtEq | Token::GtEq | Token::In => ParseRule { prefix: None, infix: InfixRule::Binary, precedence: Precedence::Comparison },
            Token::DotDot => ParseRule { prefix: None, infix: InfixRule::Range, precedence: Precedence::Range },
            Token::Or => ParseRule { prefix: None, infix: InfixRule::Binary, precedence: Precedence::Or },
            Token::And => ParseRule { prefix: None, infix: InfixRule::Binary, precedence: Precedence::And },
            Token::If => ParseRule { prefix: Some(PrefixRule::Conditional), infix: InfixRule::Missing, precedence: Precedence::Lowest },
            Token::Func => ParseRule { prefix: Some(PrefixRule::FuncDecl), infix: InfixRule::Missing, precedence: Precedence::Lowest },
            Token::Return => ParseRule { prefix: Some(PrefixRule::ReturnExpr), infix: InfixRule::Missing, precedence: Precedence::Lowest },
            Token::For => ParseRule { prefix: Some(PrefixRule::ForExpr), infix: InfixRule::Missing, precedence: Precedence::Lowest },
            Token::Data => ParseRule { prefix: Some(PrefixRule::DataDecl), infix: InfixRule::Missing, precedence: Precedence::Lowest },
            Token::Error => ParseRule { prefix: Some(PrefixRule::ErrorDecl), infix: InfixRule::Missing, precedence: Precedence::Lowest },
            Token::Is => ParseRule { prefix: None, infix: InfixRule::IsPattern, precedence: Precedence::Comparison },
            Token::Match => ParseRule { prefix: Some(PrefixRule::MatchExpr), infix: InfixRule::Missing, precedence: Precedence::Lowest },
            Token::Import => ParseRule { prefix: Some(PrefixRule::ImportDecl), infix: InfixRule::Missing, precedence: Precedence::Lowest },
            Token::Dot => ParseRule { prefix: None, infix: InfixRule::FieldAccess, precedence: Precedence::Call },
            Token::Arrow => ParseRule { prefix: None, infix: InfixRule::ArrowFunc, precedence: Precedence::Assign },
            Token::Colon => ParseRule { prefix: None, infix: InfixRule::TypeAnnotation, precedence: Precedence::Assign },
            Token::LeftParen => ParseRule { prefix: Some(PrefixRule::Grouping), infix: InfixRule::Call, precedence: Precedence::Call },
            Token::LeftBracket => ParseRule { prefix: Some(PrefixRule::Tuple), infix: InfixRule::Index, precedence: Precedence::Call },
            Token::LeftBrace => ParseRule { prefix: Some(PrefixRule::BlockExpr), infix: InfixRule::Missing, precedence: Precedence::Lowest },
            Token::Exclamation => ParseRule { prefix: None, infix: InfixRule::PostfixUnwrap, precedence: Precedence::Call },
            Token::Question => ParseRule { prefix: None, infix: InfixRule::PostfixTry, precedence: Precedence::Call },
            Token::Catch => ParseRule { prefix: None, infix: InfixRule::CatchExpr, precedence: Precedence::Catch },
            _ => none,
        }
    }

    /// That a token starts no expression.
    pub fn prefix_error(
        _parser: &mut Parser,
        token: Spanned<Token>,
    ) -> (r: Result<Spanned<Expression>, Spanned<ParseError>>)
        ensures
            r is Err,
            fail_view(r->Err_0) == fail_at(PErr::ExpectedExpression, token.span),
            final(_parser)@ == old(_parser)@,
    {
        Err(prefix_error(token))
    }

    /// That a token continues no expression.
    pub fn infix_error(
        _parser: &mut Parser,
        token: Spanned<Token>,
    ) -> (r: Result<Spanned<Expression>, Spanned<ParseError>>)
        ensures
            r is Err,
            fail_view(r->Err_0) == fail_at(PErr::ExpectedOperator, token.span),
            final(_parser)@ == old(_parser)@,
    {
        Err(infix_error(token))
    }
}

/// No rule starts or continues with the end of the source.
pub proof fn end_has_no_rule()
    ensures
        rule_of(Tok::Word(Token::EOF)).prefix is None,
        rule_of(Tok::Word(Token::EOF)).precedence == Precedence::Lowest,
{
}

pub(crate) fn prefix_error(token: Spanned<Token>) -> (r: Spanned<ParseError>)
    ensures
        fail_view(r) == fail_at(PErr::ExpectedExpression, token.span),
{
    Spanned { span: token.span, item: ParseError::ExpectedExpression }
}

pub(crate) fn infix_error(token: Spanned<Token>) -> (r: Spanned<ParseError>)
    ensures
        fail_view(r) == fail_at(PErr::ExpectedOperator, token.span),
{
    Spanned { span: token.span, item: ParseError::ExpectedOperator }
}

// ── Parts of trees ───────────────────────────────────────────────────────

pub open spec fn some_node(e: Option<Spanned<Expression>>) -> Option<Node> {
    match e {
        Some(x) => Some(node(x)),
        None => None,
    }
}

pub open spec fn in_box(n: Option<Node>) -> Option<Box<Node>> {
    match n {
        Some(x) => Some(Box::new(x)),
        None => None,
    }
}

/// The name in a token.
pub open spec fn name_in(t: Tok) -> Seq<char> {
    match t {
        Tok::Name(name) => name,
        _ => Seq::empty(),
    }
}

fn token_name(t: &Token) -> (r: String)
    ensures
        r@ == name_in(t@),
{
    match t {
        Token::Identifier(name) => owned(name.as_str()),
        _ => {
            let r = String::new();
            assert(r@ =~= Seq::<char>::empty());
            r
        },
    }
}

/// The text of a string literal.
pub open spec fn text_in(t: Tok) -> Option<Seq<char>> {
    match t {
        Tok::Text(text) => Some(text),
        _ => None,
    }
}

fn string_in(t: &Token) -> (r: Option<String>)
    ensures
        opt_text(r) == text_in(t@),
{
    match t {
        Token::String(text) => Some(owned(text.as_str())),
        _ => None,
    }
}

pub(crate) fn with_node(items: Vec<Spanned<Expression>>, e: Spanned<Expression>) -> (r: Vec<Spanned<Expression>>)
    ensures
        nodes(r@) == nodes(items@).push(node(e)),
{
    let mut out = items;
    proof {
        nodes_push(items@, e);
    }
    out.push(e);
    out
}

fn one_node(e: Spanned<Expression>) -> (r: Vec<Spanned<Expression>>)
    ensures
        nodes(r@) == seq![node(e)],
{
    let out: Vec<Spanned<Expression>> = Vec::new();
    let r = with_node(out, e);
    assert(nodes(r@) =~= seq![node(e)]);
    r
}

fn only_node(items: Vec<Spanned<Expression>>) -> (r: Spanned<Expression>)
    requires
        items.len() == 1,
    ensures
        node(r) == nodes(items@)[0],
{
    let mut items = items;
    proof {
        nodes_index(items@);
    }
    items.swap_remove(0)
}

fn with_type(items: Vec<Spanned<TypeExpr>>, t: Spanned<TypeExpr>) -> (r: Vec<Spanned<TypeExpr>>)
    ensures
        type_nodes(r@) == type_nodes(items@).push(type_node(t)),
{
    let mut out = items;
    proof {
        type_nodes_push(items@, t);
    }
    out.push(t);
    out
}

fn one_type(t: Spanned<TypeExpr>) -> (r: Vec<Spanned<TypeExpr>>)
    ensures
        type_nodes(r@) == seq![type_node(t)],
{
    let out: Vec<Spanned<TypeExpr>> = Vec::new();
    let r = with_type(out, t);
    assert(type_nodes(r@) =~= seq![type_node(t)]);
    r
}

/// From the start of the first type to the end of the last.
pub open spec fn ends(ts: Seq<TypeNode>) -> Span {
    if ts.len() > 0 {
        merged(ts[0].span, ts.last().span)
    } else {
        Span { start: Position { line: 0, col: 0 }, end: Position { line: 0, col: 0 } }
    }
}

fn whole_span(ts: &Vec<Spanned<TypeExpr>>) -> (r: Span)
    ensures
        r == ends(type_nodes(ts@)),
{
    proof {
        type_nodes_index(ts@);
    }
    if ts.len() > 0 {
        ts[0].span.merge(ts[ts.len() - 1].span)
    } else {
        Span::new((0, 0), (0, 0))
    }
}

fn respan(items: Vec<Spanned<TypeExpr>>, span: Span) -> (r: Spanned<TypeExpr>)
    requires
        items.len() == 1,
    ensures
        type_node(r) == (Spanned { span, item: type_nodes(items@)[0].item }),
{
    let mut items = items;
    proof {
        type_nodes_index(items@);
    }
    let t = items.swap_remove(0);
    Spanned { span, item: t.item }
}

fn dot_part(name: (String, Span), part: &Spanned<Token>) -> (r: (String, Span))
    ensures
        (r.0@, r.1) == (name.0@.push('.') + name_in(part.item@), merged(name.1, part.span)),
{
    let mut text = name.0;
    let more = token_name(&part.item);
    text.push('.');
    text.append(more.as_str());
    (text, name.1.merge(part.span))
}

fn with_name(names: Vec<String>, name: String) -> (r: Vec<String>)
    ensures
        texts(r@) == texts(names@).push(name@),
{
    let mut out = names;
    out.push(name);
    assert(texts(out@) =~= texts(names@).push(name@));
    out
}

fn with_parameter(params: Vec<Parameter>, name: String, ty: Option<Spanned<TypeExpr>>, mutable: bool) -> (r: Vec<
    Parameter,
>)
    ensures
        parameter_views(r@) == parameter_views(params@).push(
            ParameterView { name: name@, ty: opt_type_node(ty), mutable },
        ),
{
    let mut out = params;
    let p = Parameter { name, ty, mutable };
    out.push(p);
    assert(out@.drop_last() =~= params@);
    out
}

fn with_field(fields: Vec<FieldDecl>, name: Option<String>, ty: Spanned<TypeExpr>) -> (r: Vec<FieldDecl>)
    ensures
        field_decl_views(r@) == field_decl_views(fields@).push(
            FieldDeclView { name: opt_text(name), ty: type_node(ty) },
        ),
{
    let mut out = fields;
    out.push(FieldDecl { name, ty });
    assert(out@.drop_last() =~= fields@);
    out
}

fn with_variant(variants: Vec<VariantDecl>, name: String, fields: Vec<FieldDecl>) -> (r: Vec<VariantDecl>)
    ensures
        variant_decl_views(r@) == variant_decl_views(variants@).push(
            VariantDeclView { name: name@, fields: field_decl_views(fields@) },
        ),
{
    let mut out = variants;
    out.push(VariantDecl { name, fields });
    assert(out@.drop_last() =~= variants@);
    out
}

fn with_arm(arms: Vec<MatchArm>, arm: MatchArm) -> (r: Vec<MatchArm>)
    ensures
        match_arm_views(r@) == match_arm_views(arms@).push(match_arm_view(arm)),
{
    let mut out = arms;
    out.push(arm);
    assert(out@.drop_last() =~= arms@);
    out
}

fn new_arm(pattern: Pattern, guard: Option<Spanned<Expression>>, body: Spanned<Expression>) -> (r: MatchArm)
    ensures
        match_arm_view(r) == (MatchArmView {
            pattern: pattern_view(pattern),
            guard: in_box(some_node(guard)),
            body: Box::new(node(body)),
        }),
{
    let guard = match guard {
        Some(g) => Some(Box::new(g)),
        None => None,
    };
    MatchArm { pattern, guard, body: Box::new(body) }
}

fn new_match(subject: Spanned<Expression>, arms: Vec<MatchArm>, default: Option<ExprRef>) -> (r: Expression)
    ensures
        r@ == Ast::Match(
            MatchExprView {
                subject: Box::new(node(subject)),
                arms: match_arm_views(arms@),
                default: opt_node(default),
            },
        ),
{
    let m = MatchExpr { subject: Box::new(subject), arms, default };
    assert(match_expr_view(m).subject == Box::new(node(subject)));
    Expression::Match(m)
}

/// The place of the last part of a conditional.
pub open spec fn last_span(yes: Node, no: Option<Node>) -> Span {
    match no {
        Some(n) => n.span,
        None => yes.span,
    }
}

fn end_of(yes: &Spanned<Expression>, no: &Option<Spanned<Expression>>) -> (r: Span)
    ensures
        r == last_span(node(*yes), some_node(*no)),
{
    match no {
        Some(n) => n.span,
        None => yes.span,
    }
}

/// The traits of a declaration; one that declares an error provides `Error`.
pub open spec fn with_error_trait(names: Seq<Seq<char>>, implicit: bool) -> Seq<Seq<char>> {
    if implicit && !names.contains("Error"@) {
        names.push("Error"@)
    } else {
        names
    }
}

fn with_error(names: Vec<String>, implicit: bool) -> (r: Vec<String>)
    ensures
        texts(r@) == with_error_trait(texts(names@), implicit),
{
    if !implicit {
        return names;
    }
    let mut i: usize = 0;
    while i < names.len()
        invariant
            i <= names.len(),
            forall|k: int| 0 <= k < i ==> #[trigger] texts(names@)[k] != "Error"@,
        decreases names.len() - i,
    {
        if same_text(names[i].as_str(), "Error") {
            assert(texts(names@)[i as int] == "Error"@);
            return names;
        }
        i = i + 1;
    }
    with_name(names, owned("Error"))
}

/// Whether some fields have names and some have none.
pub open spec fn mixed(fs: Seq<FieldDeclView>) -> bool {
    exists|i: int, j: int| 0 <= i < fs.len() && 0 <= j < fs.len() && (#[trigger] fs[i]).name is Some && (#[trigger] fs[j]).name is None
}

fn is_mixed(fs: &Vec<FieldDecl>) -> (r: bool)
    ensures
        r == mixed(field_decl_views(fs@)),
{
    let ghost v = field_decl_views(fs@);
    proof {
        field_decl_views_index(fs@);
    }
    let mut named = false;
    let mut bare = false;
    let mut i: usize = 0;
    while i < fs.len()
        invariant
            i <= fs.len() == v.len(),
            forall|k: int| 0 <= k < fs.len() ==> #[trigger] v[k] == field_decl_view(fs@[k]),
            named == exists|k: int| 0 <= k < i && (#[trigger] v[k]).name is Some,
            bare == exists|k: int| 0 <= k < i && (#[trigger] v[k]).name is None,
        decreases fs.len() - i,
    {
        assert(v[i as int] == field_decl_view(fs@[i as int]));
        match &fs[i].name {
            Some(_) => {
                named = true;
            },
            None => {
                bare = true;
            },
        }
        i = i + 1;
    }
    named && bare
}

pub open spec fn mixed_message() -> Seq<char> {
    "a field list must be all named (`x: T`) or all positional (`T`), not a mix"@
}

fn mixed_fields(span: Span) -> (r: Spanned<ParseError>)
    ensures
        fail_view(r) == fail_at(PErr::Other(mixed_message()), span),
{
    let msg = owned("a field list must be all named (`x: T`) or all positional (`T`), not a mix");
    Spanned { span, item: ParseError::Other(msg) }
}

pub open spec fn tuple_message() -> Seq<char> {
    "Expected `->` after a parenthesised parameter list \u{2014} tuple types are not supported"@
}

fn no_tuple_types(span: Span) -> (r: Spanned<ParseError>)
    ensures
        fail_view(r) == fail_at(PErr::Other(tuple_message()), span),
{
    let msg = owned("Expected `->` after a parenthesised parameter list \u{2014} tuple types are not supported");
    Spanned { span, item: ParseError::Other(msg) }
}

pub open spec fn path_message() -> Seq<char> {
    "expected a string literal module path after 'import'"@
}

fn no_module_path(span: Span) -> (r: Spanned<ParseError>)
    ensures
        fail_view(r) == fail_at(PErr::Other(path_message()), span),
{
    Spanned { span, item: ParseError::Other(owned("expected a string literal module path after 'import'")) }
}

pub open spec fn empty_import_message() -> Seq<char> {
    "import list must name at least one binding"@
}

fn no_import_names(span: Span) -> (r: Spanned<ParseError>)
    ensures
        fail_view(r) == fail_at(PErr::Other(empty_import_message()), span),
{
    Spanned { span, item: ParseError::Other(owned("import list must name at least one binding")) }
}

/// Whether something can be assigned to: a name, or a field or an element of
/// something that can.
pub open spec fn assignable(a: Ast) -> bool
    decreases a,
{
    match a {
        Ast::FieldAccess(x) => assignable(x.target.item),
        Ast::Index(x) => assignable(x.target.item),
        other => name_of_ast(other) is Some,
    }
}

fn is_assignable_place(e: &Expression) -> (r: bool)
    ensures
        r == assignable(e@),
    decreases e,
{
    match e {
        Expression::FieldAccess(x) => {
            assert(e.ast() == Ast::FieldAccess(field_access_expr_view(*x)));
            is_assignable_place(&x.target.item)
        },
        Expression::Index(x) => {
            assert(e.ast() == Ast::Index(index_expr_view(*x)));
            is_assignable_place(&x.target.item)
        },
        other => other.get_identifier().is_some(),
    }
}

// ── Lambdas ──────────────────────────────────────────────────────────────

pub open spec fn argument_message(got: Seq<char>) -> Seq<char> {
    "Expected identifier for argument, got "@ + got
}

fn not_an_argument(got: String, span: Span) -> (r: Spanned<ParseError>)
    ensures
        fail_view(r) == fail_at(PErr::Other(argument_message(got@)), span),
{
    let mut msg = owned("Expected identifier for argument, got ");
    msg.append(got.as_str());
    Spanned { span, item: ParseError::Other(msg) }
}

pub open spec fn plain_parameter(name: Seq<char>) -> ParameterView {
    ParameterView { name, ty: None, mutable: false }
}

/// One parameter among others.
pub open spec fn listed_parameter(n: Node) -> Result<ParameterView, Fail> {
    match n.item {
        Ast::Literal(lit) => match lit.token {
            Tok::Name(name) => Ok(plain_parameter(name)),
            other => Err(fail_at(PErr::Other(argument_message(shown(other))), n.span)),
        },
        other => Err(fail_at(PErr::Other(argument_message(shown_expression(other))), n.span)),
    }
}

/// Parameters, or the first that is none.
pub open spec fn listed_parameters(ns: Seq<Node>) -> Result<Seq<ParameterView>, Fail>
    decreases ns.len(),
{
    if ns.len() == 0 {
        Ok(Seq::empty())
    } else {
        match listed_parameters(ns.drop_last()) {
            Err(e) => Err(e),
            Ok(ps) => match listed_parameter(ns.last()) {
                Err(e) => Err(e),
                Ok(p) => Ok(ps.push(p)),
            },
        }
    }
}

/// The parameters that what stands before `->` is.
pub open spec fn lambda_parameters(left: Node) -> Result<Seq<ParameterView>, Fail> {
    match left.item {
        Ast::Annotated(_) => Err(fail_at(PErr::FunctionTypeNeedsParens, left.span)),
        Ast::Literal(lit) => match lit.token {
            Tok::Name(name) => Ok(seq![plain_parameter(name)]),
            _ => Err(fail_at(PErr::Other(argument_message(shown_expression(left.item))), left.span)),
        },
        Ast::Tuple(ns) => listed_parameters(ns),
        _ => Err(fail_at(PErr::Other(argument_message(shown_expression(left.item))), left.span)),
    }
}

fn one_parameter(e: &Spanned<Expression>) -> (r: Result<Parameter, Spanned<ParseError>>)
    ensures
        match r {
            Ok(p) => Ok(parameter_view(p)),
            Err(x) => Err(fail_view(x)),
        } == listed_parameter(node(*e)),
{
    match &e.item {
        Expression::Literal(lit) => match &lit.token {
            Token::Identifier(name) => Ok(Parameter { name: owned(name.as_str()), ty: None, mutable: false }),
            other => Err(not_an_argument(other.show(), e.span)),
        },
        other => Err(not_an_argument(other.show(), e.span)),
    }
}

proof fn failed_parameter_stays(ns: Seq<Node>, k: int)
    requires
        0 <= k <= ns.len(),
        listed_parameters(ns.take(k)) is Err,
    ensures
        listed_parameters(ns) == listed_parameters(ns.take(k)),
    decreases ns.len(),
{
    if k < ns.len() {
        assert(ns.drop_last().take(k) =~= ns.take(k));
        failed_parameter_stays(ns.drop_last(), k);
    } else {
        assert(ns.take(k) =~= ns);
    }
}

fn parameter_list(es: &Vec<Spanned<Expression>>) -> (r: Result<Vec<Parameter>, Spanned<ParseError>>)
    ensures
        match r {
            Ok(ps) => Ok(parameter_views(ps@)),
            Err(x) => Err(fail_view(x)),
        } == listed_parameters(nodes(es@)),
{
    let ghost v = nodes(es@);
    proof {
        nodes_index(es@);
    }
    let mut out: Vec<Parameter> = Vec::new();
    let mut i: usize = 0;
    assert(parameter_views(out@) =~= Seq::<ParameterView>::empty());
    while i < es.len()
        invariant
            i <= es.len() == v.len(),
            v == nodes(es@),
            forall|k: int| 0 <= k < es.len() ==> #[trigger] v[k] == node(es@[k]),
            listed_parameters(v.take(i as int)) == Ok::<Seq<ParameterView>, Fail>(parameter_views(out@)),
        decreases es.len() - i,
    {
        assert(v.take(i + 1).drop_last() =~= v.take(i as int));
        assert(v.take(i + 1).last() == v[i as int]);
        match one_parameter(&es[i]) {
            Ok(p) => {
                let ghost before = out@;
                out.push(p);
                assert(out@.drop_last() =~= before);
            },
            Err(e) => {
                proof {
                    failed_parameter_stays(v, i + 1);
                }
                return Err(e);
            },
        }
        i = i + 1;
    }
    assert(v.take(i as int) =~= v);
    Ok(out)
}

fn lambda_params(left: &Spanned<Expression>) -> (r: Result<Vec<Parameter>, Spanned<ParseError>>)
    ensures
        match r {
            Ok(ps) => Ok(parameter_views(ps@)),
            Err(x) => Err(fail_view(x)),
        } == lambda_parameters(node(*left)),
{
    match &left.item {
        Expression::Annotated(_) => Err(Spanned { span: left.span, item: ParseError::FunctionTypeNeedsParens }),
        Expression::Literal(lit) => match &lit.token {
            Token::Identifier(name) => {
                let none: Vec<Parameter> = Vec::new();
                let r = with_parameter(none, owned(name.as_str()), None, false);
                assert(parameter_views(r@) =~= seq![plain_parameter(name@)]);
                Ok(r)
            },
            _ => Err(not_an_argument(left.item.show(), left.span)),
        },
        Expression::Tuple(es) => parameter_list(es),
        _ => Err(not_an_argument(left.item.show(), left.span)),
    }
}

// ── Rules ────────────────────────────────────────────────────────────────

/// What a token starts.
pub open spec fn apply_prefix_of(s: PState, rule: PrefixRule, token: Spanned<Tok>) -> (Result<Node, Fail>, PState)
    decreases measure(s), 14int,
{
    match rule {
        PrefixRule::Literal => {
            let (r, t) = literal_of(s, token);
            (r, after(s, t))
        },
        PrefixRule::Unary => {
            let (r, t) = unary_of(s, token);
            (r, after(s, t))
        },
        PrefixRule::LetBinding => {
            let (r, t) = let_binding_of(s, token);
            (r, after(s, t))
        },
        PrefixRule::MutPrefix => {
            let (r, t) = mut_prefix_of(s, token);
            (r, after(s, t))
        },
        PrefixRule::Conditional => {
            let (r, t) = conditional_of(s, token);
            (r, after(s, t))
        },
        PrefixRule::FuncDecl => {
            let (r, t) = func_decl_of(s, token);
            (r, after(s, t))
        },
        PrefixRule::ReturnExpr => {
            let (r, t) = return_expr_of(s, token);
            (r, after(s, t))
        },
        PrefixRule::ForExpr => {
            let (r, t) = for_expr_of(s, token);
            (r, after(s, t))
        },
        PrefixRule::DataDecl => {
            let (r, t) = data_decl_of(s, token);
            (r, after(s, t))
        },
        PrefixRule::ErrorDecl => {
            let (r, t) = error_decl_of(s, token);
            (r, after(s, t))
        },
        PrefixRule::MatchExpr => {
            let (r, t) = match_expr_of(s, token);
            (r, after(s, t))
        },
        PrefixRule::ImportDecl => {
            let (r, t) = import_decl_of(s, token);
            (r, after(s, t))
        },
        PrefixRule::Grouping => {
            let (r, t) = grouping_of(s, token);
            (r, after(s, t))
        },
        PrefixRule::Tuple => {
            let (r, t) = tuple_of(s, token);
            (r, after(s, t))
        },
        PrefixRule::BlockExpr => {
            let (r, t) = block_expr_of(s, token);
            (r, after(s, t))
        },
    }
}

/// What a token makes of the expression before it.
pub open spec fn apply_infix_of(
    s: PState,
    rule: InfixRule,
    token: Spanned<Tok>,
    left: Node,
    precedence: Precedence,
) -> (Result<Node, Fail>, PState)
    decreases measure(s), 8int,
{
    match rule {
        InfixRule::Missing => {
            (Err(fail_at(PErr::ExpectedOperator, token.span)), s)
        },
        InfixRule::Binary => {
            let (r, t) = binary_of(s, token, left, precedence);
            (r, after(s, t))
        },
        InfixRule::Assign => {
            let (r, t) = assign_of(s, left, precedence);
            (r, after(s, t))
        },
        InfixRule::Range => {
            let (r, t) = range_of(s, left, precedence);
            (r, after(s, t))
        },
        InfixRule::IsPattern => {
            let (r, t) = is_pattern_of(s, left);
            (r, after(s, t))
        },
        InfixRule::FieldAccess => {
            let (r, t) = field_access_of(s, left);
            (r, after(s, t))
        },
        InfixRule::ArrowFunc => {
            let (r, t) = arrow_func_of(s, left);
            (r, after(s, t))
        },
        InfixRule::TypeAnnotation => {
            let (r, t) = type_annotation_of(s, left);
            (r, after(s, t))
        },
        InfixRule::Call => {
            let (r, t) = call_of(s, left);
            (r, after(s, t))
        },
        InfixRule::Index => {
            let (r, t) = index_of(s, left);
            (r, after(s, t))
        },
        InfixRule::PostfixUnwrap => {
            let (r, t) = postfix_unwrap_of(s, token, left);
            (r, after(s, t))
        },
        InfixRule::PostfixTry => {
            let (r, t) = postfix_try_of(s, token, left);
            (r, after(s, t))
        },
        InfixRule::CatchExpr => {
            let (r, t) = catch_expr_of(s, left);
            (r, after(s, t))
        },
    }
}

/// A literal or a name.
#[verifier::opaque]
pub open spec fn literal_of(s: PState, token: Spanned<Tok>) -> (Result<Node, Fail>, PState)
    decreases measure(s), 0int,
{
    (Ok(Spanned { span: token.span, item: Ast::Literal(LiteralExprView { token: token.item }) }), s)
}

/// A prefix operator and its operand.
pub open spec fn unary_of(s: PState, token: Spanned<Tok>) -> (Result<Node, Fail>, PState)
    decreases measure(s), 1int,
{
    let (r, t) = expression_of(s, Precedence::Unary);
    let s = after(s, t);
    match r {
        Err(e) => (Err(e), s),
        Ok(expr) => {
            let span = merged(token.span, expr.span);
            (Ok(Spanned { span: span, item: Ast::Unary(UnaryExprView { op: token.item, expr: Box::new(expr) }) }), s)
        },
    }
}

/// The right operand of an infix operator.
pub open spec fn binary_of(
    s: PState,
    token: Spanned<Tok>,
    left: Node,
    precedence: Precedence,
) -> (Result<Node, Fail>, PState)
    decreases measure(s), 1int,
{
    let (r, t) = expression_of(s, next_of(precedence));
    let s = after(s, t);
    match r {
        Err(e) => (Err(e), s),
        Ok(right) => {
            let span = merged(left.span, right.span);
            (Ok(Spanned { span: span, item: Ast::Binary(BinaryExprView { op: token.item, left: Box::new(left), right: Box::new(right) }) }), s)
        },
    }
}

/// A type after a colon, where there is one.
#[verifier::opaque]
pub open spec fn opt_annotation_of(s: PState) -> (Result<Option<TypeNode>, Fail>, PState)
    decreases measure(s), 7int,
{
    if s.sees(Token::Colon) {
        let (r, t) = advance_of(s);
        let s = after(s, t);
        match r {
            Err(e) => (Err(e), s),
            Ok(_colon) => {
                let (r, t) = type_expr_of(s);
                let s = after(s, t);
                match r {
                    Err(e) => (Err(e), s),
                    Ok(ty) => {
                        (Ok(Some(ty)), s)
                    },
                }
            },
        }
    } else {
        (Ok(None), s)
    }
}

/// The rest of a declaration, after its keyword and its name.
pub open spec fn finish_declaration_of(
    s: PState,
    token: Spanned<Tok>,
    name: Spanned<Tok>,
    mutability: Mutability,
) -> (Result<Node, Fail>, PState)
    decreases measure(s), 8int,
{
    let (r, t) = opt_annotation_of(s);
    let s = after(s, t);
    match r {
        Err(e) => (Err(e), s),
        Ok(ty) => {
            let (r, t) = consume_of(s, Tok::Word(Token::Assign));
            let s = after(s, t);
            match r {
                Err(e) => (Err(e), s),
                Ok(_eq) => {
                    let s = after(s, skip_newlines_of(s));
                    let (r, t) = expression_of(s, Precedence::Assign);
                    let s = after(s, t);
                    match r {
                        Err(e) => (Err(e), s),
                        Ok(expr) => {
                            let span = merged(token.span, expr.span);
                            let target = Spanned { span: name.span, item: Ast::Literal(LiteralExprView { token: name.item }) };
                            (Ok(Spanned { span: span, item: Ast::Assign(AssignExprView { target: Box::new(target), typ: ty, value: Box::new(expr), decl: Some(mutability) }) }), s)
                        },
                    }
                },
            }
        },
    }
}

/// `let name = value`.
pub open spec fn let_binding_of(s: PState, token: Spanned<Tok>) -> (Result<Node, Fail>, PState)
    decreases measure(s), 9int,
{
    let (r, t) = identifier_of(s);
    let s = after(s, t);
    match r {
        Err(e) => (Err(e), s),
        Ok(name) => {
            let (r, t) = finish_declaration_of(s, token, name, Mutability::Immutable);
            (r, after(s, t))
        },
    }
}

/// `mut name = value`, or `mut name` as an argument.
pub open spec fn mut_prefix_of(s: PState, token: Spanned<Tok>) -> (Result<Node, Fail>, PState)
    decreases measure(s), 9int,
{
    let (r, t) = identifier_of(s);
    let s = after(s, t);
    match r {
        Err(e) => (Err(e), s),
        Ok(name) => {
            if s.sees(Token::Colon) || s.sees(Token::Assign) {
                let (r, t) = finish_declaration_of(s, token, name, Mutability::Mutable);
                (r, after(s, t))
            } else {
                let span = merged(token.span, name.span);
                let target = Spanned { span: name.span, item: Ast::Literal(LiteralExprView { token: name.item }) };
                (Ok(Spanned { span: span, item: Ast::MutArg(Box::new(target)) }), s)
            }
        },
    }
}

/// The value of an assignment to an earlier binding, or to a part of it.
pub open spec fn assign_of(s: PState, left: Node, precedence: Precedence) -> (Result<Node, Fail>, PState)
    decreases measure(s), 1int,
{
    if !assignable(left.item) {
        (Err(fail_at(PErr::InvalidAssignmentTarget, left.span)), s)
    } else {
        let s = after(s, skip_newlines_of(s));
        let (r, t) = expression_of(s, precedence);
        let s = after(s, t);
        match r {
            Err(e) => (Err(e), s),
            Ok(right) => {
                let span = merged(left.span, right.span);
                (Ok(Spanned { span: span, item: Ast::Assign(AssignExprView { target: Box::new(left), typ: None, value: Box::new(right), decl: None }) }), s)
            },
        }
    }
}

/// An expression in parentheses, or the parameters of a lambda.
pub open spec fn grouping_of(s: PState, open: Spanned<Tok>) -> (Result<Node, Fail>, PState)
    decreases measure(s), 3int,
{
    let s = after(s, skip_newlines_of(s));
    let (r, t) = expression_of(s, Precedence::Assign);
    let s = after(s, t);
    match r {
        Err(e) => (Err(e), s),
        Ok(expr) => {
            let s = after(s, skip_newlines_of(s));
            if s.sees(Token::Comma) {
                let (r, t) = parameter_group_of(s, open, expr);
                (r, after(s, t))
            } else {
                let (r, t) = consume_of(s, Tok::Word(Token::RightParen));
                let s = after(s, t);
                match r {
                    Err(e) => (Err(e), s),
                    Ok(_close) => {
                        (Ok(expr), s)
                    },
                }
            }
        },
    }
}

/// The rest of `(a, b)`. Only the parameters of a lambda are written so: before
/// anything else the comma stands where a `)` should.
pub open spec fn parameter_group_of(s: PState, open: Spanned<Tok>, first: Node) -> (Result<Node, Fail>, PState)
    decreases measure(s), 2int,
{
    if crate::expression::identifier_of(first.item) is Some && names_ahead_of(s) {
        let (r, t) = advance_of(s);
        let s = after(s, t);
        match r {
            Err(e) => (Err(e), s),
            Ok(_comma) => {
                let s = after(s, skip_newlines_of(s));
                let items = seq![first];
                let (all, t) = list_items_of(s, Tok::Word(Token::Comma), Tok::Word(Token::RightParen), items);
                let s = after(s, t);
                let (r, t) = consume_of(s, Tok::Word(Token::RightParen));
                let s = after(s, t);
                match r {
                    Err(e) => (Err(e), s),
                    Ok(close) => {
                        let span = merged(open.span, close.span);
                        (Ok(Spanned { span: span, item: Ast::Tuple(all) }), s)
                    },
                }
            },
        }
    } else {
        let (r, t) = consume_of(s, Tok::Word(Token::RightParen));
        let s = after(s, t);
        match r {
            Err(e) => (Err(e), s),
            Ok(_close) => {
                (Ok(first), s)
            },
        }
    }
}

/// The statements of a block.
pub open spec fn block_stmts_of(s: PState, stmts: Seq<Node>) -> (Result<Seq<Node>, Fail>, PState)
    decreases measure(s), 1int,
{
    let start = s;
    if s.sees(Token::RightBrace) || s.sees(Token::EOF) {
        (Ok(stmts), s)
    } else {
        let (r, t) = expression_of(s, Precedence::Assign);
        let s = after(s, t);
        match r {
            Err(e) => (Err(e), s),
            Ok(expr) => {
                let more = stmts.push(expr);
                if s.sees(Token::RightBrace) || s.sees(Token::EOF) {
                    (Ok(more), s)
                } else if !s.sees(Token::Newline) && !s.sees(Token::Semicolon) {
                    (Err(fail_at(PErr::ExpectedButFound(Tok::Word(Token::Newline), s.cur.item), s.cur.span)), s)
                } else {
                    let s = after(s, skip_newlines_and_semicolons_of(s));
                    if measure(s) < measure(start) {
                        block_stmts_of(s, more)
                    } else {
                        (Err(stuck(s)), s)
                    }
                }
            },
        }
    }
}

/// Statements in braces. A single one stands for itself.
pub open spec fn block_expr_of(s: PState, open: Spanned<Tok>) -> (Result<Node, Fail>, PState)
    decreases measure(s), 2int,
{
    let s = after(s, skip_newlines_and_semicolons_of(s));
    let none = Seq::<Node>::empty();
    let (r, t) = block_stmts_of(s, none);
    let s = after(s, t);
    match r {
        Err(e) => (Err(e), s),
        Ok(stmts) => {
            let (r, t) = consume_of(s, Tok::Word(Token::RightBrace));
            let s = after(s, t);
            match r {
                Err(e) => (Err(e), s),
                Ok(close) => {
                    if stmts.len() == 0 {
                        (Err(fail_at(PErr::ExpectedExpression, merged(open.span, close.span))), s)
                    } else if stmts.len() == 1 {
                        (Ok(stmts[0]), s)
                    } else {
                        let span = merged(open.span, close.span);
                        (Ok(Spanned { span: span, item: Ast::Block(stmts) }), s)
                    }
                },
            }
        },
    }
}

/// What follows `else`.
pub open spec fn opt_else_of(s: PState, has_else: bool) -> (Result<Option<Node>, Fail>, PState)
    decreases measure(s), 1int,
{
    if has_else {
        let (r, t) = consume_of(s, Tok::Word(Token::Else));
        let s = after(s, t);
        match r {
            Err(e) => (Err(e), s),
            Ok(_else) => {
                let s = after(s, skip_newlines_of(s));
                let (r, t) = expression_of(s, Precedence::Assign);
                let s = after(s, t);
                match r {
                    Err(e) => (Err(e), s),
                    Ok(expr) => {
                        (Ok(Some(expr)), s)
                    },
                }
            },
        }
    } else {
        (Ok(None), s)
    }
}

/// `if cond then a else b`. A newline before `then` ends the statement; one
/// before `else` is passed over only if an `else` follows.
pub open spec fn conditional_of(s: PState, token: Spanned<Tok>) -> (Result<Node, Fail>, PState)
    decreases measure(s), 2int,
{
    let (r, t) = expression_of(s, Precedence::Assign);
    let s = after(s, t);
    match r {
        Err(e) => (Err(e), s),
        Ok(cond) => {
            let (r, t) = consume_of(s, Tok::Word(Token::Then));
            let s = after(s, t);
            match r {
                Err(e) => (Err(e), s),
                Ok(_then) => {
                    let s = after(s, skip_newlines_of(s));
                    let (r, t) = expression_of(s, Precedence::Assign);
                    let s = after(s, t);
                    match r {
                        Err(e) => (Err(e), s),
                        Ok(yes) => {
                            let (has_else, t) = peek_past_newlines_is_of(s, Tok::Word(Token::Else));
                            let s = after(s, t);
                            let (r, t) = opt_else_of(s, has_else);
                            let s = after(s, t);
                            match r {
                                Err(e) => (Err(e), s),
                                Ok(no) => {
                                    let end = last_span(yes, no);
                                    let span = merged(token.span, end);
                                    (Ok(Spanned { span: span, item: Ast::Conditional(ConditionalExprView { cond: Box::new(cond), true_branch: Box::new(yes), false_branch: in_box(no) }) }), s)
                                },
                            }
                        },
                    }
                },
            }
        },
    }
}

/// Whether a parameter is `mut`.
#[verifier::opaque]
pub open spec fn opt_mut_of(s: PState) -> (Result<bool, Fail>, PState)
    decreases measure(s), 0int,
{
    if s.sees(Token::Mut) {
        let (r, t) = advance_of(s);
        let s = after(s, t);
        match r {
            Err(e) => (Err(e), s),
            Ok(_mut) => {
                (Ok(true), s)
            },
        }
    } else {
        (Ok(false), s)
    }
}

/// A comma, where there is one.
#[verifier::opaque]
pub open spec fn opt_comma_of(s: PState) -> (Result<(), Fail>, PState)
    decreases measure(s), 0int,
{
    let s = after(s, skip_newlines_of(s));
    if s.sees(Token::Comma) {
        let (r, t) = advance_of(s);
        let s = after(s, t);
        match r {
            Err(e) => (Err(e), s),
            Ok(_comma) => {
                (Ok(()), s)
            },
        }
    } else {
        (Ok(()), s)
    }
}

/// The parameters of a function.
#[verifier::opaque]
pub open spec fn parameters_of(s: PState, params: Seq<ParameterView>) -> (Result<Seq<ParameterView>, Fail>, PState)
    decreases measure(s), 8int,
{
    let start = s;
    let s = after(s, skip_newlines_of(s));
    if s.sees(Token::RightParen) || s.sees(Token::EOF) {
        (Ok(params), s)
    } else {
        let (r, t) = opt_mut_of(s);
        let s = after(s, t);
        match r {
            Err(e) => (Err(e), s),
            Ok(mutable) => {
                let (r, t) = identifier_of(s);
                let s = after(s, t);
                match r {
                    Err(e) => (Err(e), s),
                    Ok(name) => {
                        let (r, t) = opt_annotation_of(s);
                        let s = after(s, t);
                        match r {
                            Err(e) => (Err(e), s),
                            Ok(ty) => {
                                let more = params.push(ParameterView { name: name_in(name.item), ty, mutable });
                                let (r, t) = opt_comma_of(s);
                                let s = after(s, t);
                                match r {
                                    Err(e) => (Err(e), s),
                                    Ok(_sep) => {
                                        if measure(s) < measure(start) {
                                            parameters_of(s, more)
                                        } else {
                                            (Err(stuck(s)), s)
                                        }
                                    },
                                }
                            },
                        }
                    },
                }
            },
        }
    }
}

/// `func name(params): Type = body`, which binds the name to a function.
pub open spec fn func_decl_of(s: PState, token: Spanned<Tok>) -> (Result<Node, Fail>, PState)
    decreases measure(s), 9int,
{
    let (r, t) = identifier_of(s);
    let s = after(s, t);
    match r {
        Err(e) => (Err(e), s),
        Ok(name) => {
            let (r, t) = consume_of(s, Tok::Word(Token::LeftParen));
            let s = after(s, t);
            match r {
                Err(e) => (Err(e), s),
                Ok(_open) => {
                    let none = Seq::<ParameterView>::empty();
                    let (r, t) = parameters_of(s, none);
                    let s = after(s, t);
                    match r {
                        Err(e) => (Err(e), s),
                        Ok(params) => {
                            let (r, t) = consume_of(s, Tok::Word(Token::RightParen));
                            let s = after(s, t);
                            match r {
                                Err(e) => (Err(e), s),
                                Ok(_close) => {
                                    let (r, t) = opt_annotation_of(s);
                                    let s = after(s, t);
                                    match r {
                                        Err(e) => (Err(e), s),
                                        Ok(ret) => {
                                            let (r, t) = consume_of(s, Tok::Word(Token::Assign));
                                            let s = after(s, t);
                                            match r {
                                                Err(e) => (Err(e), s),
                                                Ok(_eq) => {
                                                    let s = after(s, skip_newlines_of(s));
                                                    let (r, t) = expression_of(s, Precedence::Assign);
                                                    let s = after(s, t);
                                                    match r {
                                                        Err(e) => (Err(e), s),
                                                        Ok(body) => {
                                                            let body_span = body.span;
                                                            let func = Spanned { span: body_span, item: Ast::Function(FunctionExprView { params, body: Box::new(body), return_type: ret }) };
                                                            let target = Spanned { span: name.span, item: Ast::Literal(LiteralExprView { token: name.item }) };
                                                            let span = merged(token.span, body_span);
                                                            (Ok(Spanned { span: span, item: Ast::Assign(AssignExprView { target: Box::new(target), typ: None, value: Box::new(func), decl: Some(Mutability::Immutable) }) }), s)
                                                        },
                                                    }
                                                },
                                            }
                                        },
                                    }
                                },
                            }
                        },
                    }
                },
            }
        },
    }
}

/// `return`, with a value if the next token can start one.
pub open spec fn return_expr_of(s: PState, token: Spanned<Tok>) -> (Result<Node, Fail>, PState)
    decreases measure(s), 1int,
{
    let has_value = rule_of(s.cur.item).prefix is Some;
    if has_value {
        let (r, t) = expression_of(s, Precedence::Assign);
        let s = after(s, t);
        match r {
            Err(e) => (Err(e), s),
            Ok(value) => {
                let span = merged(token.span, value.span);
                (Ok(Spanned { span: span, item: Ast::Return(Some(Box::new(value))) }), s)
            },
        }
    } else {
        (Ok(Spanned { span: token.span, item: Ast::Return(None) }), s)
    }
}

/// The body of a lambda.
pub open spec fn arrow_func_of(s: PState, left: Node) -> (Result<Node, Fail>, PState)
    decreases measure(s), 1int,
{
    match lambda_parameters(left) {
        Err(e) => {
            (Err(e), s)
        },
        Ok(params) => {
            let s = after(s, skip_newlines_of(s));
            let (r, t) = expression_of(s, Precedence::Assign);
            let s = after(s, t);
            match r {
                Err(e) => (Err(e), s),
                Ok(body) => {
                    let span = merged(left.span, body.span);
                    (Ok(Spanned { span: span, item: Ast::Function(FunctionExprView { params, body: Box::new(body), return_type: None }) }), s)
                },
            }
        },
    }
}

/// `e?`.
#[verifier::opaque]
pub open spec fn postfix_try_of(s: PState, token: Spanned<Tok>, left: Node) -> (Result<Node, Fail>, PState)
    decreases measure(s), 0int,
{
    let span = merged(left.span, token.span);
    (Ok(Spanned { span: span, item: Ast::Try(Box::new(left)) }), s)
}

/// `e!`.
#[verifier::opaque]
pub open spec fn postfix_unwrap_of(s: PState, token: Spanned<Tok>, left: Node) -> (Result<Node, Fail>, PState)
    decreases measure(s), 0int,
{
    let span = merged(left.span, token.span);
    (Ok(Spanned { span: span, item: Ast::Unwrap(Box::new(left)) }), s)
}

/// The handler of `value catch handler`.
pub open spec fn catch_expr_of(s: PState, left: Node) -> (Result<Node, Fail>, PState)
    decreases measure(s), 1int,
{
    let s = after(s, skip_newlines_of(s));
    let (r, t) = expression_of(s, Precedence::Assign);
    let s = after(s, t);
    match r {
        Err(e) => (Err(e), s),
        Ok(handler) => {
            let span = merged(left.span, handler.span);
            (Ok(Spanned { span: span, item: Ast::Catch(Box::new(left), Box::new(handler)) }), s)
        },
    }
}

/// The type of `expr : Type`.
#[verifier::opaque]
pub open spec fn type_annotation_of(s: PState, left: Node) -> (Result<Node, Fail>, PState)
    decreases measure(s), 7int,
{
    let (r, t) = type_expr_of(s);
    let s = after(s, t);
    match r {
        Err(e) => (Err(e), s),
        Ok(ty) => {
            let span = merged(left.span, ty.span);
            (Ok(Spanned { span: span, item: Ast::Annotated(AnnotatedExprView { expr: Box::new(left), ty }) }), s)
        },
    }
}

/// A type. A function type needs parentheses.
#[verifier::opaque]
pub open spec fn type_expr_of(s: PState) -> (Result<TypeNode, Fail>, PState)
    decreases measure(s), 6int,
{
    let (r, t) = type_union_of(s);
    let s = after(s, t);
    match r {
        Err(e) => (Err(e), s),
        Ok(ty) => {
            if s.sees(Token::Arrow) {
                (Err(fail_at(PErr::FunctionTypeNeedsParens, ty.span)), s)
            } else {
                (Ok(ty), s)
            }
        },
    }
}

/// The further members of a union type.
pub open spec fn union_members_of(s: PState, members: Seq<TypeNode>) -> (Result<Seq<TypeNode>, Fail>, PState)
    decreases measure(s), 4int,
{
    let start = s;
    if s.sees(Token::Pipe) {
        let (r, t) = advance_of(s);
        let s = after(s, t);
        match r {
            Err(e) => (Err(e), s),
            Ok(_pipe) => {
                let s = after(s, skip_newlines_of(s));
                let (r, t) = type_postfix_of(s);
                let s = after(s, t);
                match r {
                    Err(e) => (Err(e), s),
                    Ok(ty) => {
                        if measure(s) < measure(start) {
                            union_members_of(s, members.push(ty))
                        } else {
                            (Err(stuck(s)), s)
                        }
                    },
                }
            },
        }
    } else {
        (Ok(members), s)
    }
}

/// `A | B`, or a single type.
pub open spec fn type_union_of(s: PState) -> (Result<TypeNode, Fail>, PState)
    decreases measure(s), 5int,
{
    let (r, t) = type_postfix_of(s);
    let s = after(s, t);
    match r {
        Err(e) => (Err(e), s),
        Ok(first) => {
            if s.sees(Token::Pipe) {
                let items = seq![first];
                let (r, t) = union_members_of(s, items);
                let s = after(s, t);
                match r {
                    Err(e) => (Err(e), s),
                    Ok(members) => {
                        let span = ends(members);
                        (Ok(Spanned { span, item: TypeAst::Union(members) }), s)
                    },
                }
            } else {
                (Ok(first), s)
            }
        },
    }
}

/// `T?`, as often as it is written.
#[verifier::opaque]
pub open spec fn optionals_of(s: PState, ty: TypeNode) -> (Result<TypeNode, Fail>, PState)
    decreases measure(s), 0int,
{
    let start = s;
    if s.sees(Token::Question) {
        let (r, t) = advance_of(s);
        let s = after(s, t);
        match r {
            Err(e) => (Err(e), s),
            Ok(q) => {
                let span = merged(ty.span, q.span);
                if measure(s) < measure(start) {
                    optionals_of(s, Spanned { span, item: TypeAst::Optional(Box::new(ty)) })
                } else {
                    (Err(stuck(s)), s)
                }
            },
        }
    } else {
        (Ok(ty), s)
    }
}

/// A type with the `?` after it.
pub open spec fn type_postfix_of(s: PState) -> (Result<TypeNode, Fail>, PState)
    decreases measure(s), 3int,
{
    let (r, t) = type_atom_of(s);
    let s = after(s, t);
    match r {
        Err(e) => (Err(e), s),
        Ok(ty) => {
            let (r, t) = optionals_of(s, ty);
            (r, after(s, t))
        },
    }
}

/// What follows `->` within a function type; it associates to the right.
pub open spec fn type_arrow_tail_of(s: PState) -> (Result<TypeNode, Fail>, PState)
    decreases measure(s), 6int,
{
    let start = s;
    let (r, t) = type_union_of(s);
    let s = after(s, t);
    match r {
        Err(e) => (Err(e), s),
        Ok(first) => {
            if s.sees(Token::Arrow) {
                let (r, t) = advance_of(s);
                let s = after(s, t);
                match r {
                    Err(e) => (Err(e), s),
                    Ok(_arrow) => {
                        if measure(s) < measure(start) {
                            let s = after(s, skip_newlines_of(s));
                            let (r, t) = type_arrow_tail_of(s);
                            let s = after(s, t);
                            match r {
                                Err(e) => (Err(e), s),
                                Ok(rest) => {
                                    let span = merged(first.span, rest.span);
                                    let items = seq![first];
                                    (Ok(Spanned { span, item: TypeAst::Func(items, Box::new(rest)) }), s)
                                },
                            }
                        } else {
                            (Err(stuck(s)), s)
                        }
                    },
                }
            } else {
                (Ok(first), s)
            }
        },
    }
}

/// Further types in parentheses.
pub open spec fn type_items_of(s: PState, items: Seq<TypeNode>) -> (Result<Seq<TypeNode>, Fail>, PState)
    decreases measure(s), 6int,
{
    let start = s;
    let s = after(s, skip_newlines_of(s));
    if s.sees(Token::Comma) {
        let (r, t) = advance_of(s);
        let s = after(s, t);
        match r {
            Err(e) => (Err(e), s),
            Ok(_comma) => {
                let s = after(s, skip_newlines_of(s));
                let (r, t) = type_union_of(s);
                let s = after(s, t);
                match r {
                    Err(e) => (Err(e), s),
                    Ok(ty) => {
                        if measure(s) < measure(start) {
                            type_items_of(s, items.push(ty))
                        } else {
                            (Err(stuck(s)), s)
                        }
                    },
                }
            },
        }
    } else {
        (Ok(items), s)
    }
}

/// Further arguments of a type.
pub open spec fn type_args_of(s: PState, args: Seq<TypeNode>) -> (Result<Seq<TypeNode>, Fail>, PState)
    decreases measure(s), 6int,
{
    let start = s;
    if s.sees(Token::Comma) {
        let (r, t) = advance_of(s);
        let s = after(s, t);
        match r {
            Err(e) => (Err(e), s),
            Ok(_comma) => {
                let (r, t) = type_union_of(s);
                let s = after(s, t);
                match r {
                    Err(e) => (Err(e), s),
                    Ok(ty) => {
                        if measure(s) < measure(start) {
                            type_args_of(s, args.push(ty))
                        } else {
                            (Err(stuck(s)), s)
                        }
                    },
                }
            },
        }
    } else {
        (Ok(args), s)
    }
}

/// A type in parentheses, or a function type.
pub open spec fn paren_type_of(s: PState, open: Spanned<Tok>) -> (Result<TypeNode, Fail>, PState)
    decreases measure(s), 7int,
{
    let s = after(s, skip_newlines_of(s));
    let (r, t) = type_union_of(s);
    let s = after(s, t);
    match r {
        Err(e) => (Err(e), s),
        Ok(first) => {
            let ones = seq![first];
            let (r, t) = type_items_of(s, ones);
            let s = after(s, t);
            match r {
                Err(e) => (Err(e), s),
                Ok(items) => {
                    if s.sees(Token::Arrow) {
                        let (r, t) = advance_of(s);
                        let s = after(s, t);
                        match r {
                            Err(e) => (Err(e), s),
                            Ok(_arrow) => {
                                let s = after(s, skip_newlines_of(s));
                                let (r, t) = type_arrow_tail_of(s);
                                let s = after(s, t);
                                match r {
                                    Err(e) => (Err(e), s),
                                    Ok(result) => {
                                        let s = after(s, skip_newlines_of(s));
                                        let (r, t) = consume_of(s, Tok::Word(Token::RightParen));
                                        let s = after(s, t);
                                        match r {
                                            Err(e) => (Err(e), s),
                                            Ok(close) => {
                                                let span = merged(open.span, close.span);
                                                (Ok(Spanned { span, item: TypeAst::Func(items, Box::new(result)) }), s)
                                            },
                                        }
                                    },
                                }
                            },
                        }
                    } else {
                        let (r, t) = consume_of(s, Tok::Word(Token::RightParen));
                        let s = after(s, t);
                        match r {
                            Err(e) => (Err(e), s),
                            Ok(close) => {
                                let span = merged(open.span, close.span);
                                if items.len() != 1 {
                                    (Err(fail_at(PErr::Other(tuple_message()), span)), s)
                                } else {
                                    (Ok(Spanned { span, item: items[0].item }), s)
                                }
                            },
                        }
                    }
                },
            }
        },
    }
}

/// The further parts of a dotted name.
#[verifier::opaque]
pub open spec fn dotted_name_of(s: PState, name: (Seq<char>, Span)) -> (Result<(Seq<char>, Span), Fail>, PState)
    decreases measure(s), 0int,
{
    let start = s;
    if s.sees(Token::Dot) {
        let (r, t) = advance_of(s);
        let s = after(s, t);
        match r {
            Err(e) => (Err(e), s),
            Ok(_dot) => {
                let (r, t) = identifier_of(s);
                let s = after(s, t);
                match r {
                    Err(e) => (Err(e), s),
                    Ok(part) => {
                        if measure(s) < measure(start) {
                            dotted_name_of(s, (name.0.push('.') + name_in(part.item), merged(name.1, part.span)))
                        } else {
                            (Err(stuck(s)), s)
                        }
                    },
                }
            },
        }
    } else {
        (Ok(name), s)
    }
}

/// A type by its name, perhaps with arguments.
pub open spec fn named_type_of(s: PState) -> (Result<TypeNode, Fail>, PState)
    decreases measure(s), 1int,
{
    let start = s;
    let (r, t) = identifier_of(s);
    let s = after(s, t);
    match r {
        Err(e) => (Err(e), s),
        Ok(first) => {
            let start_name = (name_in(first.item), first.span);
            let (r, t) = dotted_name_of(s, start_name);
            let s = after(s, t);
            match r {
                Err(e) => (Err(e), s),
                Ok(name) => {
                    if s.sees(Token::Lt) {
                        let (r, t) = advance_of(s);
                        let s = after(s, t);
                        match r {
                            Err(e) => (Err(e), s),
                            Ok(_lt) => {
                                if measure(s) < measure(start) {
                                    let (r, t) = type_union_of(s);
                                    let s = after(s, t);
                                    match r {
                                        Err(e) => (Err(e), s),
                                        Ok(ty) => {
                                            let ones = seq![ty];
                                            let (r, t) = type_args_of(s, ones);
                                            let s = after(s, t);
                                            match r {
                                                Err(e) => (Err(e), s),
                                                Ok(args) => {
                                                    let (r, t) = close_angle_of(s);
                                                    let s = after(s, t);
                                                    match r {
                                                        Err(e) => (Err(e), s),
                                                        Ok(close) => {
                                                            let span = merged(name.1, close);
                                                            (Ok(Spanned { span, item: TypeAst::Apply(name.0, args) }), s)
                                                        },
                                                    }
                                                },
                                            }
                                        },
                                    }
                                } else {
                                    (Err(stuck(s)), s)
                                }
                            },
                        }
                    } else {
                        (Ok(Spanned { span: name.1, item: TypeAst::Name(name.0) }), s)
                    }
                },
            }
        },
    }
}

/// A type without operators.
pub open spec fn type_atom_of(s: PState) -> (Result<TypeNode, Fail>, PState)
    decreases measure(s), 2int,
{
    let start = s;
    if !s.sees(Token::LeftParen) {
        let (r, t) = named_type_of(s);
        (r, after(s, t))
    } else {
        let (r, t) = advance_of(s);
        let s = after(s, t);
        match r {
            Err(e) => (Err(e), s),
            Ok(open) => {
                if measure(s) < measure(start) {
                    let (r, t) = paren_type_of(s, open);
                    (r, after(s, t))
                } else {
                    (Err(stuck(s)), s)
                }
            },
        }
    }
}

/// The names in `<A, B>`.
#[verifier::opaque]
pub open spec fn type_param_names_of(s: PState, names: Seq<Seq<char>>) -> (Result<Seq<Seq<char>>, Fail>, PState)
    decreases measure(s), 0int,
{
    let start = s;
    let (r, t) = identifier_of(s);
    let s = after(s, t);
    match r {
        Err(e) => (Err(e), s),
        Ok(name) => {
            let more = names.push(name_in(name.item));
            if s.sees(Token::Comma) {
                let (r, t) = advance_of(s);
                let s = after(s, t);
                match r {
                    Err(e) => (Err(e), s),
                    Ok(_comma) => {
                        if measure(s) < measure(start) {
                            type_param_names_of(s, more)
                        } else {
                            (Err(stuck(s)), s)
                        }
                    },
                }
            } else {
                (Ok(more), s)
            }
        },
    }
}

/// `<A, B>` after the name of a declaration.
#[verifier::opaque]
pub open spec fn type_param_list_of(s: PState) -> (Result<(Seq<Seq<char>>, Span), Fail>, PState)
    decreases measure(s), 1int,
{
    let (r, t) = consume_of(s, Tok::Word(Token::Lt));
    let s = after(s, t);
    match r {
        Err(e) => (Err(e), s),
        Ok(_lt) => {
            let none = Seq::<Seq<char>>::empty();
            let (r, t) = type_param_names_of(s, none);
            let s = after(s, t);
            match r {
                Err(e) => (Err(e), s),
                Ok(names) => {
                    let (r, t) = close_angle_of(s);
                    let s = after(s, t);
                    match r {
                        Err(e) => (Err(e), s),
                        Ok(close) => {
                            (Ok((names, close)), s)
                        },
                    }
                },
            }
        },
    }
}

/// The arguments of a call.
pub open spec fn call_of(s: PState, left: Node) -> (Result<Node, Fail>, PState)
    decreases measure(s), 3int,
{
    let (args, t) = expression_list_of(s, Tok::Word(Token::Comma), Tok::Word(Token::RightParen));
    let s = after(s, t);
    let (r, t) = consume_of(s, Tok::Word(Token::RightParen));
    let s = after(s, t);
    match r {
        Err(e) => (Err(e), s),
        Ok(close) => {
            let span = merged(left.span, close.span);
            (Ok(Spanned { span: span, item: Ast::Call(CallExprView { callable: Box::new(left), args }) }), s)
        },
    }
}

/// What stands before `..` in brackets.
pub open spec fn lower_bound_of(s: PState) -> (Result<Option<Node>, Fail>, PState)
    decreases measure(s), 1int,
{
    let s = after(s, skip_newlines_of(s));
    if s.sees(Token::DotDot) {
        (Ok(None), s)
    } else {
        let (r, t) = expression_of(s, next_of(Precedence::Range));
        let s = after(s, t);
        match r {
            Err(e) => (Err(e), s),
            Ok(expr) => {
                (Ok(Some(expr)), s)
            },
        }
    }
}

/// What stands after `..` in brackets.
pub open spec fn upper_bound_of(s: PState) -> (Result<Option<Node>, Fail>, PState)
    decreases measure(s), 1int,
{
    let s = after(s, skip_newlines_of(s));
    if s.sees(Token::RightBracket) {
        (Ok(None), s)
    } else {
        let (r, t) = expression_of(s, next_of(Precedence::Range));
        let s = after(s, t);
        match r {
            Err(e) => (Err(e), s),
            Ok(expr) => {
                (Ok(Some(expr)), s)
            },
        }
    }
}

/// An element or a part of a list.
pub open spec fn index_of(s: PState, left: Node) -> (Result<Node, Fail>, PState)
    decreases measure(s), 2int,
{
    let (r, t) = lower_bound_of(s);
    let s = after(s, t);
    match r {
        Err(e) => (Err(e), s),
        Ok(from) => {
            let s = after(s, skip_newlines_of(s));
            if s.sees(Token::DotDot) {
                let (r, t) = advance_of(s);
                let s = after(s, t);
                match r {
                    Err(e) => (Err(e), s),
                    Ok(_dots) => {
                        let (r, t) = upper_bound_of(s);
                        let s = after(s, t);
                        match r {
                            Err(e) => (Err(e), s),
                            Ok(to) => {
                                let s = after(s, skip_newlines_of(s));
                                let (r, t) = consume_of(s, Tok::Word(Token::RightBracket));
                                let s = after(s, t);
                                match r {
                                    Err(e) => (Err(e), s),
                                    Ok(close) => {
                                        let span = merged(left.span, close.span);
                                        (Ok(Spanned { span: span, item: Ast::Slice(SliceExprView { target: Box::new(left), start: in_box(from), end: in_box(to) }) }), s)
                                    },
                                }
                            },
                        }
                    },
                }
            } else {
                let (r, t) = consume_of(s, Tok::Word(Token::RightBracket));
                let s = after(s, t);
                match r {
                    Err(e) => (Err(e), s),
                    Ok(close) => {
                        let span = merged(left.span, close.span);
                        match from {
                            Some(at) => {
                                (Ok(Spanned { span: span, item: Ast::Index(IndexExprView { target: Box::new(left), index: Box::new(at) }) }), s)
                            },
                            None => {
                                (Err(fail_at(PErr::ExpectedExpression, span)), s)
                            },
                        }
                    },
                }
            }
        },
    }
}

/// The end of a range.
pub open spec fn range_of(s: PState, left: Node, precedence: Precedence) -> (Result<Node, Fail>, PState)
    decreases measure(s), 1int,
{
    let (r, t) = expression_of(s, next_of(precedence));
    let s = after(s, t);
    match r {
        Err(e) => (Err(e), s),
        Ok(right) => {
            let span = merged(left.span, right.span);
            (Ok(Spanned { span: span, item: Ast::Range(RangeExprView { start: Box::new(left), end: Box::new(right) }) }), s)
        },
    }
}

/// Elements in brackets, or a comprehension.
pub open spec fn tuple_of(s: PState, open: Spanned<Tok>) -> (Result<Node, Fail>, PState)
    decreases measure(s), 4int,
{
    let s = after(s, skip_newlines_of(s));
    if s.sees(Token::For) {
        let (r, t) = comprehension_of(s, open);
        (r, after(s, t))
    } else {
        let (items, t) = expression_list_of(s, Tok::Word(Token::Comma), Tok::Word(Token::RightBracket));
        let s = after(s, t);
        let (r, t) = consume_of(s, Tok::Word(Token::RightBracket));
        let s = after(s, t);
        match r {
            Err(e) => (Err(e), s),
            Ok(close) => {
                let span = merged(open.span, close.span);
                (Ok(Spanned { span: span, item: Ast::Tuple(items) }), s)
            },
        }
    }
}

/// A loop in brackets.
pub open spec fn comprehension_of(s: PState, open: Spanned<Tok>) -> (Result<Node, Fail>, PState)
    decreases measure(s), 3int,
{
    let (r, t) = advance_of(s);
    let s = after(s, t);
    match r {
        Err(e) => (Err(e), s),
        Ok(for_token) => {
            let (r, t) = for_expr_of(s, for_token);
            let s = after(s, t);
            match r {
                Err(e) => (Err(e), s),
                Ok(inner) => {
                    let s = after(s, skip_newlines_of(s));
                    let (r, t) = consume_of(s, Tok::Word(Token::RightBracket));
                    let s = after(s, t);
                    match r {
                        Err(e) => (Err(e), s),
                        Ok(close) => {
                            let span = merged(open.span, close.span);
                            (Ok(Spanned { span: span, item: Ast::Comprehension(Box::new(inner)) }), s)
                        },
                    }
                },
            }
        },
    }
}

/// The guard of a loop.
pub open spec fn opt_guard_of(s: PState) -> (Result<Option<Node>, Fail>, PState)
    decreases measure(s), 1int,
{
    if s.sees(Token::If) {
        let (r, t) = advance_of(s);
        let s = after(s, t);
        match r {
            Err(e) => (Err(e), s),
            Ok(_if) => {
                let (r, t) = expression_of(s, Precedence::Assign);
                let s = after(s, t);
                match r {
                    Err(e) => (Err(e), s),
                    Ok(expr) => {
                        (Ok(Some(expr)), s)
                    },
                }
            },
        }
    } else {
        (Ok(None), s)
    }
}

/// `for var in iterable if cond do body`.
pub open spec fn for_expr_of(s: PState, token: Spanned<Tok>) -> (Result<Node, Fail>, PState)
    decreases measure(s), 2int,
{
    let (r, t) = identifier_of(s);
    let s = after(s, t);
    match r {
        Err(e) => (Err(e), s),
        Ok(name) => {
            let (r, t) = consume_of(s, Tok::Word(Token::In));
            let s = after(s, t);
            match r {
                Err(e) => (Err(e), s),
                Ok(_in) => {
                    let s = after(s, skip_newlines_of(s));
                    let (r, t) = expression_of(s, Precedence::Assign);
                    let s = after(s, t);
                    match r {
                        Err(e) => (Err(e), s),
                        Ok(iterable) => {
                            let (r, t) = opt_guard_of(s);
                            let s = after(s, t);
                            match r {
                                Err(e) => (Err(e), s),
                                Ok(cond) => {
                                    let (_has_do, t) = peek_past_newlines_is_of(s, Tok::Word(Token::Do));
                                    let s = after(s, t);
                                    let (r, t) = consume_of(s, Tok::Word(Token::Do));
                                    let s = after(s, t);
                                    match r {
                                        Err(e) => (Err(e), s),
                                        Ok(_do) => {
                                            let s = after(s, skip_newlines_of(s));
                                            let (r, t) = expression_of(s, Precedence::Assign);
                                            let s = after(s, t);
                                            match r {
                                                Err(e) => (Err(e), s),
                                                Ok(body) => {
                                                    let span = merged(token.span, body.span);
                                                    (Ok(Spanned { span: span, item: Ast::ForLoop(ForLoopExprView { var: name_in(name.item), iterable: Box::new(iterable), cond: in_box(cond), body: Box::new(body) }) }), s)
                                                },
                                            }
                                        },
                                    }
                                },
                            }
                        },
                    }
                },
            }
        },
    }
}

/// The fields of a declaration.
#[verifier::opaque]
pub open spec fn field_items_of(s: PState, fields: Seq<FieldDeclView>) -> (Result<Seq<FieldDeclView>, Fail>, PState)
    decreases measure(s), 7int,
{
    let start = s;
    let s = after(s, skip_newlines_of(s));
    if s.sees(Token::RightParen) || s.sees(Token::EOF) {
        (Ok(fields), s)
    } else {
        let (r, t) = field_name_of(s);
        let s = after(s, t);
        match r {
            Err(e) => (Err(e), s),
            Ok(name) => {
                let (r, t) = type_expr_of(s);
                let s = after(s, t);
                match r {
                    Err(e) => (Err(e), s),
                    Ok(ty) => {
                        let more = fields.push(FieldDeclView { name, ty });
                        let (r, t) = opt_comma_of(s);
                        let s = after(s, t);
                        match r {
                            Err(e) => (Err(e), s),
                            Ok(_sep) => {
                                if measure(s) < measure(start) {
                                    field_items_of(s, more)
                                } else {
                                    (Err(stuck(s)), s)
                                }
                            },
                        }
                    },
                }
            },
        }
    }
}

/// Fields in parentheses: all with names, or all by position.
#[verifier::opaque]
pub open spec fn field_list_of(s: PState) -> (Result<(Seq<FieldDeclView>, Span), Fail>, PState)
    decreases measure(s), 8int,
{
    let (r, t) = consume_of(s, Tok::Word(Token::LeftParen));
    let s = after(s, t);
    match r {
        Err(e) => (Err(e), s),
        Ok(_open) => {
            let none = Seq::<FieldDeclView>::empty();
            let (r, t) = field_items_of(s, none);
            let s = after(s, t);
            match r {
                Err(e) => (Err(e), s),
                Ok(fields) => {
                    let (r, t) = consume_of(s, Tok::Word(Token::RightParen));
                    let s = after(s, t);
                    match r {
                        Err(e) => (Err(e), s),
                        Ok(close) => {
                            if mixed(fields) {
                                (Err(fail_at(PErr::Other(mixed_message()), close.span)), s)
                            } else {
                                (Ok((fields, close.span)), s)
                            }
                        },
                    }
                },
            }
        },
    }
}

/// Fields, where there are any, and where they end.
#[verifier::opaque]
pub open spec fn opt_fields_of(s: PState, otherwise: Span) -> (Result<(Seq<FieldDeclView>, Span), Fail>, PState)
    decreases measure(s), 9int,
{
    if s.sees(Token::LeftParen) {
        let (r, t) = field_list_of(s);
        (r, after(s, t))
    } else {
        let none = Seq::<FieldDeclView>::empty();
        (Ok((none, otherwise)), s)
    }
}

/// Type parameters, where there are any, and where they end.
#[verifier::opaque]
pub open spec fn opt_type_params_of(s: PState, otherwise: Span) -> (Result<(Seq<Seq<char>>, Span), Fail>, PState)
    decreases measure(s), 2int,
{
    if s.sees(Token::Lt) {
        let (r, t) = type_param_list_of(s);
        (r, after(s, t))
    } else {
        let none = Seq::<Seq<char>>::empty();
        (Ok((none, otherwise)), s)
    }
}

/// The variants of a union.
#[verifier::opaque]
pub open spec fn variant_items_of(
    s: PState,
    variants: Seq<VariantDeclView>,
) -> (Result<(Seq<VariantDeclView>, Span), Fail>, PState)
    decreases measure(s), 10int,
{
    let start = s;
    let (r, t) = identifier_of(s);
    let s = after(s, t);
    match r {
        Err(e) => (Err(e), s),
        Ok(name) => {
            let (r, t) = opt_fields_of(s, name.span);
            let s = after(s, t);
            match r {
                Err(e) => (Err(e), s),
                Ok(own) => {
                    let more = variants.push(VariantDeclView { name: name_in(name.item), fields: own.0 });
                    let (continues, t) = peek_past_newlines_is_of(s, Tok::Word(Token::Pipe));
                    let s = after(s, t);
                    if continues {
                        let (r, t) = advance_of(s);
                        let s = after(s, t);
                        match r {
                            Err(e) => (Err(e), s),
                            Ok(_pipe) => {
                                let s = after(s, skip_newlines_of(s));
                                if measure(s) < measure(start) {
                                    variant_items_of(s, more)
                                } else {
                                    (Err(stuck(s)), s)
                                }
                            },
                        }
                    } else {
                        (Ok((more, own.1)), s)
                    }
                },
            }
        },
    }
}

/// The variants of a union, where there are any, and where they end.
#[verifier::opaque]
pub open spec fn opt_variants_of(s: PState, otherwise: Span) -> (Result<(Seq<VariantDeclView>, Span), Fail>, PState)
    decreases measure(s), 11int,
{
    let none = Seq::<VariantDeclView>::empty();
    if s.sees(Token::Is) {
        let (r, t) = advance_of(s);
        let s = after(s, t);
        match r {
            Err(e) => (Err(e), s),
            Ok(_is) => {
                let s = after(s, skip_newlines_of(s));
                let (r, t) = variant_items_of(s, none);
                (r, after(s, t))
            },
        }
    } else {
        (Ok((none, otherwise)), s)
    }
}

/// The names after `provides`.
#[verifier::opaque]
pub open spec fn provided_names_of(s: PState, names: Seq<Seq<char>>) -> (Result<(Seq<Seq<char>>, Span), Fail>, PState)
    decreases measure(s), 0int,
{
    let start = s;
    let (r, t) = identifier_of(s);
    let s = after(s, t);
    match r {
        Err(e) => (Err(e), s),
        Ok(name) => {
            let more = names.push(name_in(name.item));
            if s.sees(Token::Comma) {
                let (r, t) = advance_of(s);
                let s = after(s, t);
                match r {
                    Err(e) => (Err(e), s),
                    Ok(_comma) => {
                        if measure(s) < measure(start) {
                            provided_names_of(s, more)
                        } else {
                            (Err(stuck(s)), s)
                        }
                    },
                }
            } else {
                (Ok((more, name.span)), s)
            }
        },
    }
}

/// The traits that a declaration provides, and where they end.
#[verifier::opaque]
pub open spec fn opt_provides_of(s: PState, otherwise: Span) -> (Result<(Seq<Seq<char>>, Span), Fail>, PState)
    decreases measure(s), 1int,
{
    let none = Seq::<Seq<char>>::empty();
    if s.sees(Token::Provides) {
        let (r, t) = advance_of(s);
        let s = after(s, t);
        match r {
            Err(e) => (Err(e), s),
            Ok(_provides) => {
                let s = after(s, skip_newlines_of(s));
                let (r, t) = provided_names_of(s, none);
                (r, after(s, t))
            },
        }
    } else {
        (Ok((none, otherwise)), s)
    }
}

/// A declaration, after its keyword.
#[verifier::opaque]
pub open spec fn data_decl_body_of(
    s: PState,
    token: Spanned<Tok>,
    implicit_error: bool,
) -> (Result<Node, Fail>, PState)
    decreases measure(s), 12int,
{
    let (r, t) = identifier_of(s);
    let s = after(s, t);
    match r {
        Err(e) => (Err(e), s),
        Ok(name) => {
            let (r, t) = opt_type_params_of(s, name.span);
            let s = after(s, t);
            match r {
                Err(e) => (Err(e), s),
                Ok(type_params) => {
                    let (r, t) = opt_fields_of(s, type_params.1);
                    let s = after(s, t);
                    match r {
                        Err(e) => (Err(e), s),
                        Ok(fields) => {
                            let (r, t) = opt_variants_of(s, fields.1);
                            let s = after(s, t);
                            match r {
                                Err(e) => (Err(e), s),
                                Ok(variants) => {
                                    let (r, t) = opt_provides_of(s, variants.1);
                                    let s = after(s, t);
                                    match r {
                                        Err(e) => (Err(e), s),
                                        Ok(provides) => {
                                            let span = merged(token.span, provides.1);
                                            let traits = with_error_trait(provides.0, implicit_error);
                                            (Ok(Spanned { span: span, item: Ast::DataDecl(DataDeclExprView { name: name_in(name.item), type_params: type_params.0, fields: fields.0, variants: variants.0, provides: traits }) }), s)
                                        },
                                    }
                                },
                            }
                        },
                    }
                },
            }
        },
    }
}

/// `data Name(fields) is A(..) | B(..) provides T`.
#[verifier::opaque]
pub open spec fn data_decl_of(s: PState, token: Spanned<Tok>) -> (Result<Node, Fail>, PState)
    decreases measure(s), 13int,
{
    let (r, t) = data_decl_body_of(s, token, false);
    (r, after(s, t))
}

/// `error Name(..)`: a declaration that provides `Error`.
#[verifier::opaque]
pub open spec fn error_decl_of(s: PState, token: Spanned<Tok>) -> (Result<Node, Fail>, PState)
    decreases measure(s), 13int,
{
    let (r, t) = data_decl_body_of(s, token, true);
    (r, after(s, t))
}

/// The names that a pattern binds.
#[verifier::opaque]
pub open spec fn bind_names_of(s: PState, binds: Seq<Seq<char>>) -> (Result<Seq<Seq<char>>, Fail>, PState)
    decreases measure(s), 1int,
{
    let start = s;
    let s = after(s, skip_newlines_of(s));
    if s.sees(Token::RightParen) || s.sees(Token::EOF) {
        (Ok(binds), s)
    } else {
        let (r, t) = identifier_of(s);
        let s = after(s, t);
        match r {
            Err(e) => (Err(e), s),
            Ok(name) => {
                let more = binds.push(name_in(name.item));
                let (r, t) = opt_comma_of(s);
                let s = after(s, t);
                match r {
                    Err(e) => (Err(e), s),
                    Ok(_sep) => {
                        if measure(s) < measure(start) {
                            bind_names_of(s, more)
                        } else {
                            (Err(stuck(s)), s)
                        }
                    },
                }
            },
        }
    }
}

/// The rest of a pattern, after the name of its variant.
#[verifier::opaque]
pub open spec fn pattern_binds_of(
    s: PState,
    path: Option<Seq<char>>,
    variant: Seq<char>,
    first: Span,
    end: Span,
) -> (Result<(PatternView, Span), Fail>, PState)
    decreases measure(s), 2int,
{
    let none = Seq::<Seq<char>>::empty();
    if s.sees(Token::LeftParen) {
        let (r, t) = advance_of(s);
        let s = after(s, t);
        match r {
            Err(e) => (Err(e), s),
            Ok(_open) => {
                let (r, t) = bind_names_of(s, none);
                let s = after(s, t);
                match r {
                    Err(e) => (Err(e), s),
                    Ok(binds) => {
                        let (r, t) = consume_of(s, Tok::Word(Token::RightParen));
                        let s = after(s, t);
                        match r {
                            Err(e) => (Err(e), s),
                            Ok(close) => {
                                (Ok((PatternView { path, variant, binds, resolved_member: None }, merged(first, close.span))), s)
                            },
                        }
                    },
                }
            },
        }
    } else {
        (Ok((PatternView { path, variant, binds: none, resolved_member: None }, merged(first, end))), s)
    }
}

/// A pattern and its place.
#[verifier::opaque]
pub open spec fn pattern_of(s: PState) -> (Result<(PatternView, Span), Fail>, PState)
    decreases measure(s), 3int,
{
    let (r, t) = identifier_of(s);
    let s = after(s, t);
    match r {
        Err(e) => (Err(e), s),
        Ok(first) => {
            if s.sees(Token::Dot) {
                let (r, t) = advance_of(s);
                let s = after(s, t);
                match r {
                    Err(e) => (Err(e), s),
                    Ok(_dot) => {
                        let (r, t) = identifier_of(s);
                        let s = after(s, t);
                        match r {
                            Err(e) => (Err(e), s),
                            Ok(second) => {
                                let (r, t) = pattern_binds_of(s, Some(name_in(first.item)), name_in(second.item), first.span, second.span);
                                (r, after(s, t))
                            },
                        }
                    },
                }
            } else {
                let (r, t) = pattern_binds_of(s, None, name_in(first.item), first.span, first.span);
                (r, after(s, t))
            }
        },
    }
}

/// The pattern of `subject is pattern`.
#[verifier::opaque]
pub open spec fn is_pattern_of(s: PState, left: Node) -> (Result<Node, Fail>, PState)
    decreases measure(s), 4int,
{
    let s = after(s, skip_newlines_of(s));
    let (r, t) = pattern_of(s);
    let s = after(s, t);
    match r {
        Err(e) => (Err(e), s),
        Ok(found) => {
            let span = merged(left.span, found.1);
            (Ok(Spanned { span: span, item: Ast::IsPattern(IsPatternExprView { subject: Box::new(left), pattern: found.0 }) }), s)
        },
    }
}

/// The guard of an arm.
pub open spec fn opt_arm_guard_of(s: PState) -> (Result<Option<Node>, Fail>, PState)
    decreases measure(s), 1int,
{
    if s.sees(Token::And) {
        let (r, t) = advance_of(s);
        let s = after(s, t);
        match r {
            Err(e) => (Err(e), s),
            Ok(_and) => {
                let (r, t) = expression_of(s, Precedence::Assign);
                let s = after(s, t);
                match r {
                    Err(e) => (Err(e), s),
                    Ok(expr) => {
                        (Ok(Some(expr)), s)
                    },
                }
            },
        }
    } else {
        (Ok(None), s)
    }
}

/// `is pattern and guard then body`.
pub open spec fn match_arm_of(s: PState) -> (Result<MatchArmView, Fail>, PState)
    decreases measure(s), 4int,
{
    let (r, t) = consume_of(s, Tok::Word(Token::Is));
    let s = after(s, t);
    match r {
        Err(e) => (Err(e), s),
        Ok(_is) => {
            let s = after(s, skip_newlines_of(s));
            let (r, t) = pattern_of(s);
            let s = after(s, t);
            match r {
                Err(e) => (Err(e), s),
                Ok(found) => {
                    let (r, t) = opt_arm_guard_of(s);
                    let s = after(s, t);
                    match r {
                        Err(e) => (Err(e), s),
                        Ok(guard) => {
                            let (r, t) = consume_of(s, Tok::Word(Token::Then));
                            let s = after(s, t);
                            match r {
                                Err(e) => (Err(e), s),
                                Ok(_then) => {
                                    let s = after(s, skip_newlines_of(s));
                                    let (r, t) = expression_of(s, Precedence::Assign);
                                    let s = after(s, t);
                                    match r {
                                        Err(e) => (Err(e), s),
                                        Ok(body) => {
                                            (Ok(MatchArmView { pattern: found.0, guard: in_box(guard), body: Box::new(body) }), s)
                                        },
                                    }
                                },
                            }
                        },
                    }
                },
            }
        },
    }
}

/// `else body`.
pub open spec fn match_default_of(s: PState) -> (Result<Node, Fail>, PState)
    decreases measure(s), 1int,
{
    let (r, t) = advance_of(s);
    let s = after(s, t);
    match r {
        Err(e) => (Err(e), s),
        Ok(_else) => {
            let s = after(s, skip_newlines_of(s));
            let (r, t) = expression_of(s, Precedence::Assign);
            let s = after(s, t);
            match r {
                Err(e) => (Err(e), s),
                Ok(body) => {
                    (Ok(body), s)
                },
            }
        },
    }
}

/// The arms of a `match`; the last `else` counts.
pub open spec fn match_arms_of(
    s: PState,
    arms: Seq<MatchArmView>,
    default: Option<Box<Node>>,
) -> (Result<(Seq<MatchArmView>, Option<Box<Node>>), Fail>, PState)
    decreases measure(s), 5int,
{
    let start = s;
    if s.sees(Token::RightBrace) || s.sees(Token::EOF) {
        (Ok((arms, default)), s)
    } else if s.sees(Token::Else) {
        let (r, t) = match_default_of(s);
        let s = after(s, t);
        match r {
            Err(e) => (Err(e), s),
            Ok(body) => {
                let s = after(s, skip_newlines_of(s));
                if measure(s) < measure(start) {
                    match_arms_of(s, arms, Some(Box::new(body)))
                } else {
                    (Err(stuck(s)), s)
                }
            },
        }
    } else {
        let (r, t) = match_arm_of(s);
        let s = after(s, t);
        match r {
            Err(e) => (Err(e), s),
            Ok(arm) => {
                let s = after(s, skip_newlines_of(s));
                if measure(s) < measure(start) {
                    match_arms_of(s, arms.push(arm), default)
                } else {
                    (Err(stuck(s)), s)
                }
            },
        }
    }
}

/// `match subject { is P then e ... else e }`.
pub open spec fn match_expr_of(s: PState, token: Spanned<Tok>) -> (Result<Node, Fail>, PState)
    decreases measure(s), 6int,
{
    let (r, t) = expression_of(s, Precedence::Assign);
    let s = after(s, t);
    match r {
        Err(e) => (Err(e), s),
        Ok(subject) => {
            let (r, t) = consume_of(s, Tok::Word(Token::LeftBrace));
            let s = after(s, t);
            match r {
                Err(e) => (Err(e), s),
                Ok(_open) => {
                    let s = after(s, skip_newlines_of(s));
                    let none = Seq::<MatchArmView>::empty();
                    let (r, t) = match_arms_of(s, none, None);
                    let s = after(s, t);
                    match r {
                        Err(e) => (Err(e), s),
                        Ok(found) => {
                            let (r, t) = consume_of(s, Tok::Word(Token::RightBrace));
                            let s = after(s, t);
                            match r {
                                Err(e) => (Err(e), s),
                                Ok(close) => {
                                    let span = merged(token.span, close.span);
                                    (Ok(Spanned { span: span, item: Ast::Match(MatchExprView { subject: Box::new(subject), arms: found.0, default: found.1 }) }), s)
                                },
                            }
                        },
                    }
                },
            }
        },
    }
}

/// The names in the braces of an `import`.
#[verifier::opaque]
pub open spec fn import_names_of(s: PState, names: Seq<Seq<char>>) -> (Result<Seq<Seq<char>>, Fail>, PState)
    decreases measure(s), 0int,
{
    let start = s;
    if s.sees(Token::RightBrace) {
        (Ok(names), s)
    } else {
        let (r, t) = identifier_of(s);
        let s = after(s, t);
        match r {
            Err(e) => (Err(e), s),
            Ok(name) => {
                let more = names.push(name_in(name.item));
                if s.sees(Token::RightBrace) {
                    (Ok(more), s)
                } else {
                    let (r, t) = consume_of(s, Tok::Word(Token::Comma));
                    let s = after(s, t);
                    match r {
                        Err(e) => (Err(e), s),
                        Ok(_comma) => {
                            if measure(s) < measure(start) {
                                import_names_of(s, more)
                            } else {
                                (Err(stuck(s)), s)
                            }
                        },
                    }
                }
            },
        }
    }
}

/// `import "path" { a, b }` or `import "path" as alias`.
#[verifier::opaque]
pub open spec fn import_decl_of(s: PState, token: Spanned<Tok>) -> (Result<Node, Fail>, PState)
    decreases measure(s), 1int,
{
    let (r, t) = advance_of(s);
    let s = after(s, t);
    match r {
        Err(e) => (Err(e), s),
        Ok(path) => {
            match text_in(path.item) {
                None => {
                    (Err(fail_at(PErr::Other(path_message()), path.span)), s)
                },
                Some(text) => {
                    if s.sees(Token::As) {
                        let (r, t) = advance_of(s);
                        let s = after(s, t);
                        match r {
                            Err(e) => (Err(e), s),
                            Ok(_as) => {
                                let (r, t) = identifier_of(s);
                                let s = after(s, t);
                                match r {
                                    Err(e) => (Err(e), s),
                                    Ok(alias) => {
                                        let span = merged(token.span, alias.span);
                                        (Ok(Spanned { span: span, item: Ast::Import(ImportExprView { path: text, kind: ImportKindView::Qualified(name_in(alias.item)) }) }), s)
                                    },
                                }
                            },
                        }
                    } else {
                        let (r, t) = consume_of(s, Tok::Word(Token::LeftBrace));
                        let s = after(s, t);
                        match r {
                            Err(e) => (Err(e), s),
                            Ok(open) => {
                                let none = Seq::<Seq<char>>::empty();
                                let (r, t) = import_names_of(s, none);
                                let s = after(s, t);
                                match r {
                                    Err(e) => (Err(e), s),
                                    Ok(names) => {
                                        if names.len() == 0 {
                                            (Err(fail_at(PErr::Other(empty_import_message()), open.span)), s)
                                        } else {
                                            let (r, t) = consume_of(s, Tok::Word(Token::RightBrace));
                                            let s = after(s, t);
                                            match r {
                                                Err(e) => (Err(e), s),
                                                Ok(close) => {
                                                    let span = merged(token.span, close.span);
                                                    (Ok(Spanned { span: span, item: Ast::Import(ImportExprView { path: text, kind: ImportKindView::Named(names) }) }), s)
                                                },
                                            }
                                        }
                                    },
                                }
                            },
                        }
                    }
                },
            }
        },
    }
}

/// The field of `target.field`.
#[verifier::opaque]
pub open spec fn field_access_of(s: PState, left: Node) -> (Result<Node, Fail>, PState)
    decreases measure(s), 0int,
{
    let (r, t) = identifier_of(s);
    let s = after(s, t);
    match r {
        Err(e) => (Err(e), s),
        Ok(name) => {
            let span = merged(left.span, name.span);
            (Ok(Spanned { span: span, item: Ast::FieldAccess(FieldAccessExprView { target: Box::new(left), field: name_in(name.item) }) }), s)
        },
    }
}

impl Grammar {
    /// What a token starts.
    pub(crate) fn apply_prefix(
        parser: &mut Parser,
        rule: PrefixRule,
        token: Spanned<Token>,
    ) -> (r: Result<Spanned<Expression>, Spanned<ParseError>>)
        requires
            old(parser)@.ok(),
        ensures
            final(parser)@.ok(),
            measure(final(parser)@) <= measure(old(parser)@),
            (match r { Ok(x) => Ok(node(x)), Err(e) => Err(fail_view(e)) }, final(parser)@) == apply_prefix_of(old(parser)@, rule, tok_view(token)),
        decreases measure(old(parser)@), 14int,
    {
        match rule {
            PrefixRule::Literal => {
                Grammar::literal(parser, token)
            },
            PrefixRule::Unary => {
                Grammar::unary(parser, token)
            },
            PrefixRule::LetBinding => {
                Grammar::let_binding(parser, token)
            },
            PrefixRule::MutPrefix => {
                Grammar::mut_prefix(parser, token)
            },
            PrefixRule::Conditional => {
                Grammar::conditional(parser, token)
            },
            PrefixRule::FuncDecl => {
                Grammar::func_decl(parser, token)
            },
            PrefixRule::ReturnExpr => {
                Grammar::return_expr(parser, token)
            },
            PrefixRule::ForExpr => {
                Grammar::for_expr(parser, token)
            },
            PrefixRule::DataDecl => {
                Grammar::data_decl(parser, token)
            },
            PrefixRule::ErrorDecl => {
                Grammar::error_decl(parser, token)
            },
            PrefixRule::MatchExpr => {
                Grammar::match_expr(parser, token)
            },
            PrefixRule::ImportDecl => {
                Grammar::import_decl(parser, token)
            },
            PrefixRule::Grouping => {
                Grammar::grouping(parser, token)
            },
            PrefixRule::Tuple => {
                Grammar::tuple(parser, token)
            },
            PrefixRule::BlockExpr => {
                Grammar::block_expr(parser, token)
            },
        }
    }

    /// What a token makes of the expression before it.
    pub(crate) fn apply_infix(
        parser: &mut Parser,
        rule: InfixRule,
        token: Spanned<Token>,
        left: Spanned<Expression>,
        precedence: Precedence,
    ) -> (r: Result<Spanned<Expression>, Spanned<ParseError>>)
        requires
            old(parser)@.ok(),
        ensures
            final(parser)@.ok(),
            measure(final(parser)@) <= measure(old(parser)@),
            (match r { Ok(x) => Ok(node(x)), Err(e) => Err(fail_view(e)) }, final(parser)@) == apply_infix_of(old(parser)@, rule, tok_view(token), node(left), precedence),
        decreases measure(old(parser)@), 8int,
    {
        match rule {
            InfixRule::Missing => {
                Err(infix_error(token))
            },
            InfixRule::Binary => {
                Grammar::binary(parser, token, left, precedence)
            },
            InfixRule::Assign => {
                Grammar::assign(parser, left, precedence)
            },
            InfixRule::Range => {
                Grammar::range(parser, left, precedence)
            },
            InfixRule::IsPattern => {
                Grammar::is_pattern(parser, left)
            },
            InfixRule::FieldAccess => {
                Grammar::field_access(parser, left)
            },
            InfixRule::ArrowFunc => {
                Grammar::arrow_func(parser, left)
            },
            InfixRule::TypeAnnotation => {
                Grammar::type_annotation(parser, left)
            },
            InfixRule::Call => {
                Grammar::call(parser, left)
            },
            InfixRule::Index => {
                Grammar::index(parser, left)
            },
            InfixRule::PostfixUnwrap => {
                Grammar::postfix_unwrap(parser, token, left)
            },
            InfixRule::PostfixTry => {
                Grammar::postfix_try(parser, token, left)
            },
            InfixRule::CatchExpr => {
                Grammar::catch_expr(parser, left)
            },
        }
    }

    /// A literal or a name.
    pub fn literal(
        parser: &mut Parser,
        token: Spanned<Token>,
    ) -> (r: Result<Spanned<Expression>, Spanned<ParseError>>)
        requires
            old(parser)@.ok(),
        ensures
            final(parser)@.ok(),
            measure(final(parser)@) <= measure(old(parser)@),
            (match r { Ok(x) => Ok(node(x)), Err(e) => Err(fail_view(e)) }, final(parser)@) == literal_of(old(parser)@, tok_view(token)),
        decreases measure(old(parser)@), 0int,
    {
        proof {
            reveal(literal_of);
        }
        Ok(Spanned { span: token.span, item: Expression::literal(token.item) })
    }

    /// A prefix operator and its operand.
    pub fn unary(parser: &mut Parser, token: Spanned<Token>) -> (r: Result<Spanned<Expression>, Spanned<ParseError>>)
        requires
            old(parser)@.ok(),
        ensures
            final(parser)@.ok(),
            measure(final(parser)@) <= measure(old(parser)@),
            (match r { Ok(x) => Ok(node(x)), Err(e) => Err(fail_view(e)) }, final(parser)@) == unary_of(old(parser)@, tok_view(token)),
        decreases measure(old(parser)@), 1int,
    {
        let expr = parser.expression(Precedence::Unary)?;
        let span = token.span.merge(expr.span);
        Ok(Spanned { span: span, item: Expression::unary(token.item, expr) })
    }

    /// The right operand of an infix operator.
    pub fn binary(
        parser: &mut Parser,
        token: Spanned<Token>,
        left: Spanned<Expression>,
        precedence: Precedence,
    ) -> (r: Result<Spanned<Expression>, Spanned<ParseError>>)
        requires
            old(parser)@.ok(),
        ensures
            final(parser)@.ok(),
            measure(final(parser)@) <= measure(old(parser)@),
            (match r { Ok(x) => Ok(node(x)), Err(e) => Err(fail_view(e)) }, final(parser)@) == binary_of(old(parser)@, tok_view(token), node(left), precedence),
        decreases measure(old(parser)@), 1int,
    {
        let right = parser.expression(precedence.next())?;
        let span = left.span.merge(right.span);
        Ok(Spanned { span: span, item: Expression::binary(token.item, left, right) })
    }

    /// A type after a colon, where there is one.
    fn opt_annotation(parser: &mut Parser) -> (r: Result<Option<Spanned<TypeExpr>>, Spanned<ParseError>>)
        requires
            old(parser)@.ok(),
        ensures
            final(parser)@.ok(),
            measure(final(parser)@) <= measure(old(parser)@),
            (match r { Ok(x) => Ok(opt_type_node(x)), Err(e) => Err(fail_view(e)) }, final(parser)@) == opt_annotation_of(old(parser)@),
        decreases measure(old(parser)@), 7int,
    {
        proof {
            reveal(opt_annotation_of);
        }
        if parser.check(&Token::Colon) {
            let _colon = parser.advance()?;
            let ty = Grammar::type_expr(parser)?;
            Ok(Some(ty))
        } else {
            Ok(None)
        }
    }

    /// The rest of a declaration, after its keyword and its name.
    fn finish_declaration(
        parser: &mut Parser,
        token: Spanned<Token>,
        name: Spanned<Token>,
        mutability: Mutability,
    ) -> (r: Result<Spanned<Expression>, Spanned<ParseError>>)
        requires
            old(parser)@.ok(),
        ensures
            final(parser)@.ok(),
            measure(final(parser)@) <= measure(old(parser)@),
            (match r { Ok(x) => Ok(node(x)), Err(e) => Err(fail_view(e)) }, final(parser)@) == finish_declaration_of(old(parser)@, tok_view(token), tok_view(name), mutability),
        decreases measure(old(parser)@), 8int,
    {
        let ty = Grammar::opt_annotation(parser)?;
        let _eq = parser.consume(&Token::Assign)?;
        parser.skip_newlines();
        let expr = parser.expression(Precedence::Assign)?;
        let span = token.span.merge(expr.span);
        let target = Spanned { span: name.span, item: Expression::literal(name.item) };
        Ok(Spanned { span: span, item: Expression::assign(target, ty, expr, Some(mutability)) })
    }

    /// `let name = value`.
    pub fn let_binding(
        parser: &mut Parser,
        token: Spanned<Token>,
    ) -> (r: Result<Spanned<Expression>, Spanned<ParseError>>)
        requires
            old(parser)@.ok(),
        ensures
            final(parser)@.ok(),
            measure(final(parser)@) <= measure(old(parser)@),
            (match r { Ok(x) => Ok(node(x)), Err(e) => Err(fail_view(e)) }, final(parser)@) == let_binding_of(old(parser)@, tok_view(token)),
        decreases measure(old(parser)@), 9int,
    {
        let name = parser.identifier()?;
        Grammar::finish_declaration(parser, token, name, Mutability::Immutable)
    }

    /// `mut name = value`, or `mut name` as an argument.
    pub fn mut_prefix(
        parser: &mut Parser,
        token: Spanned<Token>,
    ) -> (r: Result<Spanned<Expression>, Spanned<ParseError>>)
        requires
            old(parser)@.ok(),
        ensures
            final(parser)@.ok(),
            measure(final(parser)@) <= measure(old(parser)@),
            (match r { Ok(x) => Ok(node(x)), Err(e) => Err(fail_view(e)) }, final(parser)@) == mut_prefix_of(old(parser)@, tok_view(token)),
        decreases measure(old(parser)@), 9int,
    {
        let name = parser.identifier()?;
        if parser.check(&Token::Colon) || parser.check(&Token::Assign) {
            Grammar::finish_declaration(parser, token, name, Mutability::Mutable)
        } else {
            let span = token.span.merge(name.span);
            let target = Spanned { span: name.span, item: Expression::literal(name.item) };
            Ok(Spanned { span: span, item: Expression::mut_arg(target) })
        }
    }

    /// The value of an assignment to an earlier binding, or to a part of it.
    pub fn assign(
        parser: &mut Parser,
        left: Spanned<Expression>,
        precedence: Precedence,
    ) -> (r: Result<Spanned<Expression>, Spanned<ParseError>>)
        requires
            old(parser)@.ok(),
        ensures
            final(parser)@.ok(),
            measure(final(parser)@) <= measure(old(parser)@),
            (match r { Ok(x) => Ok(node(x)), Err(e) => Err(fail_view(e)) }, final(parser)@) == assign_of(old(parser)@, node(left), precedence),
        decreases measure(old(parser)@), 1int,
    {
        if !is_assignable_place(&left.item) {
            Err(left.to(ParseError::InvalidAssignmentTarget))
        } else {
            parser.skip_newlines();
            let right = parser.expression(precedence)?;
            let span = left.span.merge(right.span);
            Ok(Spanned { span: span, item: Expression::assign(left, None, right, None) })
        }
    }

    /// An expression in parentheses, or the parameters of a lambda.
    pub fn grouping(
        parser: &mut Parser,
        open: Spanned<Token>,
    ) -> (r: Result<Spanned<Expression>, Spanned<ParseError>>)
        requires
            old(parser)@.ok(),
        ensures
            final(parser)@.ok(),
            measure(final(parser)@) <= measure(old(parser)@),
            (match r { Ok(x) => Ok(node(x)), Err(e) => Err(fail_view(e)) }, final(parser)@) == grouping_of(old(parser)@, tok_view(open)),
        decreases measure(old(parser)@), 3int,
    {
        parser.skip_newlines();
        let expr = parser.expression(Precedence::Assign)?;
        parser.skip_newlines();
        if parser.check(&Token::Comma) {
            Grammar::parameter_group(parser, open, expr)
        } else {
            let _close = parser.consume(&Token::RightParen)?;
            Ok(expr)
        }
    }

    /// The rest of `(a, b)`. Only the parameters of a lambda are written so:
    /// before anything else the comma stands where a `)` should.
    fn parameter_group(
        parser: &mut Parser,
        open: Spanned<Token>,
        first: Spanned<Expression>,
    ) -> (r: Result<Spanned<Expression>, Spanned<ParseError>>)
        requires
            old(parser)@.ok(),
        ensures
            final(parser)@.ok(),
            measure(final(parser)@) <= measure(old(parser)@),
            (match r { Ok(x) => Ok(node(x)), Err(e) => Err(fail_view(e)) }, final(parser)@) == parameter_group_of(old(parser)@, tok_view(open), node(first)),
        decreases measure(old(parser)@), 2int,
    {
        if first.item.get_identifier().is_some() && parser.names_ahead() {
            let _comma = parser.advance()?;
            parser.skip_newlines();
            let items = one_node(first);
            let all = parser.list_items(&Token::Comma, &Token::RightParen, items);
            let close = parser.consume(&Token::RightParen)?;
            let span = open.span.merge(close.span);
            Ok(Spanned { span: span, item: Expression::Tuple(all) })
        } else {
            let _close = parser.consume(&Token::RightParen)?;
            Ok(first)
        }
    }

    /// The statements of a block.
    fn block_stmts(
        parser: &mut Parser,
        given: Vec<Spanned<Expression>>,
    ) -> (r: Result<Vec<Spanned<Expression>>, Spanned<ParseError>>)
        requires
            old(parser)@.ok(),
        ensures
            final(parser)@.ok(),
            measure(final(parser)@) <= measure(old(parser)@),
            (match r { Ok(x) => Ok(nodes(x@)), Err(e) => Err(fail_view(e)) }, final(parser)@) == block_stmts_of(old(parser)@, nodes(given@)),
        decreases measure(old(parser)@), 1int,
    {
        let mut stmts = given;
        loop
            invariant
                parser@.ok(),
                measure(parser@) <= measure(old(parser)@),
                block_stmts_of(parser@, nodes(stmts@)) == block_stmts_of(old(parser)@, nodes(given@)),
            decreases measure(parser@),
        {
            let ghost start = parser@;
            if parser.check(&Token::RightBrace) || parser.check(&Token::EOF) {
                return Ok(stmts);
            } else {
                let expr = parser.expression(Precedence::Assign)?;
                let more = with_node(stmts, expr);
                if parser.check(&Token::RightBrace) || parser.check(&Token::EOF) {
                    return Ok(more);
                } else if !parser.check(&Token::Newline) && !parser.check(&Token::Semicolon) {
                    return Err(parser.expected(Token::Newline));
                } else {
                    parser.skip_newlines_and_semicolons();
                    stmts = more;
                }
            }
        }
    }

    /// Statements in braces. A single one stands for itself.
    pub fn block_expr(
        parser: &mut Parser,
        open: Spanned<Token>,
    ) -> (r: Result<Spanned<Expression>, Spanned<ParseError>>)
        requires
            old(parser)@.ok(),
        ensures
            final(parser)@.ok(),
            measure(final(parser)@) <= measure(old(parser)@),
            (match r { Ok(x) => Ok(node(x)), Err(e) => Err(fail_view(e)) }, final(parser)@) == block_expr_of(old(parser)@, tok_view(open)),
        decreases measure(old(parser)@), 2int,
    {
        parser.skip_newlines_and_semicolons();
        let none = Vec::new();
        assert(nodes(none@) =~= Seq::<Node>::empty());
        let stmts = Grammar::block_stmts(parser, none)?;
        let close = parser.consume(&Token::RightBrace)?;
        proof {
        nodes_index(stmts@);
        }
        if stmts.len() == 0 {
            Err(Spanned { span: open.span.merge(close.span), item: ParseError::ExpectedExpression })
        } else if stmts.len() == 1 {
            Ok(only_node(stmts))
        } else {
            let span = open.span.merge(close.span);
            Ok(Spanned { span: span, item: Expression::Block(stmts) })
        }
    }

    /// What follows `else`.
    fn opt_else(parser: &mut Parser, has_else: bool) -> (r: Result<Option<Spanned<Expression>>, Spanned<ParseError>>)
        requires
            old(parser)@.ok(),
        ensures
            final(parser)@.ok(),
            measure(final(parser)@) <= measure(old(parser)@),
            (match r { Ok(x) => Ok(some_node(x)), Err(e) => Err(fail_view(e)) }, final(parser)@) == opt_else_of(old(parser)@, has_else),
        decreases measure(old(parser)@), 1int,
    {
        if has_else {
            let _else = parser.consume(&Token::Else)?;
            parser.skip_newlines();
            let expr = parser.expression(Precedence::Assign)?;
            Ok(Some(expr))
        } else {
            Ok(None)
        }
    }

    /// `if cond then a else b`. A newline before `then` ends the statement; one
    /// before `else` is passed over only if an `else` follows.
    pub fn conditional(
        parser: &mut Parser,
        token: Spanned<Token>,
    ) -> (r: Result<Spanned<Expression>, Spanned<ParseError>>)
        requires
            old(parser)@.ok(),
        ensures
            final(parser)@.ok(),
            measure(final(parser)@) <= measure(old(parser)@),
            (match r { Ok(x) => Ok(node(x)), Err(e) => Err(fail_view(e)) }, final(parser)@) == conditional_of(old(parser)@, tok_view(token)),
        decreases measure(old(parser)@), 2int,
    {
        let cond = parser.expression(Precedence::Assign)?;
        let _then = parser.consume(&Token::Then)?;
        parser.skip_newlines();
        let yes = parser.expression(Precedence::Assign)?;
        let has_else = parser.peek_past_newlines_is(&Token::Else);
        let no = Grammar::opt_else(parser, has_else)?;
        let end = end_of(&yes, &no);
        let span = token.span.merge(end);
        Ok(Spanned { span: span, item: Expression::conditional(cond, yes, no) })
    }

    /// Whether a parameter is `mut`.
    fn opt_mut(parser: &mut Parser) -> (r: Result<bool, Spanned<ParseError>>)
        requires
            old(parser)@.ok(),
        ensures
            final(parser)@.ok(),
            measure(final(parser)@) <= measure(old(parser)@),
            (match r { Ok(x) => Ok(x), Err(e) => Err(fail_view(e)) }, final(parser)@) == opt_mut_of(old(parser)@),
        decreases measure(old(parser)@), 0int,
    {
        proof {
            reveal(opt_mut_of);
        }
        if parser.check(&Token::Mut) {
            let _mut = parser.advance()?;
            Ok(true)
        } else {
            Ok(false)
        }
    }

    /// A comma, where there is one.
    fn opt_comma(parser: &mut Parser) -> (r: Result<(), Spanned<ParseError>>)
        requires
            old(parser)@.ok(),
        ensures
            final(parser)@.ok(),
            measure(final(parser)@) <= measure(old(parser)@),
            (match r { Ok(x) => Ok(()), Err(e) => Err(fail_view(e)) }, final(parser)@) == opt_comma_of(old(parser)@),
        decreases measure(old(parser)@), 0int,
    {
        proof {
            reveal(opt_comma_of);
        }
        parser.skip_newlines();
        if parser.check(&Token::Comma) {
            let _comma = parser.advance()?;
            Ok(())
        } else {
            Ok(())
        }
    }

    /// The parameters of a function.
    fn parameters(parser: &mut Parser, given: Vec<Parameter>) -> (r: Result<Vec<Parameter>, Spanned<ParseError>>)
        requires
            old(parser)@.ok(),
        ensures
            final(parser)@.ok(),
            measure(final(parser)@) <= measure(old(parser)@),
            (match r { Ok(x) => Ok(parameter_views(x@)), Err(e) => Err(fail_view(e)) }, final(parser)@) == parameters_of(old(parser)@, parameter_views(given@)),
        decreases measure(old(parser)@), 8int,
    {
        proof {
            reveal(parameters_of);
        }
        let mut params = given;
        loop
            invariant
                parser@.ok(),
                measure(parser@) <= measure(old(parser)@),
                parameters_of(parser@, parameter_views(params@)) == parameters_of(old(parser)@, parameter_views(given@)),
            decreases measure(parser@),
        {
            proof {
                reveal(parameters_of);
            }
            let ghost start = parser@;
            parser.skip_newlines();
            if parser.check(&Token::RightParen) || parser.check(&Token::EOF) {
                return Ok(params);
            } else {
                let mutable = Grammar::opt_mut(parser)?;
                let name = parser.identifier()?;
                let ty = Grammar::opt_annotation(parser)?;
                let more = with_parameter(params, token_name(&name.item), ty, mutable);
                let _sep = Grammar::opt_comma(parser)?;
                params = more;
            }
        }
    }

    /// `func name(params): Type = body`, which binds the name to a function.
    pub fn func_decl(
        parser: &mut Parser,
        token: Spanned<Token>,
    ) -> (r: Result<Spanned<Expression>, Spanned<ParseError>>)
        requires
            old(parser)@.ok(),
        ensures
            final(parser)@.ok(),
            measure(final(parser)@) <= measure(old(parser)@),
            (match r { Ok(x) => Ok(node(x)), Err(e) => Err(fail_view(e)) }, final(parser)@) == func_decl_of(old(parser)@, tok_view(token)),
        decreases measure(old(parser)@), 9int,
    {
        let name = parser.identifier()?;
        let _open = parser.consume(&Token::LeftParen)?;
        let none = Vec::new();
        assert(parameter_views(none@) =~= Seq::<ParameterView>::empty());
        let params = Grammar::parameters(parser, none)?;
        let _close = parser.consume(&Token::RightParen)?;
        let ret = Grammar::opt_annotation(parser)?;
        let _eq = parser.consume(&Token::Assign)?;
        parser.skip_newlines();
        let body = parser.expression(Precedence::Assign)?;
        let body_span = body.span;
        let func = Spanned { span: body_span, item: Expression::function_with_return(params, body, ret) };
        let target = Spanned { span: name.span, item: Expression::literal(name.item) };
        let span = token.span.merge(body_span);
        Ok(Spanned { span: span, item: Expression::assign(target, None, func, Some(Mutability::Immutable)) })
    }

    /// `return`, with a value if the next token can start one.
    pub fn return_expr(
        parser: &mut Parser,
        token: Spanned<Token>,
    ) -> (r: Result<Spanned<Expression>, Spanned<ParseError>>)
        requires
            old(parser)@.ok(),
        ensures
            final(parser)@.ok(),
            measure(final(parser)@) <= measure(old(parser)@),
            (match r { Ok(x) => Ok(node(x)), Err(e) => Err(fail_view(e)) }, final(parser)@) == return_expr_of(old(parser)@, tok_view(token)),
        decreases measure(old(parser)@), 1int,
    {
        let has_value = parser.rule().prefix.is_some();
        if has_value {
            let value = parser.expression(Precedence::Assign)?;
            let span = token.span.merge(value.span);
            Ok(Spanned { span: span, item: Expression::return_value(Some(value)) })
        } else {
            Ok(Spanned { span: token.span, item: Expression::return_value(None) })
        }
    }

    /// The body of a lambda.
    pub fn arrow_func(
        parser: &mut Parser,
        left: Spanned<Expression>,
    ) -> (r: Result<Spanned<Expression>, Spanned<ParseError>>)
        requires
            old(parser)@.ok(),
        ensures
            final(parser)@.ok(),
            measure(final(parser)@) <= measure(old(parser)@),
            (match r { Ok(x) => Ok(node(x)), Err(e) => Err(fail_view(e)) }, final(parser)@) == arrow_func_of(old(parser)@, node(left)),
        decreases measure(old(parser)@), 1int,
    {
        match lambda_params(&left) {
            Err(e) => {
                Err(e)
            },
            Ok(params) => {
                parser.skip_newlines();
                let body = parser.expression(Precedence::Assign)?;
                let span = left.span.merge(body.span);
                Ok(Spanned { span: span, item: Expression::function(params, body) })
            },
        }
    }

    /// `e?`.
    pub fn postfix_try(
        parser: &mut Parser,
        token: Spanned<Token>,
        left: Spanned<Expression>,
    ) -> (r: Result<Spanned<Expression>, Spanned<ParseError>>)
        requires
            old(parser)@.ok(),
        ensures
            final(parser)@.ok(),
            measure(final(parser)@) <= measure(old(parser)@),
            (match r { Ok(x) => Ok(node(x)), Err(e) => Err(fail_view(e)) }, final(parser)@) == postfix_try_of(old(parser)@, tok_view(token), node(left)),
        decreases measure(old(parser)@), 0int,
    {
        proof {
            reveal(postfix_try_of);
        }
        let span = left.span.merge(token.span);
        Ok(Spanned { span: span, item: Expression::Try(Box::new(left)) })
    }

    /// `e!`.
    pub fn postfix_unwrap(
        parser: &mut Parser,
        token: Spanned<Token>,
        left: Spanned<Expression>,
    ) -> (r: Result<Spanned<Expression>, Spanned<ParseError>>)
        requires
            old(parser)@.ok(),
        ensures
            final(parser)@.ok(),
            measure(final(parser)@) <= measure(old(parser)@),
            (match r { Ok(x) => Ok(node(x)), Err(e) => Err(fail_view(e)) }, final(parser)@) == postfix_unwrap_of(old(parser)@, tok_view(token), node(left)),
        decreases measure(old(parser)@), 0int,
    {
        proof {
            reveal(postfix_unwrap_of);
        }
        let span = left.span.merge(token.span);
        Ok(Spanned { span: span, item: Expression::Unwrap(Box::new(left)) })
    }

    /// The handler of `value catch handler`.
    pub fn catch_expr(
        parser: &mut Parser,
        left: Spanned<Expression>,
    ) -> (r: Result<Spanned<Expression>, Spanned<ParseError>>)
        requires
            old(parser)@.ok(),
        ensures
            final(parser)@.ok(),
            measure(final(parser)@) <= measure(old(parser)@),
            (match r { Ok(x) => Ok(node(x)), Err(e) => Err(fail_view(e)) }, final(parser)@) == catch_expr_of(old(parser)@, node(left)),
        decreases measure(old(parser)@), 1int,
    {
        parser.skip_newlines();
        let handler = parser.expression(Precedence::Assign)?;
        let span = left.span.merge(handler.span);
        Ok(Spanned { span: span, item: Expression::Catch { value: Box::new(left), handler: Box::new(handler) } })
    }

    /// The type of `expr : Type`.
    pub fn type_annotation(
        parser: &mut Parser,
        left: Spanned<Expression>,
    ) -> (r: Result<Spanned<Expression>, Spanned<ParseError>>)
        requires
            old(parser)@.ok(),
        ensures
            final(parser)@.ok(),
            measure(final(parser)@) <= measure(old(parser)@),
            (match r { Ok(x) => Ok(node(x)), Err(e) => Err(fail_view(e)) }, final(parser)@) == type_annotation_of(old(parser)@, node(left)),
        decreases measure(old(parser)@), 7int,
    {
        proof {
            reveal(type_annotation_of);
        }
        let ty = Grammar::type_expr(parser)?;
        let span = left.span.merge(ty.span);
        Ok(Spanned { span: span, item: Expression::annotated(left, ty) })
    }

    /// A type. A function type needs parentheses.
    pub fn type_expr(parser: &mut Parser) -> (r: Result<Spanned<TypeExpr>, Spanned<ParseError>>)
        requires
            old(parser)@.ok(),
        ensures
            final(parser)@.ok(),
            measure(final(parser)@) <= measure(old(parser)@),
            !old(parser)@.at_end() ==> measure(final(parser)@) < measure(old(parser)@),
            (match r { Ok(x) => Ok(type_node(x)), Err(e) => Err(fail_view(e)) }, final(parser)@) == type_expr_of(old(parser)@),
        decreases measure(old(parser)@), 6int,
    {
        proof {
            reveal(type_expr_of);
        }
        let ty = Grammar::type_union(parser)?;
        if parser.check(&Token::Arrow) {
            Err(ty.to(ParseError::FunctionTypeNeedsParens))
        } else {
            Ok(ty)
        }
    }

    /// The further members of a union type.
    fn union_members(
        parser: &mut Parser,
        given: Vec<Spanned<TypeExpr>>,
    ) -> (r: Result<Vec<Spanned<TypeExpr>>, Spanned<ParseError>>)
        requires
            old(parser)@.ok(),
        ensures
            final(parser)@.ok(),
            measure(final(parser)@) <= measure(old(parser)@),
            (match r { Ok(x) => Ok(type_nodes(x@)), Err(e) => Err(fail_view(e)) }, final(parser)@) == union_members_of(old(parser)@, type_nodes(given@)),
        decreases measure(old(parser)@), 4int,
    {
        let mut members = given;
        loop
            invariant
                parser@.ok(),
                measure(parser@) <= measure(old(parser)@),
                union_members_of(parser@, type_nodes(members@)) == union_members_of(old(parser)@, type_nodes(given@)),
            decreases measure(parser@),
        {
            let ghost start = parser@;
            if parser.check(&Token::Pipe) {
                let _pipe = parser.advance()?;
                parser.skip_newlines();
                let ty = Grammar::type_postfix(parser)?;
                members = with_type(members, ty);
            } else {
                return Ok(members);
            }
        }
    }

    /// `A | B`, or a single type.
    fn type_union(parser: &mut Parser) -> (r: Result<Spanned<TypeExpr>, Spanned<ParseError>>)
        requires
            old(parser)@.ok(),
        ensures
            final(parser)@.ok(),
            measure(final(parser)@) <= measure(old(parser)@),
            !old(parser)@.at_end() ==> measure(final(parser)@) < measure(old(parser)@),
            (match r { Ok(x) => Ok(type_node(x)), Err(e) => Err(fail_view(e)) }, final(parser)@) == type_union_of(old(parser)@),
        decreases measure(old(parser)@), 5int,
    {
        let first = Grammar::type_postfix(parser)?;
        if parser.check(&Token::Pipe) {
            let items = one_type(first);
            let members = Grammar::union_members(parser, items)?;
            let span = whole_span(&members);
            Ok(Spanned { span, item: TypeExpr::Union(members) })
        } else {
            Ok(first)
        }
    }

    /// `T?`, as often as it is written.
    fn optionals(parser: &mut Parser, given: Spanned<TypeExpr>) -> (r: Result<Spanned<TypeExpr>, Spanned<ParseError>>)
        requires
            old(parser)@.ok(),
        ensures
            final(parser)@.ok(),
            measure(final(parser)@) <= measure(old(parser)@),
            (match r { Ok(x) => Ok(type_node(x)), Err(e) => Err(fail_view(e)) }, final(parser)@) == optionals_of(old(parser)@, type_node(given)),
        decreases measure(old(parser)@), 0int,
    {
        proof {
            reveal(optionals_of);
        }
        let mut ty = given;
        loop
            invariant
                parser@.ok(),
                measure(parser@) <= measure(old(parser)@),
                optionals_of(parser@, type_node(ty)) == optionals_of(old(parser)@, type_node(given)),
            decreases measure(parser@),
        {
            proof {
                reveal(optionals_of);
            }
            let ghost start = parser@;
            if parser.check(&Token::Question) {
                let q = parser.advance()?;
                let span = ty.span.merge(q.span);
                ty = Spanned { span, item: TypeExpr::Optional(Box::new(ty)) };
            } else {
                return Ok(ty);
            }
        }
    }

    /// A type with the `?` after it.
    fn type_postfix(parser: &mut Parser) -> (r: Result<Spanned<TypeExpr>, Spanned<ParseError>>)
        requires
            old(parser)@.ok(),
        ensures
            final(parser)@.ok(),
            measure(final(parser)@) <= measure(old(parser)@),
            !old(parser)@.at_end() ==> measure(final(parser)@) < measure(old(parser)@),
            (match r { Ok(x) => Ok(type_node(x)), Err(e) => Err(fail_view(e)) }, final(parser)@) == type_postfix_of(old(parser)@),
        decreases measure(old(parser)@), 3int,
    {
        let ty = Grammar::type_atom(parser)?;
        Grammar::optionals(parser, ty)
    }

    /// What follows `->` within a function type; it associates to the right.
    fn type_arrow_tail(parser: &mut Parser) -> (r: Result<Spanned<TypeExpr>, Spanned<ParseError>>)
        requires
            old(parser)@.ok(),
        ensures
            final(parser)@.ok(),
            measure(final(parser)@) <= measure(old(parser)@),
            (match r { Ok(x) => Ok(type_node(x)), Err(e) => Err(fail_view(e)) }, final(parser)@) == type_arrow_tail_of(old(parser)@),
        decreases measure(old(parser)@), 6int,
    {
        let first = Grammar::type_union(parser)?;
        if parser.check(&Token::Arrow) {
            let _arrow = parser.advance()?;
            assert(measure(parser@) < measure(old(parser)@));
            parser.skip_newlines();
            let rest = Grammar::type_arrow_tail(parser)?;
            let span = first.span.merge(rest.span);
            let items = one_type(first);
            Ok(Spanned { span, item: TypeExpr::Func(items, Box::new(rest)) })
        } else {
            Ok(first)
        }
    }

    /// Further types in parentheses.
    fn type_items(
        parser: &mut Parser,
        given: Vec<Spanned<TypeExpr>>,
    ) -> (r: Result<Vec<Spanned<TypeExpr>>, Spanned<ParseError>>)
        requires
            old(parser)@.ok(),
        ensures
            final(parser)@.ok(),
            measure(final(parser)@) <= measure(old(parser)@),
            (match r { Ok(x) => Ok(type_nodes(x@)), Err(e) => Err(fail_view(e)) }, final(parser)@) == type_items_of(old(parser)@, type_nodes(given@)),
        decreases measure(old(parser)@), 6int,
    {
        let mut items = given;
        loop
            invariant
                parser@.ok(),
                measure(parser@) <= measure(old(parser)@),
                type_items_of(parser@, type_nodes(items@)) == type_items_of(old(parser)@, type_nodes(given@)),
            decreases measure(parser@),
        {
            let ghost start = parser@;
            parser.skip_newlines();
            if parser.check(&Token::Comma) {
                let _comma = parser.advance()?;
                parser.skip_newlines();
                let ty = Grammar::type_union(parser)?;
                items = with_type(items, ty);
            } else {
                return Ok(items);
            }
        }
    }

    /// Further arguments of a type.
    fn type_args(
        parser: &mut Parser,
        given: Vec<Spanned<TypeExpr>>,
    ) -> (r: Result<Vec<Spanned<TypeExpr>>, Spanned<ParseError>>)
        requires
            old(parser)@.ok(),
        ensures
            final(parser)@.ok(),
            measure(final(parser)@) <= measure(old(parser)@),
            (match r { Ok(x) => Ok(type_nodes(x@)), Err(e) => Err(fail_view(e)) }, final(parser)@) == type_args_of(old(parser)@, type_nodes(given@)),
        decreases measure(old(parser)@), 6int,
    {
        let mut args = given;
        loop
            invariant
                parser@.ok(),
                measure(parser@) <= measure(old(parser)@),
                type_args_of(parser@, type_nodes(args@)) == type_args_of(old(parser)@, type_nodes(given@)),
            decreases measure(parser@),
        {
            let ghost start = parser@;
            if parser.check(&Token::Comma) {
                let _comma = parser.advance()?;
                let ty = Grammar::type_union(parser)?;
                args = with_type(args, ty);
            } else {
                return Ok(args);
            }
        }
    }

    /// A type in parentheses, or a function type.
    fn paren_type(parser: &mut Parser, open: Spanned<Token>) -> (r: Result<Spanned<TypeExpr>, Spanned<ParseError>>)
        requires
            old(parser)@.ok(),
        ensures
            final(parser)@.ok(),
            measure(final(parser)@) <= measure(old(parser)@),
            (match r { Ok(x) => Ok(type_node(x)), Err(e) => Err(fail_view(e)) }, final(parser)@) == paren_type_of(old(parser)@, tok_view(open)),
        decreases measure(old(parser)@), 7int,
    {
        parser.skip_newlines();
        let first = Grammar::type_union(parser)?;
        let ones = one_type(first);
        let items = Grammar::type_items(parser, ones)?;
        if parser.check(&Token::Arrow) {
            let _arrow = parser.advance()?;
            parser.skip_newlines();
            let result = Grammar::type_arrow_tail(parser)?;
            parser.skip_newlines();
            let close = parser.consume(&Token::RightParen)?;
            let span = open.span.merge(close.span);
            Ok(Spanned { span, item: TypeExpr::Func(items, Box::new(result)) })
        } else {
            let close = parser.consume(&Token::RightParen)?;
            let span = open.span.merge(close.span);
            proof {
            type_nodes_index(items@);
            }
            if items.len() != 1 {
                Err(no_tuple_types(span))
            } else {
                Ok(respan(items, span))
            }
        }
    }

    /// The further parts of a dotted name.
    fn dotted_name(parser: &mut Parser, given: (String, Span)) -> (r: Result<(String, Span), Spanned<ParseError>>)
        requires
            old(parser)@.ok(),
        ensures
            final(parser)@.ok(),
            measure(final(parser)@) <= measure(old(parser)@),
            (match r { Ok(x) => Ok((x.0@, x.1)), Err(e) => Err(fail_view(e)) }, final(parser)@) == dotted_name_of(old(parser)@, (given.0@, given.1)),
        decreases measure(old(parser)@), 0int,
    {
        proof {
            reveal(dotted_name_of);
        }
        let mut name = given;
        loop
            invariant
                parser@.ok(),
                measure(parser@) <= measure(old(parser)@),
                dotted_name_of(parser@, (name.0@, name.1)) == dotted_name_of(old(parser)@, (given.0@, given.1)),
            decreases measure(parser@),
        {
            proof {
                reveal(dotted_name_of);
            }
            let ghost start = parser@;
            if parser.check(&Token::Dot) {
                let _dot = parser.advance()?;
                let part = parser.identifier()?;
                name = dot_part(name, &part);
            } else {
                return Ok(name);
            }
        }
    }

    /// A type by its name, perhaps with arguments.
    fn named_type(parser: &mut Parser) -> (r: Result<Spanned<TypeExpr>, Spanned<ParseError>>)
        requires
            old(parser)@.ok(),
        ensures
            final(parser)@.ok(),
            measure(final(parser)@) <= measure(old(parser)@),
            !old(parser)@.at_end() ==> measure(final(parser)@) < measure(old(parser)@),
            (match r { Ok(x) => Ok(type_node(x)), Err(e) => Err(fail_view(e)) }, final(parser)@) == named_type_of(old(parser)@),
        decreases measure(old(parser)@), 1int,
    {
        let first = parser.identifier()?;
        let start_name = (token_name(&first.item), first.span);
        let name = Grammar::dotted_name(parser, start_name)?;
        if parser.check(&Token::Lt) {
            let _lt = parser.advance()?;
            assert(measure(parser@) < measure(old(parser)@));
            let ty = Grammar::type_union(parser)?;
            let ones = one_type(ty);
            let args = Grammar::type_args(parser, ones)?;
            let close = parser.close_angle()?;
            let span = name.1.merge(close);
            Ok(Spanned { span, item: TypeExpr::Apply(name.0, args) })
        } else {
            Ok(Spanned { span: name.1, item: TypeExpr::Name(name.0) })
        }
    }

    /// A type without operators.
    fn type_atom(parser: &mut Parser) -> (r: Result<Spanned<TypeExpr>, Spanned<ParseError>>)
        requires
            old(parser)@.ok(),
        ensures
            final(parser)@.ok(),
            measure(final(parser)@) <= measure(old(parser)@),
            !old(parser)@.at_end() ==> measure(final(parser)@) < measure(old(parser)@),
            (match r { Ok(x) => Ok(type_node(x)), Err(e) => Err(fail_view(e)) }, final(parser)@) == type_atom_of(old(parser)@),
        decreases measure(old(parser)@), 2int,
    {
        if !parser.check(&Token::LeftParen) {
            Grammar::named_type(parser)
        } else {
            let open = parser.advance()?;
            assert(measure(parser@) < measure(old(parser)@));
            Grammar::paren_type(parser, open)
        }
    }

    /// The names in `<A, B>`.
    fn type_param_names(parser: &mut Parser, given: Vec<String>) -> (r: Result<Vec<String>, Spanned<ParseError>>)
        requires
            old(parser)@.ok(),
        ensures
            final(parser)@.ok(),
            measure(final(parser)@) <= measure(old(parser)@),
            (match r { Ok(x) => Ok(texts(x@)), Err(e) => Err(fail_view(e)) }, final(parser)@) == type_param_names_of(old(parser)@, texts(given@)),
        decreases measure(old(parser)@), 0int,
    {
        proof {
            reveal(type_param_names_of);
        }
        let mut names = given;
        loop
            invariant
                parser@.ok(),
                measure(parser@) <= measure(old(parser)@),
                type_param_names_of(parser@, texts(names@)) == type_param_names_of(old(parser)@, texts(given@)),
            decreases measure(parser@),
        {
            proof {
                reveal(type_param_names_of);
            }
            let ghost start = parser@;
            let name = parser.identifier()?;
            let more = with_name(names, token_name(&name.item));
            if parser.check(&Token::Comma) {
                let _comma = parser.advance()?;
                names = more;
            } else {
                return Ok(more);
            }
        }
    }

    /// `<A, B>` after the name of a declaration.
    fn type_param_list(parser: &mut Parser) -> (r: Result<(Vec<String>, Span), Spanned<ParseError>>)
        requires
            old(parser)@.ok(),
        ensures
            final(parser)@.ok(),
            measure(final(parser)@) <= measure(old(parser)@),
            (match r { Ok(x) => Ok((texts(x.0@), x.1)), Err(e) => Err(fail_view(e)) }, final(parser)@) == type_param_list_of(old(parser)@),
        decreases measure(old(parser)@), 1int,
    {
        proof {
            reveal(type_param_list_of);
        }
        let _lt = parser.consume(&Token::Lt)?;
        let none = Vec::new();
        assert(texts(none@) =~= Seq::<Seq<char>>::empty());
        let names = Grammar::type_param_names(parser, none)?;
        let close = parser.close_angle()?;
        Ok((names, close))
    }

    /// The arguments of a call.
    pub fn call(
        parser: &mut Parser,
        left: Spanned<Expression>,
    ) -> (r: Result<Spanned<Expression>, Spanned<ParseError>>)
        requires
            old(parser)@.ok(),
        ensures
            final(parser)@.ok(),
            measure(final(parser)@) <= measure(old(parser)@),
            (match r { Ok(x) => Ok(node(x)), Err(e) => Err(fail_view(e)) }, final(parser)@) == call_of(old(parser)@, node(left)),
        decreases measure(old(parser)@), 3int,
    {
        let args = parser.expression_list(&Token::Comma, &Token::RightParen);
        let close = parser.consume(&Token::RightParen)?;
        let span = left.span.merge(close.span);
        Ok(Spanned { span: span, item: Expression::call(left, args) })
    }

    /// What stands before `..` in brackets.
    fn lower_bound(parser: &mut Parser) -> (r: Result<Option<Spanned<Expression>>, Spanned<ParseError>>)
        requires
            old(parser)@.ok(),
        ensures
            final(parser)@.ok(),
            measure(final(parser)@) <= measure(old(parser)@),
            (match r { Ok(x) => Ok(some_node(x)), Err(e) => Err(fail_view(e)) }, final(parser)@) == lower_bound_of(old(parser)@),
        decreases measure(old(parser)@), 1int,
    {
        parser.skip_newlines();
        if parser.check(&Token::DotDot) {
            Ok(None)
        } else {
            let expr = parser.expression(Precedence::Range.next())?;
            Ok(Some(expr))
        }
    }

    /// What stands after `..` in brackets.
    fn upper_bound(parser: &mut Parser) -> (r: Result<Option<Spanned<Expression>>, Spanned<ParseError>>)
        requires
            old(parser)@.ok(),
        ensures
            final(parser)@.ok(),
            measure(final(parser)@) <= measure(old(parser)@),
            (match r { Ok(x) => Ok(some_node(x)), Err(e) => Err(fail_view(e)) }, final(parser)@) == upper_bound_of(old(parser)@),
        decreases measure(old(parser)@), 1int,
    {
        parser.skip_newlines();
        if parser.check(&Token::RightBracket) {
            Ok(None)
        } else {
            let expr = parser.expression(Precedence::Range.next())?;
            Ok(Some(expr))
        }
    }

    /// An element or a part of a list.
    pub fn index(
        parser: &mut Parser,
        left: Spanned<Expression>,
    ) -> (r: Result<Spanned<Expression>, Spanned<ParseError>>)
        requires
            old(parser)@.ok(),
        ensures
            final(parser)@.ok(),
            measure(final(parser)@) <= measure(old(parser)@),
            (match r { Ok(x) => Ok(node(x)), Err(e) => Err(fail_view(e)) }, final(parser)@) == index_of(old(parser)@, node(left)),
        decreases measure(old(parser)@), 2int,
    {
        let from = Grammar::lower_bound(parser)?;
        parser.skip_newlines();
        if parser.check(&Token::DotDot) {
            let _dots = parser.advance()?;
            let to = Grammar::upper_bound(parser)?;
            parser.skip_newlines();
            let close = parser.consume(&Token::RightBracket)?;
            let span = left.span.merge(close.span);
            Ok(Spanned { span: span, item: Expression::slice(left, from, to) })
        } else {
            let close = parser.consume(&Token::RightBracket)?;
            let span = left.span.merge(close.span);
            match from {
                Some(at) => {
                    Ok(Spanned { span: span, item: Expression::index(left, at) })
                },
                None => {
                    Err(Spanned { span, item: ParseError::ExpectedExpression })
                },
            }
        }
    }

    /// The end of a range.
    pub fn range(
        parser: &mut Parser,
        left: Spanned<Expression>,
        precedence: Precedence,
    ) -> (r: Result<Spanned<Expression>, Spanned<ParseError>>)
        requires
            old(parser)@.ok(),
        ensures
            final(parser)@.ok(),
            measure(final(parser)@) <= measure(old(parser)@),
            (match r { Ok(x) => Ok(node(x)), Err(e) => Err(fail_view(e)) }, final(parser)@) == range_of(old(parser)@, node(left), precedence),
        decreases measure(old(parser)@), 1int,
    {
        let right = parser.expression(precedence.next())?;
        let span = left.span.merge(right.span);
        Ok(Spanned { span: span, item: Expression::range(left, right) })
    }

    /// Elements in brackets, or a comprehension.
    #[verifier::spinoff_prover]
    pub fn tuple(parser: &mut Parser, open: Spanned<Token>) -> (r: Result<Spanned<Expression>, Spanned<ParseError>>)
        requires
            old(parser)@.ok(),
        ensures
            final(parser)@.ok(),
            measure(final(parser)@) <= measure(old(parser)@),
            (match r { Ok(x) => Ok(node(x)), Err(e) => Err(fail_view(e)) }, final(parser)@) == tuple_of(old(parser)@, tok_view(open)),
        decreases measure(old(parser)@), 4int,
    {
        parser.skip_newlines();
        if parser.check(&Token::For) {
            Grammar::comprehension(parser, open)
        } else {
            let items = parser.expression_list(&Token::Comma, &Token::RightBracket);
            let close = parser.consume(&Token::RightBracket)?;
            let span = open.span.merge(close.span);
            Ok(Spanned { span: span, item: Expression::Tuple(items) })
        }
    }

    /// A loop in brackets.
    fn comprehension(
        parser: &mut Parser,
        open: Spanned<Token>,
    ) -> (r: Result<Spanned<Expression>, Spanned<ParseError>>)
        requires
            old(parser)@.ok(),
        ensures
            final(parser)@.ok(),
            measure(final(parser)@) <= measure(old(parser)@),
            (match r { Ok(x) => Ok(node(x)), Err(e) => Err(fail_view(e)) }, final(parser)@) == comprehension_of(old(parser)@, tok_view(open)),
        decreases measure(old(parser)@), 3int,
    {
        let for_token = parser.advance()?;
        let inner = Grammar::for_expr(parser, for_token)?;
        parser.skip_newlines();
        let close = parser.consume(&Token::RightBracket)?;
        let span = open.span.merge(close.span);
        Ok(Spanned { span: span, item: Expression::comprehension(inner) })
    }

    /// The guard of a loop.
    fn opt_guard(parser: &mut Parser) -> (r: Result<Option<Spanned<Expression>>, Spanned<ParseError>>)
        requires
            old(parser)@.ok(),
        ensures
            final(parser)@.ok(),
            measure(final(parser)@) <= measure(old(parser)@),
            (match r { Ok(x) => Ok(some_node(x)), Err(e) => Err(fail_view(e)) }, final(parser)@) == opt_guard_of(old(parser)@),
        decreases measure(old(parser)@), 1int,
    {
        if parser.check(&Token::If) {
            let _if = parser.advance()?;
            let expr = parser.expression(Precedence::Assign)?;
            Ok(Some(expr))
        } else {
            Ok(None)
        }
    }

    /// `for var in iterable if cond do body`.
    pub fn for_expr(
        parser: &mut Parser,
        token: Spanned<Token>,
    ) -> (r: Result<Spanned<Expression>, Spanned<ParseError>>)
        requires
            old(parser)@.ok(),
        ensures
            final(parser)@.ok(),
            measure(final(parser)@) <= measure(old(parser)@),
            (match r { Ok(x) => Ok(node(x)), Err(e) => Err(fail_view(e)) }, final(parser)@) == for_expr_of(old(parser)@, tok_view(token)),
        decreases measure(old(parser)@), 2int,
    {
        let name = parser.identifier()?;
        let _in = parser.consume(&Token::In)?;
        parser.skip_newlines();
        let iterable = parser.expression(Precedence::Assign)?;
        let cond = Grammar::opt_guard(parser)?;
        let _has_do = parser.peek_past_newlines_is(&Token::Do);
        let _do = parser.consume(&Token::Do)?;
        parser.skip_newlines();
        let body = parser.expression(Precedence::Assign)?;
        let span = token.span.merge(body.span);
        Ok(Spanned { span: span, item: Expression::for_loop(token_name(&name.item), iterable, cond, body) })
    }

    /// The fields of a declaration.
    fn field_items(parser: &mut Parser, given: Vec<FieldDecl>) -> (r: Result<Vec<FieldDecl>, Spanned<ParseError>>)
        requires
            old(parser)@.ok(),
        ensures
            final(parser)@.ok(),
            measure(final(parser)@) <= measure(old(parser)@),
            (match r { Ok(x) => Ok(field_decl_views(x@)), Err(e) => Err(fail_view(e)) }, final(parser)@) == field_items_of(old(parser)@, field_decl_views(given@)),
        decreases measure(old(parser)@), 7int,
    {
        proof {
            reveal(field_items_of);
        }
        let mut fields = given;
        loop
            invariant
                parser@.ok(),
                measure(parser@) <= measure(old(parser)@),
                field_items_of(parser@, field_decl_views(fields@)) == field_items_of(old(parser)@, field_decl_views(given@)),
            decreases measure(parser@),
        {
            proof {
                reveal(field_items_of);
            }
            let ghost start = parser@;
            parser.skip_newlines();
            if parser.check(&Token::RightParen) || parser.check(&Token::EOF) {
                return Ok(fields);
            } else {
                let name = parser.field_name()?;
                let ty = Grammar::type_expr(parser)?;
                let more = with_field(fields, name, ty);
                let _sep = Grammar::opt_comma(parser)?;
                fields = more;
            }
        }
    }

    /// Fields in parentheses: all with names, or all by position.
    fn field_list(parser: &mut Parser) -> (r: Result<(Vec<FieldDecl>, Span), Spanned<ParseError>>)
        requires
            old(parser)@.ok(),
        ensures
            final(parser)@.ok(),
            measure(final(parser)@) <= measure(old(parser)@),
            (match r { Ok(x) => Ok((field_decl_views(x.0@), x.1)), Err(e) => Err(fail_view(e)) }, final(parser)@) == field_list_of(old(parser)@),
        decreases measure(old(parser)@), 8int,
    {
        proof {
            reveal(field_list_of);
        }
        let _open = parser.consume(&Token::LeftParen)?;
        let none = Vec::new();
        assert(field_decl_views(none@) =~= Seq::<FieldDeclView>::empty());
        let fields = Grammar::field_items(parser, none)?;
        let close = parser.consume(&Token::RightParen)?;
        if is_mixed(&fields) {
            Err(mixed_fields(close.span))
        } else {
            Ok((fields, close.span))
        }
    }

    /// Fields, where there are any, and where they end.
    fn opt_fields(parser: &mut Parser, otherwise: Span) -> (r: Result<(Vec<FieldDecl>, Span), Spanned<ParseError>>)
        requires
            old(parser)@.ok(),
        ensures
            final(parser)@.ok(),
            measure(final(parser)@) <= measure(old(parser)@),
            (match r { Ok(x) => Ok((field_decl_views(x.0@), x.1)), Err(e) => Err(fail_view(e)) }, final(parser)@) == opt_fields_of(old(parser)@, otherwise),
        decreases measure(old(parser)@), 9int,
    {
        proof {
            reveal(opt_fields_of);
        }
        if parser.check(&Token::LeftParen) {
            Grammar::field_list(parser)
        } else {
            let none = Vec::new();
            assert(field_decl_views(none@) =~= Seq::<FieldDeclView>::empty());
            Ok((none, otherwise))
        }
    }

    /// Type parameters, where there are any, and where they end.
    fn opt_type_params(parser: &mut Parser, otherwise: Span) -> (r: Result<(Vec<String>, Span), Spanned<ParseError>>)
        requires
            old(parser)@.ok(),
        ensures
            final(parser)@.ok(),
            measure(final(parser)@) <= measure(old(parser)@),
            (match r { Ok(x) => Ok((texts(x.0@), x.1)), Err(e) => Err(fail_view(e)) }, final(parser)@) == opt_type_params_of(old(parser)@, otherwise),
        decreases measure(old(parser)@), 2int,
    {
        proof {
            reveal(opt_type_params_of);
        }
        if parser.check(&Token::Lt) {
            Grammar::type_param_list(parser)
        } else {
            let none = Vec::new();
            assert(texts(none@) =~= Seq::<Seq<char>>::empty());
            Ok((none, otherwise))
        }
    }

    /// The variants of a union.
    fn variant_items(
        parser: &mut Parser,
        given: Vec<VariantDecl>,
    ) -> (r: Result<(Vec<VariantDecl>, Span), Spanned<ParseError>>)
        requires
            old(parser)@.ok(),
        ensures
            final(parser)@.ok(),
            measure(final(parser)@) <= measure(old(parser)@),
            (match r { Ok(x) => Ok((variant_decl_views(x.0@), x.1)), Err(e) => Err(fail_view(e)) }, final(parser)@) == variant_items_of(old(parser)@, variant_decl_views(given@)),
        decreases measure(old(parser)@), 10int,
    {
        proof {
            reveal(variant_items_of);
        }
        let mut variants = given;
        loop
            invariant
                parser@.ok(),
                measure(parser@) <= measure(old(parser)@),
                variant_items_of(parser@, variant_decl_views(variants@)) == variant_items_of(old(parser)@, variant_decl_views(given@)),
            decreases measure(parser@),
        {
            proof {
                reveal(variant_items_of);
            }
            let ghost start = parser@;
            let name = parser.identifier()?;
            let own = Grammar::opt_fields(parser, name.span)?;
            let more = with_variant(variants, token_name(&name.item), own.0);
            let continues = parser.peek_past_newlines_is(&Token::Pipe);
            if continues {
                let _pipe = parser.advance()?;
                parser.skip_newlines();
                variants = more;
            } else {
                return Ok((more, own.1));
            }
        }
    }

    /// The variants of a union, where there are any, and where they end.
    fn opt_variants(
        parser: &mut Parser,
        otherwise: Span,
    ) -> (r: Result<(Vec<VariantDecl>, Span), Spanned<ParseError>>)
        requires
            old(parser)@.ok(),
        ensures
            final(parser)@.ok(),
            measure(final(parser)@) <= measure(old(parser)@),
            (match r { Ok(x) => Ok((variant_decl_views(x.0@), x.1)), Err(e) => Err(fail_view(e)) }, final(parser)@) == opt_variants_of(old(parser)@, otherwise),
        decreases measure(old(parser)@), 11int,
    {
        proof {
            reveal(opt_variants_of);
        }
        let none = Vec::new();
        assert(variant_decl_views(none@) =~= Seq::<VariantDeclView>::empty());
        if parser.check(&Token::Is) {
            let _is = parser.advance()?;
            parser.skip_newlines();
            Grammar::variant_items(parser, none)
        } else {
            Ok((none, otherwise))
        }
    }

    /// The names after `provides`.
    fn provided_names(
        parser: &mut Parser,
        given: Vec<String>,
    ) -> (r: Result<(Vec<String>, Span), Spanned<ParseError>>)
        requires
            old(parser)@.ok(),
        ensures
            final(parser)@.ok(),
            measure(final(parser)@) <= measure(old(parser)@),
            (match r { Ok(x) => Ok((texts(x.0@), x.1)), Err(e) => Err(fail_view(e)) }, final(parser)@) == provided_names_of(old(parser)@, texts(given@)),
        decreases measure(old(parser)@), 0int,
    {
        proof {
            reveal(provided_names_of);
        }
        let mut names = given;
        loop
            invariant
                parser@.ok(),
                measure(parser@) <= measure(old(parser)@),
                provided_names_of(parser@, texts(names@)) == provided_names_of(old(parser)@, texts(given@)),
            decreases measure(parser@),
        {
            proof {
                reveal(provided_names_of);
            }
            let ghost start = parser@;
            let name = parser.identifier()?;
            let more = with_name(names, token_name(&name.item));
            if parser.check(&Token::Comma) {
                let _comma = parser.advance()?;
                names = more;
            } else {
                return Ok((more, name.span));
            }
        }
    }

    /// The traits that a declaration provides, and where they end.
    fn opt_provides(parser: &mut Parser, otherwise: Span) -> (r: Result<(Vec<String>, Span), Spanned<ParseError>>)
        requires
            old(parser)@.ok(),
        ensures
            final(parser)@.ok(),
            measure(final(parser)@) <= measure(old(parser)@),
            (match r { Ok(x) => Ok((texts(x.0@), x.1)), Err(e) => Err(fail_view(e)) }, final(parser)@) == opt_provides_of(old(parser)@, otherwise),
        decreases measure(old(parser)@), 1int,
    {
        proof {
            reveal(opt_provides_of);
        }
        let none = Vec::new();
        assert(texts(none@) =~= Seq::<Seq<char>>::empty());
        if parser.check(&Token::Provides) {
            let _provides = parser.advance()?;
            parser.skip_newlines();
            Grammar::provided_names(parser, none)
        } else {
            Ok((none, otherwise))
        }
    }

    /// A declaration, after its keyword.
    fn data_decl_body(
        parser: &mut Parser,
        token: Spanned<Token>,
        implicit_error: bool,
    ) -> (r: Result<Spanned<Expression>, Spanned<ParseError>>)
        requires
            old(parser)@.ok(),
        ensures
            final(parser)@.ok(),
            measure(final(parser)@) <= measure(old(parser)@),
            (match r { Ok(x) => Ok(node(x)), Err(e) => Err(fail_view(e)) }, final(parser)@) == data_decl_body_of(old(parser)@, tok_view(token), implicit_error),
        decreases measure(old(parser)@), 12int,
    {
        proof {
            reveal(data_decl_body_of);
        }
        let name = parser.identifier()?;
        let type_params = Grammar::opt_type_params(parser, name.span)?;
        let fields = Grammar::opt_fields(parser, type_params.1)?;
        let variants = Grammar::opt_variants(parser, fields.1)?;
        let provides = Grammar::opt_provides(parser, variants.1)?;
        let span = token.span.merge(provides.1);
        let traits = with_error(provides.0, implicit_error);
        Ok(Spanned { span: span, item: Expression::DataDecl(DataDeclExpr { name: token_name(&name.item), type_params: type_params.0, fields: fields.0, variants: variants.0, provides: traits }) })
    }

    /// `data Name(fields) is A(..) | B(..) provides T`.
    pub fn data_decl(
        parser: &mut Parser,
        token: Spanned<Token>,
    ) -> (r: Result<Spanned<Expression>, Spanned<ParseError>>)
        requires
            old(parser)@.ok(),
        ensures
            final(parser)@.ok(),
            measure(final(parser)@) <= measure(old(parser)@),
            (match r { Ok(x) => Ok(node(x)), Err(e) => Err(fail_view(e)) }, final(parser)@) == data_decl_of(old(parser)@, tok_view(token)),
        decreases measure(old(parser)@), 13int,
    {
        proof {
            reveal(data_decl_of);
        }
        Grammar::data_decl_body(parser, token, false)
    }

    /// `error Name(..)`: a declaration that provides `Error`.
    pub fn error_decl(
        parser: &mut Parser,
        token: Spanned<Token>,
    ) -> (r: Result<Spanned<Expression>, Spanned<ParseError>>)
        requires
            old(parser)@.ok(),
        ensures
            final(parser)@.ok(),
            measure(final(parser)@) <= measure(old(parser)@),
            (match r { Ok(x) => Ok(node(x)), Err(e) => Err(fail_view(e)) }, final(parser)@) == error_decl_of(old(parser)@, tok_view(token)),
        decreases measure(old(parser)@), 13int,
    {
        proof {
            reveal(error_decl_of);
        }
        Grammar::data_decl_body(parser, token, true)
    }

    /// The names that a pattern binds.
    fn bind_names(parser: &mut Parser, given: Vec<String>) -> (r: Result<Vec<String>, Spanned<ParseError>>)
        requires
            old(parser)@.ok(),
        ensures
            final(parser)@.ok(),
            measure(final(parser)@) <= measure(old(parser)@),
            (match r { Ok(x) => Ok(texts(x@)), Err(e) => Err(fail_view(e)) }, final(parser)@) == bind_names_of(old(parser)@, texts(given@)),
        decreases measure(old(parser)@), 1int,
    {
        proof {
            reveal(bind_names_of);
        }
        let mut binds = given;
        loop
            invariant
                parser@.ok(),
                measure(parser@) <= measure(old(parser)@),
                bind_names_of(parser@, texts(binds@)) == bind_names_of(old(parser)@, texts(given@)),
            decreases measure(parser@),
        {
            proof {
                reveal(bind_names_of);
            }
            let ghost start = parser@;
            parser.skip_newlines();
            if parser.check(&Token::RightParen) || parser.check(&Token::EOF) {
                return Ok(binds);
            } else {
                let name = parser.identifier()?;
                let more = with_name(binds, token_name(&name.item));
                let _sep = Grammar::opt_comma(parser)?;
                binds = more;
            }
        }
    }

    /// The rest of a pattern, after the name of its variant.
    fn pattern_binds(
        parser: &mut Parser,
        path: Option<String>,
        variant: String,
        first: Span,
        end: Span,
    ) -> (r: Result<(Pattern, Span), Spanned<ParseError>>)
        requires
            old(parser)@.ok(),
        ensures
            final(parser)@.ok(),
            measure(final(parser)@) <= measure(old(parser)@),
            (match r { Ok(x) => Ok((pattern_view(x.0), x.1)), Err(e) => Err(fail_view(e)) }, final(parser)@) == pattern_binds_of(old(parser)@, opt_text(path), variant@, first, end),
        decreases measure(old(parser)@), 2int,
    {
        proof {
            reveal(pattern_binds_of);
        }
        let none = Vec::new();
        assert(texts(none@) =~= Seq::<Seq<char>>::empty());
        if parser.check(&Token::LeftParen) {
            let _open = parser.advance()?;
            let binds = Grammar::bind_names(parser, none)?;
            let close = parser.consume(&Token::RightParen)?;
            Ok((Pattern { path, variant, binds, resolved_member: None }, first.merge(close.span)))
        } else {
            Ok((Pattern { path, variant, binds: none, resolved_member: None }, first.merge(end)))
        }
    }

    /// A pattern and its place.
    fn pattern(parser: &mut Parser) -> (r: Result<(Pattern, Span), Spanned<ParseError>>)
        requires
            old(parser)@.ok(),
        ensures
            final(parser)@.ok(),
            measure(final(parser)@) <= measure(old(parser)@),
            (match r { Ok(x) => Ok((pattern_view(x.0), x.1)), Err(e) => Err(fail_view(e)) }, final(parser)@) == pattern_of(old(parser)@),
        decreases measure(old(parser)@), 3int,
    {
        proof {
            reveal(pattern_of);
        }
        let first = parser.identifier()?;
        if parser.check(&Token::Dot) {
            let _dot = parser.advance()?;
            let second = parser.identifier()?;
            Grammar::pattern_binds(parser, Some(token_name(&first.item)), token_name(&second.item), first.span, second.span)
        } else {
            Grammar::pattern_binds(parser, None, token_name(&first.item), first.span, first.span)
        }
    }

    /// The pattern of `subject is pattern`.
    pub fn is_pattern(
        parser: &mut Parser,
        left: Spanned<Expression>,
    ) -> (r: Result<Spanned<Expression>, Spanned<ParseError>>)
        requires
            old(parser)@.ok(),
        ensures
            final(parser)@.ok(),
            measure(final(parser)@) <= measure(old(parser)@),
            (match r { Ok(x) => Ok(node(x)), Err(e) => Err(fail_view(e)) }, final(parser)@) == is_pattern_of(old(parser)@, node(left)),
        decreases measure(old(parser)@), 4int,
    {
        proof {
            reveal(is_pattern_of);
        }
        parser.skip_newlines();
        let found = Grammar::pattern(parser)?;
        let span = left.span.merge(found.1);
        Ok(Spanned { span: span, item: Expression::is_pattern(left, found.0) })
    }

    /// The guard of an arm.
    fn opt_arm_guard(parser: &mut Parser) -> (r: Result<Option<Spanned<Expression>>, Spanned<ParseError>>)
        requires
            old(parser)@.ok(),
        ensures
            final(parser)@.ok(),
            measure(final(parser)@) <= measure(old(parser)@),
            (match r { Ok(x) => Ok(some_node(x)), Err(e) => Err(fail_view(e)) }, final(parser)@) == opt_arm_guard_of(old(parser)@),
        decreases measure(old(parser)@), 1int,
    {
        if parser.check(&Token::And) {
            let _and = parser.advance()?;
            let expr = parser.expression(Precedence::Assign)?;
            Ok(Some(expr))
        } else {
            Ok(None)
        }
    }

    /// `is pattern and guard then body`.
    fn match_arm(parser: &mut Parser) -> (r: Result<MatchArm, Spanned<ParseError>>)
        requires
            old(parser)@.ok(),
        ensures
            final(parser)@.ok(),
            measure(final(parser)@) <= measure(old(parser)@),
            (match r { Ok(x) => Ok(match_arm_view(x)), Err(e) => Err(fail_view(e)) }, final(parser)@) == match_arm_of(old(parser)@),
        decreases measure(old(parser)@), 4int,
    {
        let _is = parser.consume(&Token::Is)?;
        parser.skip_newlines();
        let found = Grammar::pattern(parser)?;
        let guard = Grammar::opt_arm_guard(parser)?;
        let _then = parser.consume(&Token::Then)?;
        parser.skip_newlines();
        let body = parser.expression(Precedence::Assign)?;
        Ok(new_arm(found.0, guard, body))
    }

    /// `else body`.
    fn match_default(parser: &mut Parser) -> (r: Result<Spanned<Expression>, Spanned<ParseError>>)
        requires
            old(parser)@.ok(),
        ensures
            final(parser)@.ok(),
            measure(final(parser)@) <= measure(old(parser)@),
            (match r { Ok(x) => Ok(node(x)), Err(e) => Err(fail_view(e)) }, final(parser)@) == match_default_of(old(parser)@),
        decreases measure(old(parser)@), 1int,
    {
        let _else = parser.advance()?;
        parser.skip_newlines();
        let body = parser.expression(Precedence::Assign)?;
        Ok(body)
    }

    /// The arms of a `match`; the last `else` counts.
    fn match_arms(
        parser: &mut Parser,
        given_arms: Vec<MatchArm>,
        given_default: Option<ExprRef>,
    ) -> (r: Result<(Vec<MatchArm>, Option<ExprRef>), Spanned<ParseError>>)
        requires
            old(parser)@.ok(),
        ensures
            final(parser)@.ok(),
            measure(final(parser)@) <= measure(old(parser)@),
            (match r { Ok(x) => Ok((match_arm_views(x.0@), opt_node(x.1))), Err(e) => Err(fail_view(e)) }, final(parser)@) == match_arms_of(old(parser)@, match_arm_views(given_arms@), opt_node(given_default)),
        decreases measure(old(parser)@), 5int,
    {
        let mut arms = given_arms;
        let mut default = given_default;
        loop
            invariant
                parser@.ok(),
                measure(parser@) <= measure(old(parser)@),
                match_arms_of(parser@, match_arm_views(arms@), opt_node(default)) == match_arms_of(old(parser)@, match_arm_views(given_arms@), opt_node(given_default)),
            decreases measure(parser@),
        {
            let ghost start = parser@;
            if parser.check(&Token::RightBrace) || parser.check(&Token::EOF) {
                return Ok((arms, default));
            } else if parser.check(&Token::Else) {
                let body = Grammar::match_default(parser)?;
                parser.skip_newlines();
                default = Some(Box::new(body));
            } else {
                let arm = Grammar::match_arm(parser)?;
                parser.skip_newlines();
                arms = with_arm(arms, arm);
            }
        }
    }

    /// `match subject { is P then e ... else e }`.
    pub fn match_expr(
        parser: &mut Parser,
        token: Spanned<Token>,
    ) -> (r: Result<Spanned<Expression>, Spanned<ParseError>>)
        requires
            old(parser)@.ok(),
        ensures
            final(parser)@.ok(),
            measure(final(parser)@) <= measure(old(parser)@),
            (match r { Ok(x) => Ok(node(x)), Err(e) => Err(fail_view(e)) }, final(parser)@) == match_expr_of(old(parser)@, tok_view(token)),
        decreases measure(old(parser)@), 6int,
    {
        let subject = parser.expression(Precedence::Assign)?;
        let _open = parser.consume(&Token::LeftBrace)?;
        parser.skip_newlines();
        let none = Vec::new();
        assert(match_arm_views(none@) =~= Seq::<MatchArmView>::empty());
        let found = Grammar::match_arms(parser, none, None)?;
        let close = parser.consume(&Token::RightBrace)?;
        let span = token.span.merge(close.span);
        Ok(Spanned { span: span, item: new_match(subject, found.0, found.1) })
    }

    /// The names in the braces of an `import`.
    fn import_names(parser: &mut Parser, given: Vec<String>) -> (r: Result<Vec<String>, Spanned<ParseError>>)
        requires
            old(parser)@.ok(),
        ensures
            final(parser)@.ok(),
            measure(final(parser)@) <= measure(old(parser)@),
            (match r { Ok(x) => Ok(texts(x@)), Err(e) => Err(fail_view(e)) }, final(parser)@) == import_names_of(old(parser)@, texts(given@)),
        decreases measure(old(parser)@), 0int,
    {
        proof {
            reveal(import_names_of);
        }
        let mut names = given;
        loop
            invariant
                parser@.ok(),
                measure(parser@) <= measure(old(parser)@),
                import_names_of(parser@, texts(names@)) == import_names_of(old(parser)@, texts(given@)),
            decreases measure(parser@),
        {
            proof {
                reveal(import_names_of);
            }
            let ghost start = parser@;
            if parser.check(&Token::RightBrace) {
                return Ok(names);
            } else {
                let name = parser.identifier()?;
                let more = with_name(names, token_name(&name.item));
                if parser.check(&Token::RightBrace) {
                    return Ok(more);
                } else {
                    let _comma = parser.consume(&Token::Comma)?;
                    names = more;
                }
            }
        }
    }

    /// `import "path" { a, b }` or `import "path" as alias`.
    pub fn import_decl(
        parser: &mut Parser,
        token: Spanned<Token>,
    ) -> (r: Result<Spanned<Expression>, Spanned<ParseError>>)
        requires
            old(parser)@.ok(),
        ensures
            final(parser)@.ok(),
            measure(final(parser)@) <= measure(old(parser)@),
            (match r { Ok(x) => Ok(node(x)), Err(e) => Err(fail_view(e)) }, final(parser)@) == import_decl_of(old(parser)@, tok_view(token)),
        decreases measure(old(parser)@), 1int,
    {
        proof {
            reveal(import_decl_of);
        }
        let path = parser.advance()?;
        match string_in(&path.item) {
            None => {
                Err(no_module_path(path.span))
            },
            Some(text) => {
                if parser.check(&Token::As) {
                    let _as = parser.advance()?;
                    let alias = parser.identifier()?;
                    let span = token.span.merge(alias.span);
                    Ok(Spanned { span: span, item: Expression::Import(ImportExpr { path: text, kind: ImportKind::Qualified(token_name(&alias.item)) }) })
                } else {
                    let open = parser.consume(&Token::LeftBrace)?;
                    let none = Vec::new();
                    assert(texts(none@) =~= Seq::<Seq<char>>::empty());
                    let names = Grammar::import_names(parser, none)?;
                    if names.len() == 0 {
                        Err(no_import_names(open.span))
                    } else {
                        let close = parser.consume(&Token::RightBrace)?;
                        let span = token.span.merge(close.span);
                        Ok(Spanned { span: span, item: Expression::Import(ImportExpr { path: text, kind: ImportKind::Named(names) }) })
                    }
                }
            },
        }
    }

    /// The field of `target.field`.
    pub fn field_access(
        parser: &mut Parser,
        left: Spanned<Expression>,
    ) -> (r: Result<Spanned<Expression>, Spanned<ParseError>>)
        requires
            old(parser)@.ok(),
        ensures
            final(parser)@.ok(),
            measure(final(parser)@) <= measure(old(parser)@),
            (match r { Ok(x) => Ok(node(x)), Err(e) => Err(fail_view(e)) }, final(parser)@) == field_access_of(old(parser)@, node(left)),
        decreases measure(old(parser)@), 0int,
    {
        proof {
            reveal(field_access_of);
        }
        let name = parser.identifier()?;
        let span = left.span.merge(name.span);
        Ok(Spanned { span: span, item: Expression::field_access(left, token_name(&name.item)) })
    }
}

} // verus!
