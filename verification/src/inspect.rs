//! How syntax trees print for inspection: every part by its name.
use crate::expression::{
    field_decl_view, field_decl_views, field_decl_views_index, import_kind_view, match_arm_view, match_arm_views,
    match_arm_views_index, node, nodes, nodes_index, opt_node, opt_text, parameter_view, parameter_views,
    parameter_views_index, pattern_view, variant_decl_view, variant_decl_views, variant_decl_views_index,
    AnnotatedExpr, AnnotatedExprView, AssignExpr, AssignExprView, BinaryExpr, BinaryExprView, CallExpr, CallExprView,
    ConditionalExpr, ConditionalExprView, DataDeclExpr, DataDeclExprView, FieldAccessExpr, FieldAccessExprView,
    FieldDecl, FieldDeclView, ForLoopExpr, ForLoopExprView, FunctionExpr, FunctionExprView, ImportExpr,
    ImportExprView, IndexExpr, IndexExprView, IsPatternExpr, IsPatternExprView, LiteralExpr, LiteralExprView,
    MatchArm, MatchArmView, MatchExpr, MatchExprView, Parameter, ParameterView, Pattern, PatternView, RangeExpr,
    RangeExprView, SliceExpr, SliceExprView, UnaryExpr, UnaryExprView, VariantDecl, VariantDeclView,
    annotated_expr_view, assign_expr_view, binary_expr_view, call_expr_view, conditional_expr_view,
    data_decl_expr_view, field_access_expr_view, for_loop_expr_view, function_expr_view, import_expr_view,
    index_expr_view, is_pattern_expr_view, literal_expr_view, match_expr_view, range_expr_view, slice_expr_view,
    unary_expr_view, Ast, ExprRef, Expression, ImportKind, ImportKindView, Mutability, Node,
};
use crate::number::{inspected, push_inspected};
use crate::text::{decimal, owned, push_decimal, texts};
use crate::tokens::{push_signed, signed, Position, Span, Spanned, Tok, Token};
use crate::type_expr::{opt_type_node, type_node, type_nodes, type_nodes_index, TypeAst, TypeExpr, TypeNode};
use vstd::prelude::*;
use vstd::string::StringExecFns;

verus! {

/// What `{:?}` makes of a string.
pub uninterp spec fn str_debug(s: Seq<char>) -> Seq<char>;

/// The `Debug` form of `str`: the text in quotes, with what is not printable
/// escaped. Which characters those are is not stated.
#[verifier::external_body]
fn debug_text(s: &str) -> (r: String)
    ensures
        r@ == str_debug(s@),
{
    format!("{:?}", s)
}

pub(crate) fn push_str(out: &mut String, s: &str)
    ensures
        final(out)@ == old(out)@ + str_debug(s@),
{
    let t = debug_text(s);
    out.append(t.as_str());
}

pub open spec fn word_name(t: Token) -> Seq<char> {
    match t {
        Token::True => "True"@,
        Token::False => "False"@,
        Token::NoneLit => "None"@,
        Token::Inf => "Inf"@,
        Token::Nan => "Nan"@,
        Token::Plus => "Plus"@,
        Token::Minus => "Minus"@,
        Token::Not => "Not"@,
        Token::Star => "Star"@,
        Token::Slash => "Slash"@,
        Token::Let => "Let"@,
        Token::Mut => "Mut"@,
        Token::Assign => "Assign"@,
        Token::EqEq => "EqEq"@,
        Token::NotEq => "NotEq"@,
        Token::Lt => "Lt"@,
        Token::Gt => "Gt"@,
        Token::LtEq => "LtEq"@,
        Token::GtEq => "GtEq"@,
        Token::DotDot => "DotDot"@,
        Token::Or => "Or"@,
        Token::And => "And"@,
        Token::If => "If"@,
        Token::Then => "Then"@,
        Token::Else => "Else"@,
        Token::Func => "Func"@,
        Token::Return => "Return"@,
        Token::For => "For"@,
        Token::In => "In"@,
        Token::Do => "Do"@,
        Token::Data => "Data"@,
        Token::Annotation => "Annotation"@,
        Token::Error => "Error"@,
        Token::Trait => "Trait"@,
        Token::Provides => "Provides"@,
        Token::Is => "Is"@,
        Token::Match => "Match"@,
        Token::Pipe => "Pipe"@,
        Token::Import => "Import"@,
        Token::As => "As"@,
        Token::Dot => "Dot"@,
        Token::Arrow => "Arrow"@,
        Token::Colon => "Colon"@,
        Token::LeftParen => "LeftParen"@,
        Token::LeftBracket => "LeftBracket"@,
        Token::LeftBrace => "LeftBrace"@,
        Token::RightParen => "RightParen"@,
        Token::RightBracket => "RightBracket"@,
        Token::RightBrace => "RightBrace"@,
        Token::Comma => "Comma"@,
        Token::Exclamation => "Exclamation"@,
        Token::Question => "Question"@,
        Token::Semicolon => "Semicolon"@,
        Token::Hash => "Hash"@,
        Token::Catch => "Catch"@,
        Token::Newline => "Newline"@,
        Token::EOF => "EOF"@,
        _ => Seq::empty(),
    }
}

fn name_of_word(t: &Token) -> (r: String)
    ensures
        r@ == word_name(*t),
{
    match t {
        Token::True => owned("True"),
        Token::False => owned("False"),
        Token::NoneLit => owned("None"),
        Token::Inf => owned("Inf"),
        Token::Nan => owned("Nan"),
        Token::Plus => owned("Plus"),
        Token::Minus => owned("Minus"),
        Token::Not => owned("Not"),
        Token::Star => owned("Star"),
        Token::Slash => owned("Slash"),
        Token::Let => owned("Let"),
        Token::Mut => owned("Mut"),
        Token::Assign => owned("Assign"),
        Token::EqEq => owned("EqEq"),
        Token::NotEq => owned("NotEq"),
        Token::Lt => owned("Lt"),
        Token::Gt => owned("Gt"),
        Token::LtEq => owned("LtEq"),
        Token::GtEq => owned("GtEq"),
        Token::DotDot => owned("DotDot"),
        Token::Or => owned("Or"),
        Token::And => owned("And"),
        Token::If => owned("If"),
        Token::Then => owned("Then"),
        Token::Else => owned("Else"),
        Token::Func => owned("Func"),
        Token::Return => owned("Return"),
        Token::For => owned("For"),
        Token::In => owned("In"),
        Token::Do => owned("Do"),
        Token::Data => owned("Data"),
        Token::Annotation => owned("Annotation"),
        Token::Error => owned("Error"),
        Token::Trait => owned("Trait"),
        Token::Provides => owned("Provides"),
        Token::Is => owned("Is"),
        Token::Match => owned("Match"),
        Token::Pipe => owned("Pipe"),
        Token::Import => owned("Import"),
        Token::As => owned("As"),
        Token::Dot => owned("Dot"),
        Token::Arrow => owned("Arrow"),
        Token::Colon => owned("Colon"),
        Token::LeftParen => owned("LeftParen"),
        Token::LeftBracket => owned("LeftBracket"),
        Token::LeftBrace => owned("LeftBrace"),
        Token::RightParen => owned("RightParen"),
        Token::RightBracket => owned("RightBracket"),
        Token::RightBrace => owned("RightBrace"),
        Token::Comma => owned("Comma"),
        Token::Exclamation => owned("Exclamation"),
        Token::Question => owned("Question"),
        Token::Semicolon => owned("Semicolon"),
        Token::Hash => owned("Hash"),
        Token::Catch => owned("Catch"),
        Token::Newline => owned("Newline"),
        Token::EOF => owned("EOF"),
        _ => {
            let r = String::new();
            assert(r@ =~= Seq::<char>::empty());
            r
        },
    }
}

/// Three pieces put one after the other are put as one.
proof fn in_three(p: Seq<char>, a: Seq<char>, b: Seq<char>, c: Seq<char>)
    ensures
        p + a + b + c == p + (a + b + c),
{
    assert(p + a + b + c =~= p + (a + b + c));
}

pub open spec fn debug_tok(v: Tok) -> Seq<char> {
    match v {
        Tok::Float(s) => "Float("@ + inspected(s) + ")"@,
        Tok::Int(n) => "Int("@ + signed(n as int) + ")"@,
        Tok::Text(s) => "String("@ + str_debug(s) + ")"@,
        Tok::Name(s) => "Identifier("@ + str_debug(s) + ")"@,
        Tok::Word(t) => word_name(t),
    }
}

fn push_tok(out: &mut String, x: &Token)
    ensures
        final(out)@ == old(out)@ + debug_tok(x@),
{
    let ghost before = out@;
    match x {
        Token::Float(s) => {
            out.append("Float(");
            push_inspected(out, s.as_str());
            out.append(")");
        },
        Token::Int(n) => {
            out.append("Int(");
            push_signed(out, *n);
            out.append(")");
        },
        Token::String(s) => {
            out.append("String(");
            push_str(out, s.as_str());
            out.append(")");
        },
        Token::Identifier(s) => {
            out.append("Identifier(");
            push_str(out, s.as_str());
            out.append(")");
        },
        other => {
            let name = name_of_word(other);
            out.append(name.as_str());
        },
    }
    assert(out@ =~= before + debug_tok(x@));
}

pub open spec fn debug_bool(v: bool) -> Seq<char> {
    if v {
        "true"@
    } else {
        "false"@
    }
}

fn push_bool(out: &mut String, x: bool)
    ensures
        final(out)@ == old(out)@ + debug_bool(x),
{
    if x {
        out.append("true");
    } else {
        out.append("false");
    }
}

pub open spec fn debug_opt_usize(v: Option<usize>) -> Seq<char> {
    match v {
        Some(n) => "Some("@ + decimal(n as nat) + ")"@,
        None => "None"@,
    }
}

fn push_opt_usize(out: &mut String, x: Option<usize>)
    ensures
        final(out)@ == old(out)@ + debug_opt_usize(x),
{
    let ghost before = out@;
    match x {
        Some(n) => {
            out.append("Some(");
            push_decimal(out, n as u64);
            out.append(")");
        },
        None => {
            out.append("None");
        },
    }
    assert(out@ =~= before + debug_opt_usize(x));
}

pub open spec fn debug_opt_name(v: Option<Seq<char>>) -> Seq<char> {
    match v {
        Some(s) => "Some("@ + str_debug(s) + ")"@,
        None => "None"@,
    }
}

fn push_opt_name(out: &mut String, x: &Option<String>)
    ensures
        final(out)@ == old(out)@ + debug_opt_name(opt_text(*x)),
{
    let ghost before = out@;
    match x {
        Some(s) => {
            out.append("Some(");
            push_str(out, s.as_str());
            out.append(")");
        },
        None => {
            out.append("None");
        },
    }
    assert(out@ =~= before + debug_opt_name(opt_text(*x)));
}

pub open spec fn debug_mut(v: Mutability) -> Seq<char> {
    match v {
        Mutability::Immutable => "Immutable"@,
        Mutability::Mutable => "Mutable"@,
    }
}

pub open spec fn debug_opt_mut(v: Option<Mutability>) -> Seq<char> {
    match v {
        Some(m) => "Some("@ + debug_mut(m) + ")"@,
        None => "None"@,
    }
}

fn push_opt_mut(out: &mut String, x: Option<Mutability>)
    ensures
        final(out)@ == old(out)@ + debug_opt_mut(x),
{
    let ghost before = out@;
    match x {
        Some(m) => {
            out.append("Some(");
            match m {
                Mutability::Immutable => {
                    out.append("Immutable");
                },
                Mutability::Mutable => {
                    out.append("Mutable");
                },
            }
            out.append(")");
        },
        None => {
            out.append("None");
        },
    }
    assert(out@ =~= before + debug_opt_mut(x));
}

pub open spec fn debug_position(v: Position) -> Seq<char> {
    "Position { line: "@ + decimal(v.line as nat) + ", col: "@ + decimal(v.col as nat) + " }"@
}

fn push_position(out: &mut String, x: Position)
    ensures
        final(out)@ == old(out)@ + debug_position(x),
{
    let ghost before = out@;
    out.append("Position { line: ");
    push_decimal(out, x.line as u64);
    out.append(", col: ");
    push_decimal(out, x.col as u64);
    out.append(" }");
    assert(out@ =~= before + debug_position(x));
}

pub open spec fn debug_span(v: Span) -> Seq<char> {
    "Span { start: "@ + debug_position(v.start) + ", end: "@ + debug_position(v.end) + " }"@
}

fn push_span(out: &mut String, x: Span)
    ensures
        final(out)@ == old(out)@ + debug_span(x),
{
    let ghost before = out@;
    out.append("Span { start: ");
    push_position(out, x.start);
    out.append(", end: ");
    push_position(out, x.end);
    out.append(" }");
    assert(out@ =~= before + debug_span(x));
}

pub open spec fn debug_names_inner(v: Seq<Seq<char>>) -> Seq<char>
    decreases v,
{
    if v.len() == 0 {
        Seq::empty()
    } else if v.len() == 1 {
        str_debug(v.last())
    } else {
        debug_names_inner(v.drop_last()) + ", "@ + str_debug(v.last())
    }
}

pub open spec fn debug_names(v: Seq<Seq<char>>) -> Seq<char> {
    "["@ + debug_names_inner(v) + "]"@
}

fn push_names(out: &mut String, x: &Vec<String>)
    ensures
        final(out)@ == old(out)@ + debug_names(texts(x@)),
{
    let ghost before = out@;
    let ghost v = texts(x@);
    out.append("[");
    let mut i: usize = 0;
    assert(out@ =~= before + "["@ + debug_names_inner(v.take(0)));
    while i < x.len()
        invariant
            i <= x.len() == v.len(),
            v == texts(x@),
            out@ == before + "["@ + debug_names_inner(v.take(i as int)),
        decreases x.len() - i,
    {
        if i > 0 {
            out.append(", ");
        }
        push_str(out, x[i].as_str());
        assert(v.take(i + 1).drop_last() =~= v.take(i as int));
        assert(v.take(i + 1).last() == x@[i as int]@);
        assert(out@ =~= before + "["@ + debug_names_inner(v.take(i + 1)));
        i = i + 1;
    }
    assert(v.take(i as int) =~= v);
    out.append("]");
    assert(out@ =~= before + debug_names(v));
}

pub open spec fn debug_type(v: TypeAst) -> Seq<char>
    decreases v, 0int,
{
    match v {
        TypeAst::Name(name) => "Name("@ + str_debug(name) + ")"@,
        TypeAst::Apply(name, args) => "Apply("@ + str_debug(name) + ", "@ + debug_types(args) + ")"@,
        TypeAst::Union(members) => "Union("@ + debug_types(members) + ")"@,
        TypeAst::Optional(inner) => "Optional("@ + debug_type_node(*inner) + ")"@,
        TypeAst::Func(params, result) => "Func("@ + debug_types(params) + ", "@ + debug_type_node(*result) + ")"@,
    }
}

fn push_type(out: &mut String, x: &TypeExpr)
    ensures
        final(out)@ == old(out)@ + debug_type(x@),
    decreases x, 0int,
{
    let ghost before = out@;
    match x {
        TypeExpr::Name(name) => {
            out.append("Name(");
            push_str(out, name.as_str());
        },
        TypeExpr::Apply(name, args) => {
            out.append("Apply(");
            push_str(out, name.as_str());
            out.append(", ");
            push_types(out, args);
        },
        TypeExpr::Union(members) => {
            out.append("Union(");
            push_types(out, members);
        },
        TypeExpr::Optional(inner) => {
            out.append("Optional(");
            push_type_node(out, inner);
        },
        TypeExpr::Func(params, result) => {
            out.append("Func(");
            push_types(out, params);
            out.append(", ");
            push_type_node(out, result);
        },
    }
    out.append(")");
    assert(out@ =~= before + debug_type(x@));
}

pub open spec fn debug_type_node(v: TypeNode) -> Seq<char>
    decreases v, 0int,
{
    "Spanned { span: "@ + debug_span(v.span) + ", item: "@ + debug_type(v.item) + " }"@
}

fn push_type_node(out: &mut String, x: &Spanned<TypeExpr>)
    ensures
        final(out)@ == old(out)@ + debug_type_node(type_node(*x)),
    decreases x, 0int,
{
    let ghost before = out@;
    out.append("Spanned { span: ");
    push_span(out, x.span);
    out.append(", item: ");
    push_type(out, &x.item);
    out.append(" }");
    assert(out@ =~= before + debug_type_node(type_node(*x)));
}

pub open spec fn debug_opt_type(v: Option<TypeNode>) -> Seq<char> {
    match v {
        Some(t) => "Some("@ + debug_type_node(t) + ")"@,
        None => "None"@,
    }
}

fn push_opt_type(out: &mut String, x: &Option<Spanned<TypeExpr>>)
    ensures
        final(out)@ == old(out)@ + debug_opt_type(opt_type_node(*x)),
{
    let ghost before = out@;
    match x {
        Some(t) => {
            out.append("Some(");
            push_type_node(out, t);
            out.append(")");
        },
        None => {
            out.append("None");
        },
    }
    assert(out@ =~= before + debug_opt_type(opt_type_node(*x)));
}

pub open spec fn debug_types_inner(v: Seq<TypeNode>) -> Seq<char>
    decreases v, 0int,
{
    if v.len() == 0 {
        Seq::empty()
    } else if v.len() == 1 {
        debug_type_node(v.last())
    } else {
        debug_types_inner(v.drop_last()) + ", "@ + debug_type_node(v.last())
    }
}

pub open spec fn debug_types(v: Seq<TypeNode>) -> Seq<char>
    decreases v, 1int,
{
    "["@ + debug_types_inner(v) + "]"@
}

fn push_types(out: &mut String, x: &Vec<Spanned<TypeExpr>>)
    ensures
        final(out)@ == old(out)@ + debug_types(type_nodes(x@)),
    decreases x, 1int,
{
    let ghost before = out@;
    let ghost v = type_nodes(x@);
    proof {
        type_nodes_index(x@);
    }
    out.append("[");
    let mut i: usize = 0;
    assert(out@ =~= before + "["@ + debug_types_inner(v.take(0)));
    while i < x.len()
        invariant
            i <= x.len() == v.len(),
            v == type_nodes(x@),
            forall|k: int| 0 <= k < x.len() ==> #[trigger] v[k] == type_node(x@[k]),
            out@ == before + "["@ + debug_types_inner(v.take(i as int)),
        decreases x.len() - i,
    {
        if i > 0 {
            out.append(", ");
        }
        push_type_node(out, &x[i]);
        assert(v.take(i + 1).drop_last() =~= v.take(i as int));
        assert(v.take(i + 1).last() == v[i as int]);
        assert(out@ =~= before + "["@ + debug_types_inner(v.take(i + 1)));
        i = i + 1;
    }
    assert(v.take(i as int) =~= v);
    out.append("]");
    assert(out@ =~= before + debug_types(v));
}

pub open spec fn debug_literal_expr(v: LiteralExprView) -> Seq<char> {
    "LiteralExpr { "@ + "token: "@ + debug_tok(v.token) + " }"@
}

fn push_literal_expr(out: &mut String, x: &LiteralExpr)
    ensures
        final(out)@ == old(out)@ + debug_literal_expr(literal_expr_view(*x)),
{
    let ghost before = out@;
    out.append("LiteralExpr { ");
    out.append("token: ");
    push_tok(out, &x.token);
    out.append(" }");
    assert(out@ =~= before + debug_literal_expr(literal_expr_view(*x)));
}

pub open spec fn debug_unary_expr(v: UnaryExprView) -> Seq<char>
    decreases v, 0int,
 {
    "UnaryExpr { "@ + "op: "@ + debug_tok(v.op) + ", expr: "@ + debug_node(*v.expr) + " }"@
}

fn push_unary_expr(out: &mut String, x: &UnaryExpr)
    ensures
        final(out)@ == old(out)@ + debug_unary_expr(unary_expr_view(*x)),
    decreases x, 0int,
{
    let ghost before = out@;
    out.append("UnaryExpr { ");
    out.append("op: ");
    push_tok(out, &x.op);
    out.append(", expr: ");
    push_node(out, &x.expr);
    out.append(" }");
    assert(out@ =~= before + debug_unary_expr(unary_expr_view(*x)));
}

pub open spec fn debug_binary_expr(v: BinaryExprView) -> Seq<char>
    decreases v, 0int,
 {
    "BinaryExpr { "@ + "op: "@ + debug_tok(v.op) + ", left: "@ + debug_node(*v.left) + ", right: "@ + debug_node(*v.right) + " }"@
}

fn push_binary_expr(out: &mut String, x: &BinaryExpr)
    ensures
        final(out)@ == old(out)@ + debug_binary_expr(binary_expr_view(*x)),
    decreases x, 0int,
{
    let ghost before = out@;
    out.append("BinaryExpr { ");
    out.append("op: ");
    push_tok(out, &x.op);
    out.append(", left: ");
    push_node(out, &x.left);
    out.append(", right: ");
    push_node(out, &x.right);
    out.append(" }");
    assert(out@ =~= before + debug_binary_expr(binary_expr_view(*x)));
}

pub open spec fn debug_conditional_expr(v: ConditionalExprView) -> Seq<char>
    decreases v, 0int,
 {
    "ConditionalExpr { "@ + "cond: "@ + debug_node(*v.cond) + ", true_branch: "@ + debug_node(*v.true_branch) + ", false_branch: "@ + debug_opt_node(v.false_branch) + " }"@
}

fn push_conditional_expr(out: &mut String, x: &ConditionalExpr)
    ensures
        final(out)@ == old(out)@ + debug_conditional_expr(conditional_expr_view(*x)),
    decreases x, 0int,
{
    let ghost before = out@;
    out.append("ConditionalExpr { ");
    out.append("cond: ");
    push_node(out, &x.cond);
    out.append(", true_branch: ");
    push_node(out, &x.true_branch);
    out.append(", false_branch: ");
    push_opt_node(out, &x.false_branch);
    out.append(" }");
    assert(out@ =~= before + debug_conditional_expr(conditional_expr_view(*x)));
}

pub open spec fn debug_assign_expr(v: AssignExprView) -> Seq<char>
    decreases v, 0int,
 {
    "AssignExpr { "@ + "target: "@ + debug_node(*v.target) + ", typ: "@ + debug_opt_type(v.typ) + ", value: "@ + debug_node(*v.value) + ", decl: "@ + debug_opt_mut(v.decl) + " }"@
}

fn push_assign_expr(out: &mut String, x: &AssignExpr)
    ensures
        final(out)@ == old(out)@ + debug_assign_expr(assign_expr_view(*x)),
    decreases x, 0int,
{
    let ghost before = out@;
    out.append("AssignExpr { ");
    out.append("target: ");
    push_node(out, &x.target);
    out.append(", typ: ");
    push_opt_type(out, &x.typ);
    out.append(", value: ");
    push_node(out, &x.value);
    out.append(", decl: ");
    push_opt_mut(out, x.decl);
    out.append(" }");
    assert(out@ =~= before + debug_assign_expr(assign_expr_view(*x)));
}

pub open spec fn debug_parameter(v: ParameterView) -> Seq<char> {
    "Parameter { "@ + "name: "@ + str_debug(v.name) + ", ty: "@ + debug_opt_type(v.ty) + ", mutable: "@ + debug_bool(v.mutable) + " }"@
}

fn push_parameter(out: &mut String, x: &Parameter)
    ensures
        final(out)@ == old(out)@ + debug_parameter(parameter_view(*x)),
{
    let ghost before = out@;
    out.append("Parameter { ");
    out.append("name: ");
    push_str(out, x.name.as_str());
    out.append(", ty: ");
    push_opt_type(out, &x.ty);
    out.append(", mutable: ");
    push_bool(out, x.mutable);
    out.append(" }");
    assert(out@ =~= before + debug_parameter(parameter_view(*x)));
}

pub open spec fn debug_parameters_inner(v: Seq<ParameterView>) -> Seq<char>
    decreases v,
{
    if v.len() == 0 {
        Seq::empty()
    } else if v.len() == 1 {
        debug_parameter(v.last())
    } else {
        debug_parameters_inner(v.drop_last()) + ", "@ + debug_parameter(v.last())
    }
}

pub open spec fn debug_parameters(v: Seq<ParameterView>) -> Seq<char> {
    "["@ + debug_parameters_inner(v) + "]"@
}

pub(crate) fn push_parameters(out: &mut String, x: &Vec<Parameter>)
    ensures
        final(out)@ == old(out)@ + debug_parameters(parameter_views(x@)),
{
    let ghost before = out@;
    let ghost v = parameter_views(x@);
    proof {
        parameter_views_index(x@);
    }
    out.append("[");
    let mut i: usize = 0;
    assert(out@ =~= before + "["@ + debug_parameters_inner(v.take(0)));
    while i < x.len()
        invariant
            i <= x.len() == v.len(),
            v == parameter_views(x@),
            forall|k: int| 0 <= k < x.len() ==> #[trigger] v[k] == parameter_view(x@[k]),
            out@ == before + "["@ + debug_parameters_inner(v.take(i as int)),
        decreases x.len() - i,
    {
        if i > 0 {
            out.append(", ");
        }
        push_parameter(out, &x[i]);
        assert(v.take(i + 1).drop_last() =~= v.take(i as int));
        assert(v.take(i + 1).last() == v[i as int]);
        assert(out@ =~= before + "["@ + debug_parameters_inner(v.take(i + 1)));
        i = i + 1;
    }
    assert(v.take(i as int) =~= v);
    out.append("]");
    assert(out@ =~= before + debug_parameters(v));
}

pub open spec fn debug_function_expr(v: FunctionExprView) -> Seq<char>
    decreases v, 0int,
 {
    "FunctionExpr { "@ + "params: "@ + debug_parameters(v.params) + ", body: "@ + debug_node(*v.body) + ", return_type: "@ + debug_opt_type(v.return_type) + " }"@
}

fn push_function_expr(out: &mut String, x: &FunctionExpr)
    ensures
        final(out)@ == old(out)@ + debug_function_expr(function_expr_view(*x)),
    decreases x, 0int,
{
    let ghost before = out@;
    out.append("FunctionExpr { ");
    out.append("params: ");
    push_parameters(out, &x.params);
    out.append(", body: ");
    push_node(out, &x.body);
    out.append(", return_type: ");
    push_opt_type(out, &x.return_type);
    out.append(" }");
    assert(out@ =~= before + debug_function_expr(function_expr_view(*x)));
}

pub open spec fn debug_call_expr(v: CallExprView) -> Seq<char>
    decreases v, 0int,
 {
    "CallExpr { "@ + "callable: "@ + debug_node(*v.callable) + ", args: "@ + debug_nodes(v.args) + " }"@
}

fn push_call_expr(out: &mut String, x: &CallExpr)
    ensures
        final(out)@ == old(out)@ + debug_call_expr(call_expr_view(*x)),
    decreases x, 0int,
{
    let ghost before = out@;
    out.append("CallExpr { ");
    out.append("callable: ");
    push_node(out, &x.callable);
    out.append(", args: ");
    push_nodes(out, &x.args);
    out.append(" }");
    assert(out@ =~= before + debug_call_expr(call_expr_view(*x)));
}

pub open spec fn debug_annotated_expr(v: AnnotatedExprView) -> Seq<char>
    decreases v, 0int,
 {
    "AnnotatedExpr { "@ + "expr: "@ + debug_node(*v.expr) + ", ty: "@ + debug_type_node(v.ty) + " }"@
}

fn push_annotated_expr(out: &mut String, x: &AnnotatedExpr)
    ensures
        final(out)@ == old(out)@ + debug_annotated_expr(annotated_expr_view(*x)),
    decreases x, 0int,
{
    let ghost before = out@;
    out.append("AnnotatedExpr { ");
    out.append("expr: ");
    push_node(out, &x.expr);
    out.append(", ty: ");
    push_type_node(out, &x.ty);
    out.append(" }");
    assert(out@ =~= before + debug_annotated_expr(annotated_expr_view(*x)));
}

pub open spec fn debug_index_expr(v: IndexExprView) -> Seq<char>
    decreases v, 0int,
 {
    "IndexExpr { "@ + "target: "@ + debug_node(*v.target) + ", index: "@ + debug_node(*v.index) + " }"@
}

fn push_index_expr(out: &mut String, x: &IndexExpr)
    ensures
        final(out)@ == old(out)@ + debug_index_expr(index_expr_view(*x)),
    decreases x, 0int,
{
    let ghost before = out@;
    out.append("IndexExpr { ");
    out.append("target: ");
    push_node(out, &x.target);
    out.append(", index: ");
    push_node(out, &x.index);
    out.append(" }");
    assert(out@ =~= before + debug_index_expr(index_expr_view(*x)));
}

pub open spec fn debug_slice_expr(v: SliceExprView) -> Seq<char>
    decreases v, 0int,
 {
    "SliceExpr { "@ + "target: "@ + debug_node(*v.target) + ", start: "@ + debug_opt_node(v.start) + ", end: "@ + debug_opt_node(v.end) + " }"@
}

fn push_slice_expr(out: &mut String, x: &SliceExpr)
    ensures
        final(out)@ == old(out)@ + debug_slice_expr(slice_expr_view(*x)),
    decreases x, 0int,
{
    let ghost before = out@;
    out.append("SliceExpr { ");
    out.append("target: ");
    push_node(out, &x.target);
    out.append(", start: ");
    push_opt_node(out, &x.start);
    out.append(", end: ");
    push_opt_node(out, &x.end);
    out.append(" }");
    assert(out@ =~= before + debug_slice_expr(slice_expr_view(*x)));
}

pub open spec fn debug_range_expr(v: RangeExprView) -> Seq<char>
    decreases v, 0int,
 {
    "RangeExpr { "@ + "start: "@ + debug_node(*v.start) + ", end: "@ + debug_node(*v.end) + " }"@
}

fn push_range_expr(out: &mut String, x: &RangeExpr)
    ensures
        final(out)@ == old(out)@ + debug_range_expr(range_expr_view(*x)),
    decreases x, 0int,
{
    let ghost before = out@;
    out.append("RangeExpr { ");
    out.append("start: ");
    push_node(out, &x.start);
    out.append(", end: ");
    push_node(out, &x.end);
    out.append(" }");
    assert(out@ =~= before + debug_range_expr(range_expr_view(*x)));
}

pub open spec fn debug_for_loop_expr(v: ForLoopExprView) -> Seq<char>
    decreases v, 0int,
 {
    "ForLoopExpr { "@ + "var: "@ + str_debug(v.var) + ", iterable: "@ + debug_node(*v.iterable) + ", cond: "@ + debug_opt_node(v.cond) + ", body: "@ + debug_node(*v.body) + " }"@
}

fn push_for_loop_expr(out: &mut String, x: &ForLoopExpr)
    ensures
        final(out)@ == old(out)@ + debug_for_loop_expr(for_loop_expr_view(*x)),
    decreases x, 0int,
{
    let ghost before = out@;
    out.append("ForLoopExpr { ");
    out.append("var: ");
    push_str(out, x.var.as_str());
    out.append(", iterable: ");
    push_node(out, &x.iterable);
    out.append(", cond: ");
    push_opt_node(out, &x.cond);
    out.append(", body: ");
    push_node(out, &x.body);
    out.append(" }");
    assert(out@ =~= before + debug_for_loop_expr(for_loop_expr_view(*x)));
}

pub open spec fn debug_field_decl(v: FieldDeclView) -> Seq<char> {
    "FieldDecl { "@ + "name: "@ + debug_opt_name(v.name) + ", ty: "@ + debug_type_node(v.ty) + " }"@
}

fn push_field_decl(out: &mut String, x: &FieldDecl)
    ensures
        final(out)@ == old(out)@ + debug_field_decl(field_decl_view(*x)),
{
    let ghost before = out@;
    out.append("FieldDecl { ");
    out.append("name: ");
    push_opt_name(out, &x.name);
    out.append(", ty: ");
    push_type_node(out, &x.ty);
    out.append(" }");
    assert(out@ =~= before + debug_field_decl(field_decl_view(*x)));
}

pub open spec fn debug_field_decls_inner(v: Seq<FieldDeclView>) -> Seq<char>
    decreases v,
{
    if v.len() == 0 {
        Seq::empty()
    } else if v.len() == 1 {
        debug_field_decl(v.last())
    } else {
        debug_field_decls_inner(v.drop_last()) + ", "@ + debug_field_decl(v.last())
    }
}

pub open spec fn debug_field_decls(v: Seq<FieldDeclView>) -> Seq<char> {
    "["@ + debug_field_decls_inner(v) + "]"@
}

fn push_field_decls(out: &mut String, x: &Vec<FieldDecl>)
    ensures
        final(out)@ == old(out)@ + debug_field_decls(field_decl_views(x@)),
{
    let ghost before = out@;
    let ghost v = field_decl_views(x@);
    proof {
        field_decl_views_index(x@);
    }
    out.append("[");
    let mut i: usize = 0;
    assert(out@ =~= before + "["@ + debug_field_decls_inner(v.take(0)));
    while i < x.len()
        invariant
            i <= x.len() == v.len(),
            v == field_decl_views(x@),
            forall|k: int| 0 <= k < x.len() ==> #[trigger] v[k] == field_decl_view(x@[k]),
            out@ == before + "["@ + debug_field_decls_inner(v.take(i as int)),
        decreases x.len() - i,
    {
        if i > 0 {
            out.append(", ");
        }
        push_field_decl(out, &x[i]);
        assert(v.take(i + 1).drop_last() =~= v.take(i as int));
        assert(v.take(i + 1).last() == v[i as int]);
        assert(out@ =~= before + "["@ + debug_field_decls_inner(v.take(i + 1)));
        i = i + 1;
    }
    assert(v.take(i as int) =~= v);
    out.append("]");
    assert(out@ =~= before + debug_field_decls(v));
}

pub open spec fn debug_variant_decl(v: VariantDeclView) -> Seq<char> {
    "VariantDecl { "@ + "name: "@ + str_debug(v.name) + ", fields: "@ + debug_field_decls(v.fields) + " }"@
}

fn push_variant_decl(out: &mut String, x: &VariantDecl)
    ensures
        final(out)@ == old(out)@ + debug_variant_decl(variant_decl_view(*x)),
{
    let ghost before = out@;
    out.append("VariantDecl { ");
    out.append("name: ");
    push_str(out, x.name.as_str());
    out.append(", fields: ");
    push_field_decls(out, &x.fields);
    out.append(" }");
    assert(out@ =~= before + debug_variant_decl(variant_decl_view(*x)));
}

pub open spec fn debug_variant_decls_inner(v: Seq<VariantDeclView>) -> Seq<char>
    decreases v,
{
    if v.len() == 0 {
        Seq::empty()
    } else if v.len() == 1 {
        debug_variant_decl(v.last())
    } else {
        debug_variant_decls_inner(v.drop_last()) + ", "@ + debug_variant_decl(v.last())
    }
}

pub open spec fn debug_variant_decls(v: Seq<VariantDeclView>) -> Seq<char> {
    "["@ + debug_variant_decls_inner(v) + "]"@
}

fn push_variant_decls(out: &mut String, x: &Vec<VariantDecl>)
    ensures
        final(out)@ == old(out)@ + debug_variant_decls(variant_decl_views(x@)),
{
    let ghost before = out@;
    let ghost v = variant_decl_views(x@);
    proof {
        variant_decl_views_index(x@);
    }
    out.append("[");
    let mut i: usize = 0;
    assert(out@ =~= before + "["@ + debug_variant_decls_inner(v.take(0)));
    while i < x.len()
        invariant
            i <= x.len() == v.len(),
            v == variant_decl_views(x@),
            forall|k: int| 0 <= k < x.len() ==> #[trigger] v[k] == variant_decl_view(x@[k]),
            out@ == before + "["@ + debug_variant_decls_inner(v.take(i as int)),
        decreases x.len() - i,
    {
        if i > 0 {
            out.append(", ");
        }
        push_variant_decl(out, &x[i]);
        assert(v.take(i + 1).drop_last() =~= v.take(i as int));
        assert(v.take(i + 1).last() == v[i as int]);
        assert(out@ =~= before + "["@ + debug_variant_decls_inner(v.take(i + 1)));
        i = i + 1;
    }
    assert(v.take(i as int) =~= v);
    out.append("]");
    assert(out@ =~= before + debug_variant_decls(v));
}

pub open spec fn debug_data_decl_expr(v: DataDeclExprView) -> Seq<char> {
    "DataDeclExpr { "@ + "name: "@ + str_debug(v.name) + ", type_params: "@ + debug_names(v.type_params) + ", fields: "@ + debug_field_decls(v.fields) + ", variants: "@ + debug_variant_decls(v.variants) + ", provides: "@ + debug_names(v.provides) + " }"@
}

#[verifier::rlimit(60)]
fn push_data_decl_expr(out: &mut String, x: &DataDeclExpr)
    ensures
        final(out)@ == old(out)@ + debug_data_decl_expr(data_decl_expr_view(*x)),
{
    let ghost before = out@;
    out.append("DataDeclExpr { ");
    out.append("name: ");
    push_str(out, x.name.as_str());
    out.append(", type_params: ");
    push_names(out, &x.type_params);
    out.append(", fields: ");
    push_field_decls(out, &x.fields);
    out.append(", variants: ");
    push_variant_decls(out, &x.variants);
    out.append(", provides: ");
    push_names(out, &x.provides);
    out.append(" }");
    assert(out@ =~= before + debug_data_decl_expr(data_decl_expr_view(*x)));
}

pub open spec fn debug_pattern(v: PatternView) -> Seq<char> {
    "Pattern { "@ + "path: "@ + debug_opt_name(v.path) + ", variant: "@ + str_debug(v.variant) + ", binds: "@ + debug_names(v.binds) + ", resolved_member: "@ + debug_opt_usize(v.resolved_member) + " }"@
}

fn push_pattern(out: &mut String, x: &Pattern)
    ensures
        final(out)@ == old(out)@ + debug_pattern(pattern_view(*x)),
{
    let ghost before = out@;
    out.append("Pattern { ");
    out.append("path: ");
    push_opt_name(out, &x.path);
    out.append(", variant: ");
    push_str(out, x.variant.as_str());
    out.append(", binds: ");
    push_names(out, &x.binds);
    out.append(", resolved_member: ");
    push_opt_usize(out, x.resolved_member);
    out.append(" }");
    assert(out@ =~= before + debug_pattern(pattern_view(*x)));
}

pub open spec fn debug_match_arm(v: MatchArmView) -> Seq<char>
    decreases v, 0int,
 {
    "MatchArm { "@ + "pattern: "@ + debug_pattern(v.pattern) + ", guard: "@ + debug_opt_node(v.guard) + ", body: "@ + debug_node(*v.body) + " }"@
}

#[verifier::rlimit(60)]
fn push_match_arm(out: &mut String, x: &MatchArm)
    ensures
        final(out)@ == old(out)@ + debug_match_arm(match_arm_view(*x)),
    decreases x, 0int,
{
    let ghost before = out@;
    out.append("MatchArm { ");
    out.append("pattern: ");
    push_pattern(out, &x.pattern);
    out.append(", guard: ");
    push_opt_node(out, &x.guard);
    out.append(", body: ");
    push_node(out, &x.body);
    out.append(" }");
    assert(out@ =~= before + debug_match_arm(match_arm_view(*x)));
}

pub open spec fn debug_match_arms_inner(v: Seq<MatchArmView>) -> Seq<char>
    decreases v, 0int,
{
    if v.len() == 0 {
        Seq::empty()
    } else if v.len() == 1 {
        debug_match_arm(v.last())
    } else {
        debug_match_arms_inner(v.drop_last()) + ", "@ + debug_match_arm(v.last())
    }
}

pub open spec fn debug_match_arms(v: Seq<MatchArmView>) -> Seq<char>
    decreases v, 1int,
 {
    "["@ + debug_match_arms_inner(v) + "]"@
}

fn push_match_arms(out: &mut String, x: &Vec<MatchArm>)
    ensures
        final(out)@ == old(out)@ + debug_match_arms(match_arm_views(x@)),
    decreases x, 1int,
{
    let ghost before = out@;
    let ghost v = match_arm_views(x@);
    proof {
        match_arm_views_index(x@);
    }
    out.append("[");
    let mut i: usize = 0;
    assert(out@ =~= before + "["@ + debug_match_arms_inner(v.take(0)));
    while i < x.len()
        invariant
            i <= x.len() == v.len(),
            v == match_arm_views(x@),
            forall|k: int| 0 <= k < x.len() ==> #[trigger] v[k] == match_arm_view(x@[k]),
            out@ == before + "["@ + debug_match_arms_inner(v.take(i as int)),
        decreases x.len() - i,
    {
        if i > 0 {
            out.append(", ");
        }
        push_match_arm(out, &x[i]);
        assert(v.take(i + 1).drop_last() =~= v.take(i as int));
        assert(v.take(i + 1).last() == v[i as int]);
        assert(out@ =~= before + "["@ + debug_match_arms_inner(v.take(i + 1)));
        i = i + 1;
    }
    assert(v.take(i as int) =~= v);
    out.append("]");
    assert(out@ =~= before + debug_match_arms(v));
}

pub open spec fn debug_match_expr(v: MatchExprView) -> Seq<char>
    decreases v, 0int,
 {
    "MatchExpr { "@ + "subject: "@ + debug_node(*v.subject) + ", arms: "@ + debug_match_arms(v.arms) + ", default: "@ + debug_opt_node(v.default) + " }"@
}

#[verifier::rlimit(60)]
fn push_match_expr(out: &mut String, x: &MatchExpr)
    ensures
        final(out)@ == old(out)@ + debug_match_expr(match_expr_view(*x)),
    decreases x, 0int,
{
    let ghost before = out@;
    out.append("MatchExpr { ");
    out.append("subject: ");
    push_node(out, &x.subject);
    out.append(", arms: ");
    push_match_arms(out, &x.arms);
    out.append(", default: ");
    push_opt_node(out, &x.default);
    out.append(" }");
    assert(out@ =~= before + debug_match_expr(match_expr_view(*x)));
}

pub open spec fn debug_is_pattern_expr(v: IsPatternExprView) -> Seq<char>
    decreases v, 0int,
 {
    "IsPatternExpr { "@ + "subject: "@ + debug_node(*v.subject) + ", pattern: "@ + debug_pattern(v.pattern) + " }"@
}

fn push_is_pattern_expr(out: &mut String, x: &IsPatternExpr)
    ensures
        final(out)@ == old(out)@ + debug_is_pattern_expr(is_pattern_expr_view(*x)),
    decreases x, 0int,
{
    let ghost before = out@;
    out.append("IsPatternExpr { ");
    out.append("subject: ");
    push_node(out, &x.subject);
    out.append(", pattern: ");
    push_pattern(out, &x.pattern);
    out.append(" }");
    assert(out@ =~= before + debug_is_pattern_expr(is_pattern_expr_view(*x)));
}

pub open spec fn debug_field_access_expr(v: FieldAccessExprView) -> Seq<char>
    decreases v, 0int,
 {
    "FieldAccessExpr { "@ + "target: "@ + debug_node(*v.target) + ", field: "@ + str_debug(v.field) + " }"@
}

fn push_field_access_expr(out: &mut String, x: &FieldAccessExpr)
    ensures
        final(out)@ == old(out)@ + debug_field_access_expr(field_access_expr_view(*x)),
    decreases x, 0int,
{
    let ghost before = out@;
    out.append("FieldAccessExpr { ");
    out.append("target: ");
    push_node(out, &x.target);
    out.append(", field: ");
    push_str(out, x.field.as_str());
    out.append(" }");
    assert(out@ =~= before + debug_field_access_expr(field_access_expr_view(*x)));
}

pub open spec fn debug_import_expr(v: ImportExprView) -> Seq<char> {
    "ImportExpr { "@ + "path: "@ + str_debug(v.path) + ", kind: "@ + debug_import_kind(v.kind) + " }"@
}

fn push_import_expr(out: &mut String, x: &ImportExpr)
    ensures
        final(out)@ == old(out)@ + debug_import_expr(import_expr_view(*x)),
{
    let ghost before = out@;
    out.append("ImportExpr { ");
    out.append("path: ");
    push_str(out, x.path.as_str());
    out.append(", kind: ");
    push_import_kind(out, &x.kind);
    out.append(" }");
    assert(out@ =~= before + debug_import_expr(import_expr_view(*x)));
}

pub open spec fn debug_import_kind(v: ImportKindView) -> Seq<char> {
    match v {
        ImportKindView::Named(names) => "Named("@ + debug_names(names) + ")"@,
        ImportKindView::Qualified(alias) => "Qualified("@ + str_debug(alias) + ")"@,
    }
}

fn push_import_kind(out: &mut String, x: &ImportKind)
    ensures
        final(out)@ == old(out)@ + debug_import_kind(import_kind_view(*x)),
{
    let ghost before = out@;
    match x {
        ImportKind::Named(names) => {
            out.append("Named(");
            push_names(out, names);
        },
        ImportKind::Qualified(alias) => {
            out.append("Qualified(");
            push_str(out, alias.as_str());
        },
    }
    out.append(")");
    assert(out@ =~= before + debug_import_kind(import_kind_view(*x)));
}

pub open spec fn debug_nodes_inner(v: Seq<Node>) -> Seq<char>
    decreases v, 0int,
{
    if v.len() == 0 {
        Seq::empty()
    } else if v.len() == 1 {
        debug_node(v.last())
    } else {
        debug_nodes_inner(v.drop_last()) + ", "@ + debug_node(v.last())
    }
}

pub open spec fn debug_nodes(v: Seq<Node>) -> Seq<char>
    decreases v, 1int,
 {
    "["@ + debug_nodes_inner(v) + "]"@
}

fn push_nodes(out: &mut String, x: &Vec<Spanned<Expression>>)
    ensures
        final(out)@ == old(out)@ + debug_nodes(nodes(x@)),
    decreases x, 1int,
{
    let ghost before = out@;
    let ghost v = nodes(x@);
    proof {
        nodes_index(x@);
    }
    out.append("[");
    let mut i: usize = 0;
    assert(out@ =~= before + "["@ + debug_nodes_inner(v.take(0)));
    while i < x.len()
        invariant
            i <= x.len() == v.len(),
            v == nodes(x@),
            forall|k: int| 0 <= k < x.len() ==> #[trigger] v[k] == node(x@[k]),
            out@ == before + "["@ + debug_nodes_inner(v.take(i as int)),
        decreases x.len() - i,
    {
        if i > 0 {
            out.append(", ");
        }
        push_node(out, &x[i]);
        assert(v.take(i + 1).drop_last() =~= v.take(i as int));
        assert(v.take(i + 1).last() == v[i as int]);
        assert(out@ =~= before + "["@ + debug_nodes_inner(v.take(i + 1)));
        i = i + 1;
    }
    assert(v.take(i as int) =~= v);
    out.append("]");
    assert(out@ =~= before + debug_nodes(v));
}

pub open spec fn debug_opt_node(v: Option<Box<Node>>) -> Seq<char>
    decreases v, 0int,
 {
    match v {
        Some(n) => "Some("@ + debug_node(*n) + ")"@,
        None => "None"@,
    }
}

fn push_opt_node(out: &mut String, x: &Option<ExprRef>)
    ensures
        final(out)@ == old(out)@ + debug_opt_node(opt_node(*x)),
    decreases x, 0int,
{
    let ghost before = out@;
    match x {
        Some(n) => {
            out.append("Some(");
            push_node(out, n);
            out.append(")");
        },
        None => {
            out.append("None");
        },
    }
    assert(out@ =~= before + debug_opt_node(opt_node(*x)));
}

pub open spec fn debug_node(v: Node) -> Seq<char>
    decreases v, 0int,
 {
    "Spanned { span: "@ + debug_span(v.span) + ", item: "@ + debug_ast(v.item) + " }"@
}

fn push_node(out: &mut String, x: &Spanned<Expression>)
    ensures
        final(out)@ == old(out)@ + debug_node(node(*x)),
    decreases x, 0int,
{
    let ghost before = out@;
    out.append("Spanned { span: ");
    push_span(out, x.span);
    out.append(", item: ");
    push_ast(out, &x.item);
    out.append(" }");
    assert(out@ =~= before + debug_node(node(*x)));
}

pub open spec fn debug_ast(v: Ast) -> Seq<char>
    decreases v, 0int,
{
    match v {
        Ast::Literal(y) => "Literal("@ + debug_literal_expr(y) + ")"@,
        Ast::Return(y) => "Return("@ + debug_opt_node(y) + ")"@,
        Ast::Unary(y) => "Unary("@ + debug_unary_expr(y) + ")"@,
        Ast::Binary(y) => "Binary("@ + debug_binary_expr(y) + ")"@,
        Ast::Conditional(y) => "Conditional("@ + debug_conditional_expr(y) + ")"@,
        Ast::Assign(y) => "Assign("@ + debug_assign_expr(y) + ")"@,
        Ast::Function(y) => "Function("@ + debug_function_expr(y) + ")"@,
        Ast::Call(y) => "Call("@ + debug_call_expr(y) + ")"@,
        Ast::Tuple(y) => "Tuple("@ + debug_nodes(y) + ")"@,
        Ast::Block(y) => "Block("@ + debug_nodes(y) + ")"@,
        Ast::Annotated(y) => "Annotated("@ + debug_annotated_expr(y) + ")"@,
        Ast::Index(y) => "Index("@ + debug_index_expr(y) + ")"@,
        Ast::Slice(y) => "Slice("@ + debug_slice_expr(y) + ")"@,
        Ast::Range(y) => "Range("@ + debug_range_expr(y) + ")"@,
        Ast::ForLoop(y) => "ForLoop("@ + debug_for_loop_expr(y) + ")"@,
        Ast::Comprehension(y) => "Comprehension("@ + debug_node(*y) + ")"@,
        Ast::DataDecl(y) => "DataDecl("@ + debug_data_decl_expr(y) + ")"@,
        Ast::FieldAccess(y) => "FieldAccess("@ + debug_field_access_expr(y) + ")"@,
        Ast::Import(y) => "Import("@ + debug_import_expr(y) + ")"@,
        Ast::Match(y) => "Match("@ + debug_match_expr(y) + ")"@,
        Ast::IsPattern(y) => "IsPattern("@ + debug_is_pattern_expr(y) + ")"@,
        Ast::Try(y) => "Try("@ + debug_node(*y) + ")"@,
        Ast::Unwrap(y) => "Unwrap("@ + debug_node(*y) + ")"@,
        Ast::Catch(value, handler) => "Catch { "@ + "value: "@ + debug_node(*value) + ", handler: "@ + debug_node(*handler) + " }"@,
        Ast::MutArg(y) => "MutArg("@ + debug_node(*y) + ")"@,
    }
}

#[verifier::rlimit(60)]
pub(crate) fn push_ast(out: &mut String, x: &Expression)
    ensures
        final(out)@ == old(out)@ + debug_ast(x.ast()),
    decreases x, 5int,
{
    let ghost before = out@;
    match x {
        Expression::Literal(y) => {
            out.append("Literal(");
            push_literal_expr(out, &(*y));
            out.append(")");
            proof {
                in_three(before, "Literal("@, debug_literal_expr(literal_expr_view(*y)), ")"@);
            }
        },
        Expression::Return(y) => {
            out.append("Return(");
            push_opt_node(out, &(*y));
            out.append(")");
            proof {
                in_three(before, "Return("@, debug_opt_node(opt_node(*y)), ")"@);
            }
        },
        Expression::Unary(y) => {
            out.append("Unary(");
            push_unary_expr(out, &(*y));
            out.append(")");
            proof {
                in_three(before, "Unary("@, debug_unary_expr(unary_expr_view(*y)), ")"@);
            }
        },
        Expression::Binary(y) => {
            out.append("Binary(");
            push_binary_expr(out, &(*y));
            out.append(")");
            proof {
                in_three(before, "Binary("@, debug_binary_expr(binary_expr_view(*y)), ")"@);
            }
        },
        Expression::Conditional(y) => {
            out.append("Conditional(");
            push_conditional_expr(out, &(*y));
            out.append(")");
            proof {
                in_three(before, "Conditional("@, debug_conditional_expr(conditional_expr_view(*y)), ")"@);
            }
        },
        _ => {
            push_ast_1(out, x);
        },
    }
}

#[verifier::rlimit(60)]
fn push_ast_1(out: &mut String, x: &Expression)
    requires
        !(*x is Literal),
        !(*x is Return),
        !(*x is Unary),
        !(*x is Binary),
        !(*x is Conditional),
    ensures
        final(out)@ == old(out)@ + debug_ast(x.ast()),
    decreases x, 4int,
{
    let ghost before = out@;
    match x {
        Expression::Assign(y) => {
            out.append("Assign(");
            push_assign_expr(out, &(*y));
            out.append(")");
            proof {
                in_three(before, "Assign("@, debug_assign_expr(assign_expr_view(*y)), ")"@);
            }
        },
        Expression::Function(y) => {
            out.append("Function(");
            push_function_expr(out, &(*y));
            out.append(")");
            proof {
                in_three(before, "Function("@, debug_function_expr(function_expr_view(*y)), ")"@);
            }
        },
        Expression::Call(y) => {
            out.append("Call(");
            push_call_expr(out, &(*y));
            out.append(")");
            proof {
                in_three(before, "Call("@, debug_call_expr(call_expr_view(*y)), ")"@);
            }
        },
        Expression::Tuple(y) => {
            out.append("Tuple(");
            push_nodes(out, &(*y));
            out.append(")");
            proof {
                in_three(before, "Tuple("@, debug_nodes(nodes(y@)), ")"@);
            }
        },
        Expression::Block(y) => {
            out.append("Block(");
            push_nodes(out, &(*y));
            out.append(")");
            proof {
                in_three(before, "Block("@, debug_nodes(nodes(y@)), ")"@);
            }
        },
        _ => {
            push_ast_2(out, x);
        },
    }
}

#[verifier::rlimit(60)]
fn push_ast_2(out: &mut String, x: &Expression)
    requires
        !(*x is Literal),
        !(*x is Return),
        !(*x is Unary),
        !(*x is Binary),
        !(*x is Conditional),
        !(*x is Assign),
        !(*x is Function),
        !(*x is Call),
        !(*x is Tuple),
        !(*x is Block),
    ensures
        final(out)@ == old(out)@ + debug_ast(x.ast()),
    decreases x, 3int,
{
    let ghost before = out@;
    match x {
        Expression::Annotated(y) => {
            out.append("Annotated(");
            push_annotated_expr(out, &(*y));
            out.append(")");
            proof {
                in_three(before, "Annotated("@, debug_annotated_expr(annotated_expr_view(*y)), ")"@);
            }
        },
        Expression::Index(y) => {
            out.append("Index(");
            push_index_expr(out, &(*y));
            out.append(")");
            proof {
                in_three(before, "Index("@, debug_index_expr(index_expr_view(*y)), ")"@);
            }
        },
        Expression::Slice(y) => {
            out.append("Slice(");
            push_slice_expr(out, &(*y));
            out.append(")");
            proof {
                in_three(before, "Slice("@, debug_slice_expr(slice_expr_view(*y)), ")"@);
            }
        },
        Expression::Range(y) => {
            out.append("Range(");
            push_range_expr(out, &(*y));
            out.append(")");
            proof {
                in_three(before, "Range("@, debug_range_expr(range_expr_view(*y)), ")"@);
            }
        },
        Expression::ForLoop(y) => {
            out.append("ForLoop(");
            push_for_loop_expr(out, &(*y));
            out.append(")");
            proof {
                in_three(before, "ForLoop("@, debug_for_loop_expr(for_loop_expr_view(*y)), ")"@);
            }
        },
        _ => {
            push_ast_3(out, x);
        },
    }
}

#[verifier::rlimit(60)]
fn push_ast_3(out: &mut String, x: &Expression)
    requires
        !(*x is Literal),
        !(*x is Return),
        !(*x is Unary),
        !(*x is Binary),
        !(*x is Conditional),
        !(*x is Assign),
        !(*x is Function),
        !(*x is Call),
        !(*x is Tuple),
        !(*x is Block),
        !(*x is Annotated),
        !(*x is Index),
        !(*x is Slice),
        !(*x is Range),
        !(*x is ForLoop),
    ensures
        final(out)@ == old(out)@ + debug_ast(x.ast()),
    decreases x, 2int,
{
    let ghost before = out@;
    match x {
        Expression::Comprehension(y) => {
            out.append("Comprehension(");
            push_node(out, &(*y));
            out.append(")");
            proof {
                in_three(before, "Comprehension("@, debug_node(node(**y)), ")"@);
            }
        },
        Expression::DataDecl(y) => {
            out.append("DataDecl(");
            push_data_decl_expr(out, &(*y));
            out.append(")");
            proof {
                in_three(before, "DataDecl("@, debug_data_decl_expr(data_decl_expr_view(*y)), ")"@);
            }
        },
        Expression::FieldAccess(y) => {
            out.append("FieldAccess(");
            push_field_access_expr(out, &(*y));
            out.append(")");
            proof {
                in_three(before, "FieldAccess("@, debug_field_access_expr(field_access_expr_view(*y)), ")"@);
            }
        },
        Expression::Import(y) => {
            out.append("Import(");
            push_import_expr(out, &(*y));
            out.append(")");
            proof {
                in_three(before, "Import("@, debug_import_expr(import_expr_view(*y)), ")"@);
            }
        },
        Expression::Match(y) => {
            out.append("Match(");
            push_match_expr(out, &(*y));
            out.append(")");
            proof {
                in_three(before, "Match("@, debug_match_expr(match_expr_view(*y)), ")"@);
            }
        },
        _ => {
            push_ast_4(out, x);
        },
    }
}

#[verifier::rlimit(60)]
fn push_ast_4(out: &mut String, x: &Expression)
    requires
        !(*x is Literal),
        !(*x is Return),
        !(*x is Unary),
        !(*x is Binary),
        !(*x is Conditional),
        !(*x is Assign),
        !(*x is Function),
        !(*x is Call),
        !(*x is Tuple),
        !(*x is Block),
        !(*x is Annotated),
        !(*x is Index),
        !(*x is Slice),
        !(*x is Range),
        !(*x is ForLoop),
        !(*x is Comprehension),
        !(*x is DataDecl),
        !(*x is FieldAccess),
        !(*x is Import),
        !(*x is Match),
    ensures
        final(out)@ == old(out)@ + debug_ast(x.ast()),
    decreases x, 1int,
{
    let ghost before = out@;
    match x {
        Expression::IsPattern(y) => {
            out.append("IsPattern(");
            push_is_pattern_expr(out, &(*y));
            out.append(")");
            proof {
                in_three(before, "IsPattern("@, debug_is_pattern_expr(is_pattern_expr_view(*y)), ")"@);
            }
        },
        Expression::Try(y) => {
            out.append("Try(");
            push_node(out, &(*y));
            out.append(")");
            proof {
                in_three(before, "Try("@, debug_node(node(**y)), ")"@);
            }
        },
        Expression::Unwrap(y) => {
            out.append("Unwrap(");
            push_node(out, &(*y));
            out.append(")");
            proof {
                in_three(before, "Unwrap("@, debug_node(node(**y)), ")"@);
            }
        },
        Expression::Catch { value, handler } => {
            out.append("Catch { ");
            out.append("value: ");
            push_node(out, &value);
            out.append(", handler: ");
            push_node(out, &handler);
            out.append(" }");
            assert(out@ =~= before + debug_ast(x.ast()));
        },
        Expression::MutArg(y) => {
            out.append("MutArg(");
            push_node(out, &(*y));
            out.append(")");
            proof {
                in_three(before, "MutArg("@, debug_node(node(**y)), ")"@);
            }
        },
        _ => {},
    }
}

} // verus!
