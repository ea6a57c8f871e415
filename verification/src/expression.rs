//! Programs as they are written.
use crate::text::texts;
use crate::tokens::{Position, Span, Spanned, Tok, Token};
use crate::type_expr::{opt_type_node, type_node, TypeExpr, TypeNode};
use vstd::prelude::*;

verus! {

/// A located, boxed expression.
pub type ExprRef = Box<Spanned<Expression>>;

/// Whether a binding can be assigned to again.
#[derive(Debug, Clone, Copy, PartialEq, Eq, Structural)]
pub enum Mutability {
    Immutable,
    Mutable,
}

/// A literal or a name.
#[derive(Debug, PartialEq)]
pub struct LiteralExpr {
    pub token: Token,
}

pub ghost struct LiteralExprView {
    pub token: Tok,
}

/// A prefix operator.
#[derive(Debug, PartialEq)]
pub struct UnaryExpr {
    pub op: Token,
    pub expr: ExprRef,
}

pub ghost struct UnaryExprView {
    pub op: Tok,
    pub expr: Box<Node>,
}

/// An infix operator.
#[derive(Debug, PartialEq)]
pub struct BinaryExpr {
    pub op: Token,
    pub left: ExprRef,
    pub right: ExprRef,
}

pub ghost struct BinaryExprView {
    pub op: Tok,
    pub left: Box<Node>,
    pub right: Box<Node>,
}

/// `if cond then a else b`, or without the `else`.
#[derive(Debug, PartialEq)]
pub struct ConditionalExpr {
    pub cond: ExprRef,
    pub true_branch: ExprRef,
    pub false_branch: Option<ExprRef>,
}

pub ghost struct ConditionalExprView {
    pub cond: Box<Node>,
    pub true_branch: Box<Node>,
    pub false_branch: Option<Box<Node>>,
}

/// A declaration or an assignment.
#[derive(Debug, PartialEq)]
pub struct AssignExpr {
    pub target: ExprRef,
    pub typ: Option<Spanned<TypeExpr>>,
    pub value: ExprRef,
    /// Whether `let` or `mut` declares the name; without either an earlier one is assigned to.
    pub decl: Option<Mutability>,
}

pub ghost struct AssignExprView {
    pub target: Box<Node>,
    pub typ: Option<TypeNode>,
    pub value: Box<Node>,
    pub decl: Option<Mutability>,
}

/// A parameter of a function.
#[derive(Debug, PartialEq)]
pub struct Parameter {
    pub name: String,
    pub ty: Option<Spanned<TypeExpr>>,
    /// Whether it writes back to the place that the caller passes.
    pub mutable: bool,
}

pub ghost struct ParameterView {
    pub name: Seq<char>,
    pub ty: Option<TypeNode>,
    pub mutable: bool,
}

/// A function.
#[derive(Debug, PartialEq)]
pub struct FunctionExpr {
    pub params: Vec<Parameter>,
    pub body: ExprRef,
    pub return_type: Option<Spanned<TypeExpr>>,
}

pub ghost struct FunctionExprView {
    pub params: Seq<ParameterView>,
    pub body: Box<Node>,
    pub return_type: Option<TypeNode>,
}

/// A call.
#[derive(Debug, PartialEq)]
pub struct CallExpr {
    pub callable: ExprRef,
    pub args: Vec<Spanned<Expression>>,
}

pub ghost struct CallExprView {
    pub callable: Box<Node>,
    pub args: Seq<Node>,
}

/// `expr : Type`.
#[derive(Debug, PartialEq)]
pub struct AnnotatedExpr {
    pub expr: ExprRef,
    pub ty: Spanned<TypeExpr>,
}

pub ghost struct AnnotatedExprView {
    pub expr: Box<Node>,
    pub ty: TypeNode,
}

/// `target[index]`.
#[derive(Debug, PartialEq)]
pub struct IndexExpr {
    pub target: ExprRef,
    pub index: ExprRef,
}

pub ghost struct IndexExprView {
    pub target: Box<Node>,
    pub index: Box<Node>,
}

/// `target[start..end]`; either bound may be omitted.
#[derive(Debug, PartialEq)]
pub struct SliceExpr {
    pub target: ExprRef,
    pub start: Option<ExprRef>,
    pub end: Option<ExprRef>,
}

pub ghost struct SliceExprView {
    pub target: Box<Node>,
    pub start: Option<Box<Node>>,
    pub end: Option<Box<Node>>,
}

/// `start..end`.
#[derive(Debug, PartialEq)]
pub struct RangeExpr {
    pub start: ExprRef,
    pub end: ExprRef,
}

pub ghost struct RangeExprView {
    pub start: Box<Node>,
    pub end: Box<Node>,
}

/// `for var in iterable if cond do body`; the guard may be omitted.
#[derive(Debug, PartialEq)]
pub struct ForLoopExpr {
    pub var: String,
    pub iterable: ExprRef,
    pub cond: Option<ExprRef>,
    pub body: ExprRef,
}

pub ghost struct ForLoopExprView {
    pub var: Seq<char>,
    pub iterable: Box<Node>,
    pub cond: Option<Box<Node>>,
    pub body: Box<Node>,
}

/// A field of a declaration: with a name, or by position.
#[derive(Debug, PartialEq)]
pub struct FieldDecl {
    pub name: Option<String>,
    pub ty: Spanned<TypeExpr>,
}

pub ghost struct FieldDeclView {
    pub name: Option<Seq<char>>,
    pub ty: TypeNode,
}

/// A variant of a union declaration.
#[derive(Debug, PartialEq)]
pub struct VariantDecl {
    pub name: String,
    pub fields: Vec<FieldDecl>,
}

pub ghost struct VariantDeclView {
    pub name: Seq<char>,
    pub fields: Seq<FieldDeclView>,
}

/// A struct declaration, or with variants a union declaration. `fields` are the
/// fields of the struct, or those common to all variants.
#[derive(Debug, PartialEq)]
pub struct DataDeclExpr {
    pub name: String,
    pub type_params: Vec<String>,
    pub fields: Vec<FieldDecl>,
    pub variants: Vec<VariantDecl>,
    pub provides: Vec<String>,
}

pub ghost struct DataDeclExprView {
    pub name: Seq<char>,
    pub type_params: Seq<Seq<char>>,
    pub fields: Seq<FieldDeclView>,
    pub variants: Seq<VariantDeclView>,
    pub provides: Seq<Seq<char>>,
}

/// A pattern for a variant: its name, perhaps with the name of its union, and a
/// name for each of its fields. `_` binds nothing.
#[derive(Debug, PartialEq)]
pub struct Pattern {
    pub path: Option<String>,
    pub variant: String,
    pub binds: Vec<String>,
    /// The position among the members of the subject's union, where it is known without the name.
    pub resolved_member: Option<usize>,
}

pub ghost struct PatternView {
    pub path: Option<Seq<char>>,
    pub variant: Seq<char>,
    pub binds: Seq<Seq<char>>,
    pub resolved_member: Option<usize>,
}

/// `is pattern and guard then body`; the guard may be omitted.
#[derive(Debug, PartialEq)]
pub struct MatchArm {
    pub pattern: Pattern,
    pub guard: Option<ExprRef>,
    pub body: ExprRef,
}

pub ghost struct MatchArmView {
    pub pattern: PatternView,
    pub guard: Option<Box<Node>>,
    pub body: Box<Node>,
}

/// `match subject { ... }`.
#[derive(Debug, PartialEq)]
pub struct MatchExpr {
    pub subject: ExprRef,
    pub arms: Vec<MatchArm>,
    pub default: Option<ExprRef>,
}

pub ghost struct MatchExprView {
    pub subject: Box<Node>,
    pub arms: Seq<MatchArmView>,
    pub default: Option<Box<Node>>,
}

/// `subject is pattern`.
#[derive(Debug, PartialEq)]
pub struct IsPatternExpr {
    pub subject: ExprRef,
    pub pattern: Pattern,
}

pub ghost struct IsPatternExprView {
    pub subject: Box<Node>,
    pub pattern: PatternView,
}

/// `target.field`.
#[derive(Debug, PartialEq)]
pub struct FieldAccessExpr {
    pub target: ExprRef,
    pub field: String,
}

pub ghost struct FieldAccessExprView {
    pub target: Box<Node>,
    pub field: Seq<char>,
}

/// `import "path" { a, b }` or `import "path" as alias`.
#[derive(Debug, PartialEq)]
pub struct ImportExpr {
    pub path: String,
    pub kind: ImportKind,
}

pub ghost struct ImportExprView {
    pub path: Seq<char>,
    pub kind: ImportKindView,
}

/// What an `import` brings in.
#[derive(Debug, PartialEq)]
pub enum ImportKind {
    Named(Vec<String>),
    Qualified(String),
}

pub ghost enum ImportKindView {
    Named(Seq<Seq<char>>),
    Qualified(Seq<char>),
}

/// An expression as it is written.
#[derive(Debug, PartialEq)]
pub enum Expression {
    Literal(LiteralExpr),
    Return(Option<ExprRef>),
    Unary(UnaryExpr),
    Binary(BinaryExpr),
    Conditional(ConditionalExpr),
    Assign(AssignExpr),
    Function(FunctionExpr),
    Call(CallExpr),
    /// `[a, b]`.
    Tuple(Vec<Spanned<Expression>>),
    Block(Vec<Spanned<Expression>>),
    Annotated(AnnotatedExpr),
    Index(IndexExpr),
    Slice(SliceExpr),
    Range(RangeExpr),
    ForLoop(ForLoopExpr),
    /// A loop in brackets, which collects the values of its body.
    Comprehension(ExprRef),
    DataDecl(DataDeclExpr),
    FieldAccess(FieldAccessExpr),
    Import(ImportExpr),
    Match(MatchExpr),
    IsPattern(IsPatternExpr),
    /// `e?`.
    Try(ExprRef),
    /// `e!`.
    Unwrap(ExprRef),
    /// `value catch handler`.
    Catch { value: ExprRef, handler: ExprRef },
    /// `mut name` as an argument.
    MutArg(ExprRef),
}

/// An expression as a mathematical value.
pub ghost enum Ast {
    Literal(LiteralExprView),
    Return(Option<Box<Node>>),
    Unary(UnaryExprView),
    Binary(BinaryExprView),
    Conditional(ConditionalExprView),
    Assign(AssignExprView),
    Function(FunctionExprView),
    Call(CallExprView),
    Tuple(Seq<Node>),
    Block(Seq<Node>),
    Annotated(AnnotatedExprView),
    Index(IndexExprView),
    Slice(SliceExprView),
    Range(RangeExprView),
    ForLoop(ForLoopExprView),
    Comprehension(Box<Node>),
    DataDecl(DataDeclExprView),
    FieldAccess(FieldAccessExprView),
    Import(ImportExprView),
    Match(MatchExprView),
    IsPattern(IsPatternExprView),
    Try(Box<Node>),
    Unwrap(Box<Node>),
    Catch(Box<Node>, Box<Node>),
    MutArg(Box<Node>),
}

/// An expression with its place, as a mathematical value.
pub type Node = Spanned<Ast>;

// ── Views ────────────────────────────────────────────────────────────────

pub open spec fn literal_expr_view(x: LiteralExpr) -> LiteralExprView {
    LiteralExprView { token: x.token@ }
}

pub open spec fn unary_expr_view(x: UnaryExpr) -> UnaryExprView
    decreases x,
 {
    UnaryExprView { op: x.op@, expr: Box::new(node(*x.expr)) }
}

pub open spec fn binary_expr_view(x: BinaryExpr) -> BinaryExprView
    decreases x,
 {
    BinaryExprView { op: x.op@, left: Box::new(node(*x.left)), right: Box::new(node(*x.right)) }
}

pub open spec fn conditional_expr_view(x: ConditionalExpr) -> ConditionalExprView
    decreases x,
 {
    ConditionalExprView { cond: Box::new(node(*x.cond)), true_branch: Box::new(node(*x.true_branch)), false_branch: opt_node(x.false_branch) }
}

pub open spec fn assign_expr_view(x: AssignExpr) -> AssignExprView
    decreases x,
 {
    AssignExprView { target: Box::new(node(*x.target)), typ: opt_type_node(x.typ), value: Box::new(node(*x.value)), decl: x.decl }
}

pub open spec fn parameter_view(x: Parameter) -> ParameterView {
    ParameterView { name: x.name@, ty: opt_type_node(x.ty), mutable: x.mutable }
}

pub open spec fn parameter_views(xs: Seq<Parameter>) -> Seq<ParameterView>
    decreases xs,
{
    if xs.len() == 0 {
        Seq::empty()
    } else {
        parameter_views(xs.drop_last()).push(parameter_view(xs.last()))
    }
}

pub proof fn parameter_views_index(xs: Seq<Parameter>)
    ensures
        parameter_views(xs).len() == xs.len(),
        forall|i: int| 0 <= i < xs.len() ==> #[trigger] parameter_views(xs)[i] == parameter_view(xs[i]),
    decreases xs.len(),
{
    if xs.len() > 0 {
        parameter_views_index(xs.drop_last());
    }
}

pub open spec fn function_expr_view(x: FunctionExpr) -> FunctionExprView
    decreases x,
 {
    FunctionExprView { params: parameter_views(x.params@), body: Box::new(node(*x.body)), return_type: opt_type_node(x.return_type) }
}

pub open spec fn call_expr_view(x: CallExpr) -> CallExprView
    decreases x,
 {
    CallExprView { callable: Box::new(node(*x.callable)), args: nodes(x.args@) }
}

pub open spec fn annotated_expr_view(x: AnnotatedExpr) -> AnnotatedExprView
    decreases x,
 {
    AnnotatedExprView { expr: Box::new(node(*x.expr)), ty: type_node(x.ty) }
}

pub open spec fn index_expr_view(x: IndexExpr) -> IndexExprView
    decreases x,
 {
    IndexExprView { target: Box::new(node(*x.target)), index: Box::new(node(*x.index)) }
}

pub open spec fn slice_expr_view(x: SliceExpr) -> SliceExprView
    decreases x,
 {
    SliceExprView { target: Box::new(node(*x.target)), start: opt_node(x.start), end: opt_node(x.end) }
}

pub open spec fn range_expr_view(x: RangeExpr) -> RangeExprView
    decreases x,
 {
    RangeExprView { start: Box::new(node(*x.start)), end: Box::new(node(*x.end)) }
}

pub open spec fn for_loop_expr_view(x: ForLoopExpr) -> ForLoopExprView
    decreases x,
 {
    ForLoopExprView { var: x.var@, iterable: Box::new(node(*x.iterable)), cond: opt_node(x.cond), body: Box::new(node(*x.body)) }
}

pub open spec fn field_decl_view(x: FieldDecl) -> FieldDeclView {
    FieldDeclView { name: opt_text(x.name), ty: type_node(x.ty) }
}

pub open spec fn field_decl_views(xs: Seq<FieldDecl>) -> Seq<FieldDeclView>
    decreases xs,
{
    if xs.len() == 0 {
        Seq::empty()
    } else {
        field_decl_views(xs.drop_last()).push(field_decl_view(xs.last()))
    }
}

pub proof fn field_decl_views_index(xs: Seq<FieldDecl>)
    ensures
        field_decl_views(xs).len() == xs.len(),
        forall|i: int| 0 <= i < xs.len() ==> #[trigger] field_decl_views(xs)[i] == field_decl_view(xs[i]),
    decreases xs.len(),
{
    if xs.len() > 0 {
        field_decl_views_index(xs.drop_last());
    }
}

pub open spec fn variant_decl_view(x: VariantDecl) -> VariantDeclView {
    VariantDeclView { name: x.name@, fields: field_decl_views(x.fields@) }
}

pub open spec fn variant_decl_views(xs: Seq<VariantDecl>) -> Seq<VariantDeclView>
    decreases xs,
{
    if xs.len() == 0 {
        Seq::empty()
    } else {
        variant_decl_views(xs.drop_last()).push(variant_decl_view(xs.last()))
    }
}

pub proof fn variant_decl_views_index(xs: Seq<VariantDecl>)
    ensures
        variant_decl_views(xs).len() == xs.len(),
        forall|i: int| 0 <= i < xs.len() ==> #[trigger] variant_decl_views(xs)[i] == variant_decl_view(xs[i]),
    decreases xs.len(),
{
    if xs.len() > 0 {
        variant_decl_views_index(xs.drop_last());
    }
}

pub open spec fn data_decl_expr_view(x: DataDeclExpr) -> DataDeclExprView {
    DataDeclExprView { name: x.name@, type_params: texts(x.type_params@), fields: field_decl_views(x.fields@), variants: variant_decl_views(x.variants@), provides: texts(x.provides@) }
}

pub open spec fn pattern_view(x: Pattern) -> PatternView {
    PatternView { path: opt_text(x.path), variant: x.variant@, binds: texts(x.binds@), resolved_member: x.resolved_member }
}

pub open spec fn match_arm_view(x: MatchArm) -> MatchArmView
    decreases x,
 {
    MatchArmView { pattern: pattern_view(x.pattern), guard: opt_node(x.guard), body: Box::new(node(*x.body)) }
}

pub open spec fn match_arm_views(xs: Seq<MatchArm>) -> Seq<MatchArmView>
    decreases xs,
{
    if xs.len() == 0 {
        Seq::empty()
    } else {
        match_arm_views(xs.drop_last()).push(match_arm_view(xs.last()))
    }
}

pub proof fn match_arm_views_index(xs: Seq<MatchArm>)
    ensures
        match_arm_views(xs).len() == xs.len(),
        forall|i: int| 0 <= i < xs.len() ==> #[trigger] match_arm_views(xs)[i] == match_arm_view(xs[i]),
    decreases xs.len(),
{
    if xs.len() > 0 {
        match_arm_views_index(xs.drop_last());
    }
}

pub open spec fn match_expr_view(x: MatchExpr) -> MatchExprView
    decreases x,
 {
    MatchExprView { subject: Box::new(node(*x.subject)), arms: match_arm_views(x.arms@), default: opt_node(x.default) }
}

pub open spec fn is_pattern_expr_view(x: IsPatternExpr) -> IsPatternExprView
    decreases x,
 {
    IsPatternExprView { subject: Box::new(node(*x.subject)), pattern: pattern_view(x.pattern) }
}

pub open spec fn field_access_expr_view(x: FieldAccessExpr) -> FieldAccessExprView
    decreases x,
 {
    FieldAccessExprView { target: Box::new(node(*x.target)), field: x.field@ }
}

pub open spec fn import_expr_view(x: ImportExpr) -> ImportExprView {
    ImportExprView { path: x.path@, kind: import_kind_view(x.kind) }
}

pub open spec fn import_kind_view(x: ImportKind) -> ImportKindView {
    match x {
        ImportKind::Named(names) => ImportKindView::Named(texts(names@)),
        ImportKind::Qualified(alias) => ImportKindView::Qualified(alias@),
    }
}

impl Expression {
    pub open spec fn ast(self) -> Ast
        decreases self,
    {
        match self {
            Expression::Literal(x) => Ast::Literal(literal_expr_view(x)),
            Expression::Return(x) => Ast::Return(opt_node(x)),
            Expression::Unary(x) => Ast::Unary(unary_expr_view(x)),
            Expression::Binary(x) => Ast::Binary(binary_expr_view(x)),
            Expression::Conditional(x) => Ast::Conditional(conditional_expr_view(x)),
            Expression::Assign(x) => Ast::Assign(assign_expr_view(x)),
            Expression::Function(x) => Ast::Function(function_expr_view(x)),
            Expression::Call(x) => Ast::Call(call_expr_view(x)),
            Expression::Tuple(x) => Ast::Tuple(nodes(x@)),
            Expression::Block(x) => Ast::Block(nodes(x@)),
            Expression::Annotated(x) => Ast::Annotated(annotated_expr_view(x)),
            Expression::Index(x) => Ast::Index(index_expr_view(x)),
            Expression::Slice(x) => Ast::Slice(slice_expr_view(x)),
            Expression::Range(x) => Ast::Range(range_expr_view(x)),
            Expression::ForLoop(x) => Ast::ForLoop(for_loop_expr_view(x)),
            Expression::Comprehension(x) => Ast::Comprehension(Box::new(node(*x))),
            Expression::DataDecl(x) => Ast::DataDecl(data_decl_expr_view(x)),
            Expression::FieldAccess(x) => Ast::FieldAccess(field_access_expr_view(x)),
            Expression::Import(x) => Ast::Import(import_expr_view(x)),
            Expression::Match(x) => Ast::Match(match_expr_view(x)),
            Expression::IsPattern(x) => Ast::IsPattern(is_pattern_expr_view(x)),
            Expression::Try(x) => Ast::Try(Box::new(node(*x))),
            Expression::Unwrap(x) => Ast::Unwrap(Box::new(node(*x))),
            Expression::Catch { value, handler } => Ast::Catch(Box::new(node(*value)), Box::new(node(*handler))),
            Expression::MutArg(x) => Ast::MutArg(Box::new(node(*x))),
        }
    }
}

impl View for Expression {
    type V = Ast;

    open spec fn view(&self) -> Ast {
        self.ast()
    }
}

pub open spec fn node(e: Spanned<Expression>) -> Node
    decreases e,
{
    Spanned { span: e.span, item: e.item.ast() }
}

pub open spec fn opt_node(e: Option<ExprRef>) -> Option<Box<Node>>
    decreases e,
{
    match e {
        Some(x) => Some(Box::new(node(*x))),
        None => None,
    }
}

pub open spec fn nodes(es: Seq<Spanned<Expression>>) -> Seq<Node>
    decreases es,
{
    if es.len() == 0 {
        Seq::empty()
    } else {
        nodes(es.drop_last()).push(node(es.last()))
    }
}

pub proof fn nodes_index(es: Seq<Spanned<Expression>>)
    ensures
        nodes(es).len() == es.len(),
        forall|i: int| 0 <= i < es.len() ==> #[trigger] nodes(es)[i] == node(es[i]),
    decreases es.len(),
{
    if es.len() > 0 {
        nodes_index(es.drop_last());
    }
}

pub proof fn nodes_push(es: Seq<Spanned<Expression>>, e: Spanned<Expression>)
    ensures
        nodes(es.push(e)) == nodes(es).push(node(e)),
{
    assert(es.push(e).drop_last() =~= es);
}


pub open spec fn opt_text(s: Option<String>) -> Option<Seq<char>> {
    match s {
        Some(x) => Some(x@),
        None => None,
    }
}

// ── Building ─────────────────────────────────────────────────────────────

pub open spec fn boxed_node(e: Option<Spanned<Expression>>) -> Option<Box<Node>> {
    match e {
        Some(x) => Some(Box::new(node(x))),
        None => None,
    }
}

fn boxed(e: Option<Spanned<Expression>>) -> (r: Option<ExprRef>)
    ensures
        opt_node(r) == boxed_node(e),
{
    match e {
        Some(x) => Some(Box::new(x)),
        None => None,
    }
}

/// The name that an expression is, where it is one.
pub open spec fn identifier_of(a: Ast) -> Option<Seq<char>> {
    match a {
        Ast::Literal(lit) => match lit.token {
            Tok::Name(name) => Some(name),
            _ => None,
        },
        _ => None,
    }
}

impl Expression {
    /// This expression between two pairs of line and column.
    pub fn at(self, start: (u32, u32), end: (u32, u32)) -> (r: Spanned<Expression>)
        ensures
            node(r) == (Spanned {
                span: Span {
                    start: Position { line: start.0, col: start.1 },
                    end: Position { line: end.0, col: end.1 },
                },
                item: self@,
            }),
    {
        Spanned::new(self, Position { line: start.0, col: start.1 }, Position { line: end.0, col: end.1 })
    }

    /// A literal or a name.
    pub fn literal(token: Token) -> (r: Expression)
        ensures
            r@ == Ast::Literal(LiteralExprView { token: token@ }),
    {
        Expression::Literal(LiteralExpr { token })
    }

    /// A prefix operator.
    pub fn unary(t: Token, expr: Spanned<Expression>) -> (r: Expression)
        ensures
            r@ == Ast::Unary(UnaryExprView { op: t@, expr: Box::new(node(expr)) }),
    {
        Expression::Unary(UnaryExpr { op: t, expr: Box::new(expr) })
    }

    /// An infix operator.
    pub fn binary(t: Token, l: Spanned<Expression>, r: Spanned<Expression>) -> (out: Expression)
        ensures
            out@ == Ast::Binary(BinaryExprView { op: t@, left: Box::new(node(l)), right: Box::new(node(r)) }),
    {
        Expression::Binary(BinaryExpr { op: t, left: Box::new(l), right: Box::new(r) })
    }

    /// A conditional.
    pub fn conditional(
        cond: Spanned<Expression>,
        true_branch: Spanned<Expression>,
        false_branch: Option<Spanned<Expression>>,
    ) -> (r: Expression)
        ensures
            r@ == Ast::Conditional(
                ConditionalExprView {
                    cond: Box::new(node(cond)),
                    true_branch: Box::new(node(true_branch)),
                    false_branch: boxed_node(false_branch),
                },
            ),
    {
        let false_branch = boxed(false_branch);
        Expression::Conditional(
            ConditionalExpr { cond: Box::new(cond), true_branch: Box::new(true_branch), false_branch },
        )
    }

    /// A declaration or an assignment.
    pub fn assign(
        target: Spanned<Expression>,
        typ: Option<Spanned<TypeExpr>>,
        value: Spanned<Expression>,
        decl: Option<Mutability>,
    ) -> (r: Expression)
        ensures
            r@ == Ast::Assign(
                AssignExprView {
                    target: Box::new(node(target)),
                    typ: opt_type_node(typ),
                    value: Box::new(node(value)),
                    decl,
                },
            ),
    {
        Expression::Assign(AssignExpr { target: Box::new(target), typ, value: Box::new(value), decl })
    }

    /// `mut name` as an argument.
    pub fn mut_arg(name: Spanned<Expression>) -> (r: Expression)
        ensures
            r@ == Ast::MutArg(Box::new(node(name))),
    {
        Expression::MutArg(Box::new(name))
    }

    /// A function.
    pub fn function(params: Vec<Parameter>, body: Spanned<Expression>) -> (r: Expression)
        ensures
            r@ == Ast::Function(
                FunctionExprView { params: parameter_views(params@), body: Box::new(node(body)), return_type: None },
            ),
    {
        Expression::Function(FunctionExpr { params, body: Box::new(body), return_type: None })
    }

    /// A function with the type of its result.
    pub fn function_with_return(
        params: Vec<Parameter>,
        body: Spanned<Expression>,
        return_type: Option<Spanned<TypeExpr>>,
    ) -> (r: Expression)
        ensures
            r@ == Ast::Function(
                FunctionExprView {
                    params: parameter_views(params@),
                    body: Box::new(node(body)),
                    return_type: opt_type_node(return_type),
                },
            ),
    {
        Expression::Function(FunctionExpr { params, body: Box::new(body), return_type })
    }

    /// A call.
    pub fn call(func: Spanned<Expression>, args: Vec<Spanned<Expression>>) -> (r: Expression)
        ensures
            r@ == Ast::Call(CallExprView { callable: Box::new(node(func)), args: nodes(args@) }),
    {
        Expression::Call(CallExpr { callable: Box::new(func), args })
    }

    /// An expression with its type.
    pub fn annotated(expr: Spanned<Expression>, ty: Spanned<TypeExpr>) -> (r: Expression)
        ensures
            r@ == Ast::Annotated(AnnotatedExprView { expr: Box::new(node(expr)), ty: type_node(ty) }),
    {
        Expression::Annotated(AnnotatedExpr { expr: Box::new(expr), ty })
    }

    /// An element.
    pub fn index(target: Spanned<Expression>, index: Spanned<Expression>) -> (r: Expression)
        ensures
            r@ == Ast::Index(IndexExprView { target: Box::new(node(target)), index: Box::new(node(index)) }),
    {
        Expression::Index(IndexExpr { target: Box::new(target), index: Box::new(index) })
    }

    /// A part of a list.
    pub fn slice(
        target: Spanned<Expression>,
        start: Option<Spanned<Expression>>,
        end: Option<Spanned<Expression>>,
    ) -> (r: Expression)
        ensures
            r@ == Ast::Slice(
                SliceExprView { target: Box::new(node(target)), start: boxed_node(start), end: boxed_node(end) },
            ),
    {
        let start = boxed(start);
        let end = boxed(end);
        Expression::Slice(SliceExpr { target: Box::new(target), start, end })
    }

    /// A range.
    pub fn range(start: Spanned<Expression>, end: Spanned<Expression>) -> (r: Expression)
        ensures
            r@ == Ast::Range(RangeExprView { start: Box::new(node(start)), end: Box::new(node(end)) }),
    {
        Expression::Range(RangeExpr { start: Box::new(start), end: Box::new(end) })
    }

    /// A loop.
    pub fn for_loop(
        var: String,
        iterable: Spanned<Expression>,
        cond: Option<Spanned<Expression>>,
        body: Spanned<Expression>,
    ) -> (r: Expression)
        ensures
            r@ == Ast::ForLoop(
                ForLoopExprView {
                    var: var@,
                    iterable: Box::new(node(iterable)),
                    cond: boxed_node(cond),
                    body: Box::new(node(body)),
                },
            ),
    {
        let cond = boxed(cond);
        Expression::ForLoop(ForLoopExpr { var, iterable: Box::new(iterable), cond, body: Box::new(body) })
    }

    /// A comprehension.
    pub fn comprehension(for_loop: Spanned<Expression>) -> (r: Expression)
        ensures
            r@ == Ast::Comprehension(Box::new(node(for_loop))),
    {
        Expression::Comprehension(Box::new(for_loop))
    }

    /// A field.
    pub fn field_access(target: Spanned<Expression>, field: String) -> (r: Expression)
        ensures
            r@ == Ast::FieldAccess(FieldAccessExprView { target: Box::new(node(target)), field: field@ }),
    {
        Expression::FieldAccess(FieldAccessExpr { target: Box::new(target), field })
    }

    /// A test against a pattern.
    pub fn is_pattern(subject: Spanned<Expression>, pattern: Pattern) -> (r: Expression)
        ensures
            r@ == Ast::IsPattern(
                IsPatternExprView { subject: Box::new(node(subject)), pattern: pattern_view(pattern) },
            ),
    {
        Expression::IsPattern(IsPatternExpr { subject: Box::new(subject), pattern })
    }

    /// `return`, perhaps with a value.
    pub fn return_value(value: Option<Spanned<Expression>>) -> (r: Expression)
        ensures
            r@ == Ast::Return(boxed_node(value)),
    {
        let value = boxed(value);
        Expression::Return(value)
    }

    /// The name that this expression is, where it is one.
    pub fn get_identifier(&self) -> (r: Option<&str>)
        ensures
            match identifier_of(self@) {
                Some(name) => r is Some && r->0@ == name,
                None => r is None,
            },
    {
        match self {
            Expression::Literal(lit) => match &lit.token {
                Token::Identifier(name) => Some(name.as_str()),
                _ => None,
            },
            _ => None,
        }
    }
}

} // verus!
