//! Type-checked programs.
use crate::tokens::{Spanned, Token};
use crate::types::Type;
use vstd::prelude::*;

verus! {

/// A located, boxed node.
pub type TypedExprRef = Box<Spanned<TypedExpr>>;

/// Identifies one occurrence of a node. Zero means that the node has not been
/// numbered.
pub type NodeId = u32;

/// A type-checked node.
#[derive(Debug)]
pub struct TypedExpr {
    pub id: NodeId,
    pub ty: Type,
    pub kind: TypedExprKind,
}

/// How a `for` loop runs over a value that is neither a list nor a range: the
/// value is bound to `iter_var`, and `next_call` is evaluated until it yields
/// nothing.
#[derive(Debug)]
pub struct IterVia {
    pub iter_var: String,
    pub next_call: TypedExprRef,
}

/// One step of a place's path.
#[derive(Debug)]
pub enum PlaceSeg {
    Field(String),
    /// `[index]`, with the type of the indexed list's elements.
    Index { index: TypedExprRef, elem_ty: Type },
}

/// A mutable place: a binding and a path to one part of it.
#[derive(Debug)]
pub struct Place {
    pub root: String,
    pub path: Vec<PlaceSeg>,
}

/// One argument of a call: a value, or a place that the callee may write
/// through.
#[derive(Debug)]
pub enum Arg {
    Value(Spanned<TypedExpr>),
    Mut(Place),
}

/// What a node is. A float literal is kept as the bits of its value.
#[allow(inconsistent_fields)]
#[derive(Debug)]
pub enum TypedExprKind {
    IntLit(i64),
    FloatLit(u64),
    BoolLit(bool),
    StrLit(String),
    NoneLit,
    Var(String),
    Unary { op: Token, expr: TypedExprRef },
    Binary { op: Token, left: TypedExprRef, right: TypedExprRef },
    Conditional { cond: TypedExprRef, true_branch: TypedExprRef, false_branch: Option<TypedExprRef> },
    Assign { name: String, value: TypedExprRef },
    /// Parameters are name, type and whether they are `mut`.
    Function { params: Vec<(String, Type, bool)>, return_type: Type, body: TypedExprRef },
    Call { callable: TypedExprRef, args: Vec<Arg> },
    Index { target: TypedExprRef, index: TypedExprRef },
    Slice { target: TypedExprRef, start: Option<TypedExprRef>, end: Option<TypedExprRef> },
    Range { start: TypedExprRef, end: TypedExprRef },
    List(Vec<Spanned<TypedExpr>>),
    Dict(Vec<(Spanned<TypedExpr>, Spanned<TypedExpr>)>),
    Block(Vec<Spanned<TypedExpr>>),
    ForLoop {
        var: String,
        iterable: TypedExprRef,
        cond: Option<TypedExprRef>,
        body: TypedExprRef,
        iter_via: Option<IterVia>,
    },
    Comprehension {
        var: String,
        iterable: TypedExprRef,
        cond: Option<TypedExprRef>,
        body: TypedExprRef,
        iter_via: Option<IterVia>,
    },
    /// Fields in declared order.
    StructInit { name: String, fields: Vec<(String, TypedExprRef)> },
    /// A struct's field, or a field common to all variants of `enum_name`.
    FieldAccess { target: TypedExprRef, field: String, enum_name: Option<String> },
    PlaceAssign { place: Place, value: TypedExprRef },
    /// Common fields first; `tag` is the variant's declared position.
    VariantInit { enum_name: String, variant: String, tag: u32, fields: Vec<(String, TypedExprRef)> },
    IsVariant { target: TypedExprRef, enum_name: String, variant: String, tag: u32 },
    VariantField { target: TypedExprRef, enum_name: String, variant: String, field: String },
    Return(Option<TypedExprRef>),
    /// A value made into a union; `tag` is its type's position among the members.
    Widen { value: TypedExprRef, tag: u32 },
    /// The member of a union that a preceding test has established.
    Narrow { value: TypedExprRef, tag: u32 },
    TypeTag { target: TypedExprRef, tag: u32 },
    Truthy(TypedExprRef),
    Coerce(TypedExprRef),
}

impl Place {
    /// The subexpressions that a place evaluates, in order: its `[index]`
    /// steps.
    pub fn index_exprs(&self) -> (r: Vec<&Spanned<TypedExpr>>)
        ensures
            r@.map_values(|e: &Spanned<TypedExpr>| *e) == index_steps(self.path@),
    {
        let mut out: Vec<&Spanned<TypedExpr>> = Vec::new();
        let mut i: usize = 0;
        assert(out@.map_values(|e: &Spanned<TypedExpr>| *e) =~= index_steps(self.path@.take(0)));
        while i < self.path.len()
            invariant
                i <= self.path.len(),
                out@.map_values(|e: &Spanned<TypedExpr>| *e) == index_steps(self.path@.take(i as int)),
            decreases self.path.len() - i,
        {
            let ghost before = out@;
            assert(self.path@.take(i + 1).drop_last() =~= self.path@.take(i as int));
            if let PlaceSeg::Index { index, elem_ty: _ } = &self.path[i] {
                out.push(&**index);
                assert(out@.map_values(|e: &Spanned<TypedExpr>| *e) =~= before.map_values(
                    |e: &Spanned<TypedExpr>| *e,
                ).push(**index));
            }
            i = i + 1;
        }
        assert(self.path@.take(i as int) =~= self.path@);
        out
    }
}

/// The subexpressions of a path's `[index]` steps, in order.
pub open spec fn index_steps(path: Seq<PlaceSeg>) -> Seq<Spanned<TypedExpr>>
    decreases path.len(),
{
    if path.len() == 0 {
        Seq::empty()
    } else {
        match path.last() {
            PlaceSeg::Index { index, elem_ty: _ } => index_steps(path.drop_last()).push(*index),
            PlaceSeg::Field(_) => index_steps(path.drop_last()),
        }
    }
}

impl Arg {
    /// The argument's value expression; a place has none.
    pub fn value(&self) -> (r: Option<&Spanned<TypedExpr>>)
        ensures
            r == match self {
                Arg::Value(e) => Some(e),
                Arg::Mut(_) => None,
            },
    {
        match self {
            Arg::Value(e) => Some(e),
            Arg::Mut(_) => None,
        }
    }

    /// Whether this argument is a place.
    pub fn is_mut(&self) -> (r: bool)
        ensures
            r == self is Mut,
    {
        match self {
            Arg::Value(_) => false,
            Arg::Mut(_) => true,
        }
    }

    /// Every subexpression that this argument evaluates, in order.
    pub fn subexprs(&self) -> (r: Vec<&Spanned<TypedExpr>>)
        ensures
            r@.map_values(|e: &Spanned<TypedExpr>| *e) == arg_steps(*self),
    {
        match self {
            Arg::Value(e) => {
                let mut out: Vec<&Spanned<TypedExpr>> = Vec::new();
                out.push(e);
                assert(out@.map_values(|e: &Spanned<TypedExpr>| *e) =~= seq![*e]);
                out
            },
            Arg::Mut(p) => p.index_exprs(),
        }
    }
}

/// Every subexpression that an argument evaluates, in order.
pub open spec fn arg_steps(a: Arg) -> Seq<Spanned<TypedExpr>> {
    match a {
        Arg::Value(e) => seq![e],
        Arg::Mut(p) => index_steps(p.path@),
    }
}

// ── Node identities ──────────────────────────────────────────────────────

/// The identities of a node and of everything below it, in the order in which
/// the nodes are met when each comes before its parts.
pub open spec fn ids(e: Spanned<TypedExpr>) -> Seq<u32>
    decreases e,
{
    seq![e.item.id] + kind_ids(e.item.kind)
}

pub open spec fn opt_ids(e: Option<TypedExprRef>) -> Seq<u32>
    decreases e,
{
    match e {
        Some(x) => ids(*x),
        None => Seq::empty(),
    }
}

pub open spec fn list_ids(es: Seq<Spanned<TypedExpr>>) -> Seq<u32>
    decreases es,
{
    if es.len() == 0 {
        Seq::empty()
    } else {
        list_ids(es.drop_last()) + ids(es.last())
    }
}

pub open spec fn pair_ids(es: Seq<(Spanned<TypedExpr>, Spanned<TypedExpr>)>) -> Seq<u32>
    decreases es,
{
    if es.len() == 0 {
        Seq::empty()
    } else {
        pair_ids(es.drop_last()) + ids(es.last().0) + ids(es.last().1)
    }
}

pub open spec fn field_ids(fs: Seq<(String, TypedExprRef)>) -> Seq<u32>
    decreases fs,
{
    if fs.len() == 0 {
        Seq::empty()
    } else {
        field_ids(fs.drop_last()) + ids(*fs.last().1)
    }
}

pub open spec fn path_ids(p: Seq<PlaceSeg>) -> Seq<u32>
    decreases p,
{
    if p.len() == 0 {
        Seq::empty()
    } else {
        path_ids(p.drop_last()) + seg_ids(p.last())
    }
}

pub open spec fn seg_ids(s: PlaceSeg) -> Seq<u32>
    decreases s,
{
    match s {
        PlaceSeg::Index { index, elem_ty: _ } => ids(*index),
        PlaceSeg::Field(_) => Seq::empty(),
    }
}

pub open spec fn arg_ids(a: Arg) -> Seq<u32>
    decreases a,
{
    match a {
        Arg::Value(e) => ids(e),
        Arg::Mut(p) => path_ids(p.path@),
    }
}

pub open spec fn args_ids(args: Seq<Arg>) -> Seq<u32>
    decreases args,
{
    if args.len() == 0 {
        Seq::empty()
    } else {
        args_ids(args.drop_last()) + arg_ids(args.last())
    }
}

pub open spec fn kind_ids(k: TypedExprKind) -> Seq<u32>
    decreases k,
{
    match k {
        TypedExprKind::IntLit(_) => Seq::empty(),
        TypedExprKind::FloatLit(_) => Seq::empty(),
        TypedExprKind::BoolLit(_) => Seq::empty(),
        TypedExprKind::StrLit(_) => Seq::empty(),
        TypedExprKind::NoneLit => Seq::empty(),
        TypedExprKind::Var(_) => Seq::empty(),
        TypedExprKind::Unary { op: _, expr } => ids(*expr),
        TypedExprKind::Binary { op: _, left, right } => ids(*left) + ids(*right),
        TypedExprKind::Conditional { cond, true_branch, false_branch } => ids(*cond) + ids(*true_branch) + opt_ids(
            false_branch,
        ),
        TypedExprKind::Assign { name: _, value } => ids(*value),
        TypedExprKind::Function { params: _, return_type: _, body } => ids(*body),
        TypedExprKind::Call { callable, args } => ids(*callable) + args_ids(args@),
        TypedExprKind::Index { target, index } => ids(*target) + ids(*index),
        TypedExprKind::Slice { target, start, end } => ids(*target) + opt_ids(start) + opt_ids(end),
        TypedExprKind::Range { start, end } => ids(*start) + ids(*end),
        TypedExprKind::List(es) => list_ids(es@),
        TypedExprKind::Dict(es) => pair_ids(es@),
        TypedExprKind::Block(es) => list_ids(es@),
        TypedExprKind::ForLoop { var: _, iterable, cond, body, iter_via: _ } => ids(*iterable) + opt_ids(cond) + ids(
            *body,
        ),
        TypedExprKind::Comprehension { var: _, iterable, cond, body, iter_via: _ } => ids(*iterable) + opt_ids(cond)
            + ids(*body),
        TypedExprKind::StructInit { name: _, fields } => field_ids(fields@),
        TypedExprKind::FieldAccess { target, field: _, enum_name: _ } => ids(*target),
        TypedExprKind::PlaceAssign { place, value } => path_ids(place.path@) + ids(*value),
        TypedExprKind::VariantInit { enum_name: _, variant: _, tag: _, fields } => field_ids(fields@),
        TypedExprKind::IsVariant { target, enum_name: _, variant: _, tag: _ } => ids(*target),
        TypedExprKind::VariantField { target, enum_name: _, variant: _, field: _ } => ids(*target),
        TypedExprKind::Return(value) => opt_ids(value),
        TypedExprKind::Widen { value, tag: _ } => ids(*value),
        TypedExprKind::Narrow { value, tag: _ } => ids(*value),
        TypedExprKind::TypeTag { target, tag: _ } => ids(*target),
        TypedExprKind::Truthy(value) => ids(*value),
        TypedExprKind::Coerce(value) => ids(*value),
    }
}

// ── Trees that differ in their identities alone ──────────────────────────

/// Whether two trees are the same up to the identities of their nodes.
pub open spec fn same_but_ids(a: Spanned<TypedExpr>, b: Spanned<TypedExpr>) -> bool
    decreases a,
{
    a.span == b.span && a.item.ty == b.item.ty && same_kind(a.item.kind, b.item.kind)
}

pub open spec fn same_opt(a: Option<TypedExprRef>, b: Option<TypedExprRef>) -> bool
    decreases a,
{
    match (a, b) {
        (Some(x), Some(y)) => same_but_ids(*x, *y),
        (None, None) => true,
        _ => false,
    }
}

pub open spec fn same_list(a: Seq<Spanned<TypedExpr>>, b: Seq<Spanned<TypedExpr>>) -> bool
    decreases a,
{
    a.len() == b.len() && forall|i: int| 0 <= i < a.len() ==> same_but_ids(#[trigger] a[i], b[i])
}

pub open spec fn same_pairs(
    a: Seq<(Spanned<TypedExpr>, Spanned<TypedExpr>)>,
    b: Seq<(Spanned<TypedExpr>, Spanned<TypedExpr>)>,
) -> bool
    decreases a,
{
    a.len() == b.len() && forall|i: int|
        0 <= i < a.len() ==> same_but_ids((#[trigger] a[i]).0, b[i].0) && same_but_ids(a[i].1, b[i].1)
}

pub open spec fn same_fields(a: Seq<(String, TypedExprRef)>, b: Seq<(String, TypedExprRef)>) -> bool
    decreases a,
{
    a.len() == b.len() && forall|i: int|
        0 <= i < a.len() ==> (#[trigger] a[i]).0 == b[i].0 && same_but_ids(*a[i].1, *b[i].1)
}

pub open spec fn same_seg(a: PlaceSeg, b: PlaceSeg) -> bool
    decreases a,
{
    match (a, b) {
        (PlaceSeg::Field(f), PlaceSeg::Field(g)) => f == g,
        (PlaceSeg::Index { index: i, elem_ty: s }, PlaceSeg::Index { index: j, elem_ty: t }) => s == t
            && same_but_ids(*i, *j),
        _ => false,
    }
}

pub open spec fn same_path(a: Seq<PlaceSeg>, b: Seq<PlaceSeg>) -> bool
    decreases a,
{
    a.len() == b.len() && forall|i: int| 0 <= i < a.len() ==> same_seg(#[trigger] a[i], b[i])
}

pub open spec fn same_arg(a: Arg, b: Arg) -> bool
    decreases a,
{
    match (a, b) {
        (Arg::Value(x), Arg::Value(y)) => same_but_ids(x, y),
        (Arg::Mut(p), Arg::Mut(q)) => p.root == q.root && same_path(p.path@, q.path@),
        _ => false,
    }
}

pub open spec fn same_args(a: Seq<Arg>, b: Seq<Arg>) -> bool
    decreases a,
{
    a.len() == b.len() && forall|i: int| 0 <= i < a.len() ==> same_arg(#[trigger] a[i], b[i])
}

pub open spec fn same_kind(a: TypedExprKind, b: TypedExprKind) -> bool
    decreases a,
{
    match (a, b) {
        (
            TypedExprKind::IntLit(x1),
            TypedExprKind::IntLit(x2),
        ) => x1 == x2,
        (
            TypedExprKind::FloatLit(x1),
            TypedExprKind::FloatLit(x2),
        ) => x1 == x2,
        (
            TypedExprKind::BoolLit(x1),
            TypedExprKind::BoolLit(x2),
        ) => x1 == x2,
        (
            TypedExprKind::StrLit(x1),
            TypedExprKind::StrLit(x2),
        ) => x1 == x2,
        (
            TypedExprKind::NoneLit,
            TypedExprKind::NoneLit,
        ) => true,
        (
            TypedExprKind::Var(x1),
            TypedExprKind::Var(x2),
        ) => x1 == x2,
        (
            TypedExprKind::Unary { op: op1, expr: expr1 },
            TypedExprKind::Unary { op: op2, expr: expr2 },
        ) => op1 == op2 && same_but_ids(*expr1, *expr2),
        (
            TypedExprKind::Binary { op: op1, left: left1, right: right1 },
            TypedExprKind::Binary { op: op2, left: left2, right: right2 },
        ) => op1 == op2 && same_but_ids(*left1, *left2) && same_but_ids(*right1, *right2),
        (
            TypedExprKind::Conditional { cond: cond1, true_branch: true_branch1, false_branch: false_branch1 },
            TypedExprKind::Conditional { cond: cond2, true_branch: true_branch2, false_branch: false_branch2 },
        ) => same_but_ids(*cond1, *cond2) && same_but_ids(*true_branch1, *true_branch2) && same_opt(false_branch1, false_branch2),
        (
            TypedExprKind::Assign { name: name1, value: value1 },
            TypedExprKind::Assign { name: name2, value: value2 },
        ) => name1 == name2 && same_but_ids(*value1, *value2),
        (
            TypedExprKind::Function { params: params1, return_type: return_type1, body: body1 },
            TypedExprKind::Function { params: params2, return_type: return_type2, body: body2 },
        ) => params1 == params2 && return_type1 == return_type2 && same_but_ids(*body1, *body2),
        (
            TypedExprKind::Call { callable: callable1, args: args1 },
            TypedExprKind::Call { callable: callable2, args: args2 },
        ) => same_but_ids(*callable1, *callable2) && same_args(args1@, args2@),
        (
            TypedExprKind::Index { target: target1, index: index1 },
            TypedExprKind::Index { target: target2, index: index2 },
        ) => same_but_ids(*target1, *target2) && same_but_ids(*index1, *index2),
        (
            TypedExprKind::Slice { target: target1, start: start1, end: end1 },
            TypedExprKind::Slice { target: target2, start: start2, end: end2 },
        ) => same_but_ids(*target1, *target2) && same_opt(start1, start2) && same_opt(end1, end2),
        (
            TypedExprKind::Range { start: start1, end: end1 },
            TypedExprKind::Range { start: start2, end: end2 },
        ) => same_but_ids(*start1, *start2) && same_but_ids(*end1, *end2),
        (
            TypedExprKind::List(x1),
            TypedExprKind::List(x2),
        ) => same_list(x1@, x2@),
        (
            TypedExprKind::Dict(x1),
            TypedExprKind::Dict(x2),
        ) => same_pairs(x1@, x2@),
        (
            TypedExprKind::Block(x1),
            TypedExprKind::Block(x2),
        ) => same_list(x1@, x2@),
        (
            TypedExprKind::ForLoop { var: var1, iterable: iterable1, cond: cond1, body: body1, iter_via: iter_via1 },
            TypedExprKind::ForLoop { var: var2, iterable: iterable2, cond: cond2, body: body2, iter_via: iter_via2 },
        ) => var1 == var2 && same_but_ids(*iterable1, *iterable2) && same_opt(cond1, cond2) && same_but_ids(*body1, *body2) && iter_via1 == iter_via2,
        (
            TypedExprKind::Comprehension { var: var1, iterable: iterable1, cond: cond1, body: body1, iter_via: iter_via1 },
            TypedExprKind::Comprehension { var: var2, iterable: iterable2, cond: cond2, body: body2, iter_via: iter_via2 },
        ) => var1 == var2 && same_but_ids(*iterable1, *iterable2) && same_opt(cond1, cond2) && same_but_ids(*body1, *body2) && iter_via1 == iter_via2,
        (
            TypedExprKind::StructInit { name: name1, fields: fields1 },
            TypedExprKind::StructInit { name: name2, fields: fields2 },
        ) => name1 == name2 && same_fields(fields1@, fields2@),
        (
            TypedExprKind::FieldAccess { target: target1, field: field1, enum_name: enum_name1 },
            TypedExprKind::FieldAccess { target: target2, field: field2, enum_name: enum_name2 },
        ) => same_but_ids(*target1, *target2) && field1 == field2 && enum_name1 == enum_name2,
        (
            TypedExprKind::PlaceAssign { place: place1, value: value1 },
            TypedExprKind::PlaceAssign { place: place2, value: value2 },
        ) => place1.root == place2.root && same_path(place1.path@, place2.path@) && same_but_ids(*value1, *value2),
        (
            TypedExprKind::VariantInit { enum_name: enum_name1, variant: variant1, tag: tag1, fields: fields1 },
            TypedExprKind::VariantInit { enum_name: enum_name2, variant: variant2, tag: tag2, fields: fields2 },
        ) => enum_name1 == enum_name2 && variant1 == variant2 && tag1 == tag2 && same_fields(fields1@, fields2@),
        (
            TypedExprKind::IsVariant { target: target1, enum_name: enum_name1, variant: variant1, tag: tag1 },
            TypedExprKind::IsVariant { target: target2, enum_name: enum_name2, variant: variant2, tag: tag2 },
        ) => same_but_ids(*target1, *target2) && enum_name1 == enum_name2 && variant1 == variant2 && tag1 == tag2,
        (
            TypedExprKind::VariantField { target: target1, enum_name: enum_name1, variant: variant1, field: field1 },
            TypedExprKind::VariantField { target: target2, enum_name: enum_name2, variant: variant2, field: field2 },
        ) => same_but_ids(*target1, *target2) && enum_name1 == enum_name2 && variant1 == variant2 && field1 == field2,
        (
            TypedExprKind::Return(x1),
            TypedExprKind::Return(x2),
        ) => same_opt(x1, x2),
        (
            TypedExprKind::Widen { value: value1, tag: tag1 },
            TypedExprKind::Widen { value: value2, tag: tag2 },
        ) => same_but_ids(*value1, *value2) && tag1 == tag2,
        (
            TypedExprKind::Narrow { value: value1, tag: tag1 },
            TypedExprKind::Narrow { value: value2, tag: tag2 },
        ) => same_but_ids(*value1, *value2) && tag1 == tag2,
        (
            TypedExprKind::TypeTag { target: target1, tag: tag1 },
            TypedExprKind::TypeTag { target: target2, tag: tag2 },
        ) => same_but_ids(*target1, *target2) && tag1 == tag2,
        (
            TypedExprKind::Truthy(x1),
            TypedExprKind::Truthy(x2),
        ) => same_but_ids(*x1, *x2),
        (
            TypedExprKind::Coerce(x1),
            TypedExprKind::Coerce(x2),
        ) => same_but_ids(*x1, *x2),
        _ => false,
    }
}

} // verus!
