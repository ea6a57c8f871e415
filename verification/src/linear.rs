//! Values that must not be duplicated.
//!
//! A type may be linear. A read of a name of linear type must be the name's
//! last one, and a branch must not take such a value where the other branch
//! leaves it.
use crate::flow::can_be_in_order;
use crate::liveness::{
    analyze_body, analyze_entry, in_order, marks, marks_block, no_marks, Liveness, Marks, Names, Ownership,
};
use crate::text::{same_text, texts, NameSet};
use crate::tokens::{Span, Spanned};
use crate::typed_ast::{Arg, PlaceSeg, TypedExpr, TypedExprKind, TypedExprRef};
use crate::types::{type_views, type_views_index, Ty, Type};
use vstd::prelude::*;
use vstd::string::StringExecFns;

verus! {

/// A program that the rules of the type system reject.
#[derive(Debug, PartialEq, Clone)]
pub struct TypeError {
    pub msg: String,
}

/// What a check comes to: the linear names that were moved, or a message and
/// the place that it is about.
pub type Moved = Result<Names, (Seq<char>, Span)>;

/// What a walk knows: the facts about the body, the names that are exempt,
/// and the linear types.
pub ghost struct Rules {
    pub marks: Marks,
    pub exempt: Names,
    pub linear: Seq<Ty>,
}

pub open spec fn alias_message(name: Seq<char>) -> Seq<char> {
    seq!['\''] + name + "' is Linear; it can only be moved or passed `mut`, not aliased"@
}

pub open spec fn join_message(name: Seq<char>) -> Seq<char> {
    seq!['\''] + name
        + "' is Linear and is consumed on only one branch of this if/match \u{2014} it must be consumed on every branch or none"@
}

/// Two outcomes one after the other; the first failure counts.
pub open spec fn both(a: Moved, b: Moved) -> Moved {
    match a {
        Err(e) => Err(e),
        Ok(x) => match b {
            Err(e) => Err(e),
            Ok(y) => Ok(x.union(y)),
        },
    }
}

/// Nothing moved.
pub open spec fn nothing() -> Moved {
    Ok(Set::empty())
}

/// The name that is reported where two branches do not move the same names:
/// the first in order that only the one moves, or else that only the other
/// moves.
pub open spec fn odd_one(a: Names, b: Names) -> Option<Seq<char>> {
    if a.difference(b) != Set::<Seq<char>>::empty() {
        Some(crate::liveness::in_order(a.difference(b))[0])
    } else if b.difference(a) != Set::<Seq<char>>::empty() {
        Some(crate::liveness::in_order(b.difference(a))[0])
    } else {
        None
    }
}

/// The linear names that `e` moves. A read of the name `skip` is exempt.
pub open spec fn moves(e: Spanned<TypedExpr>, cx: Rules, skip: Option<Seq<char>>) -> Moved
    decreases e,
{
    match e.item.kind {
        TypedExprKind::IntLit(_) => nothing(),
        TypedExprKind::FloatLit(_) => nothing(),
        TypedExprKind::BoolLit(_) => nothing(),
        TypedExprKind::StrLit(_) => nothing(),
        TypedExprKind::NoneLit => nothing(),
        TypedExprKind::Var(name) => if skip == Some(name@) || cx.exempt.contains(name@) || !cx.linear.contains(
            e.item.ty@,
        ) {
            nothing()
        } else if cx.marks.last.contains(e.item.id) {
            Ok(Set::empty().insert(name@))
        } else {
            Err((alias_message(name@), e.span))
        },
        TypedExprKind::Unary { op: _, expr } => moves(*expr, cx, skip),
        TypedExprKind::Binary { op: _, left, right } => both(moves(*left, cx, skip), moves(*right, cx, skip)),
        TypedExprKind::Index { target, index } => both(moves(*target, cx, skip), moves(*index, cx, skip)),
        TypedExprKind::Slice { target, start, end } => both(both(moves(*target, cx, skip), moves_opt(start, cx, skip)), moves_opt(end, cx, skip)),
        TypedExprKind::Range { start, end } => both(moves(*start, cx, skip), moves(*end, cx, skip)),
        TypedExprKind::List(part) => moves_list(part@, cx, skip),
        TypedExprKind::Dict(part) => moves_pairs(part@, cx, skip),
        TypedExprKind::Block(part) => moves_list(part@, cx, skip),
        TypedExprKind::StructInit { name: _, fields } => moves_fields(fields@, cx, skip),
        TypedExprKind::FieldAccess { target, field: _, enum_name: _ } => moves(*target, cx, skip),
        TypedExprKind::VariantInit { enum_name: _, variant: _, tag: _, fields } => moves_fields(fields@, cx, skip),
        TypedExprKind::IsVariant { target, enum_name: _, variant: _, tag: _ } => moves(*target, cx, skip),
        TypedExprKind::VariantField { target, enum_name: _, variant: _, field: _ } => moves(*target, cx, skip),
        TypedExprKind::Return(part) => moves_opt(part, cx, skip),
        TypedExprKind::Widen { value, tag: _ } => moves(*value, cx, skip),
        TypedExprKind::Narrow { value, tag: _ } => moves(*value, cx, skip),
        TypedExprKind::TypeTag { target, tag: _ } => moves(*target, cx, skip),
        TypedExprKind::Truthy(part) => moves(*part, cx, skip),
        TypedExprKind::Coerce(part) => moves(*part, cx, skip),
        TypedExprKind::Assign { name: _, value } => if value.item.kind is Function {
            nothing()
        } else {
            moves(*value, cx, skip)
        },
        TypedExprKind::Function { params: _, return_type: _, body: _ } => nothing(),
        TypedExprKind::PlaceAssign { place, value } => both(
            moves(*value, cx, Some(place.root@)),
            moves_path(place.path@, cx, Some(place.root@)),
        ),
        TypedExprKind::Call { callable: _, args } => moves_args(args@, cx, skip),
        TypedExprKind::ForLoop { var: _, iterable, cond, body, iter_via: _ } => both(
            both(moves(*iterable, cx, skip), moves(*body, cx, skip)),
            moves_opt(cond, cx, skip),
        ),
        TypedExprKind::Comprehension { var: _, iterable, cond, body, iter_via: _ } => both(
            both(moves(*iterable, cx, skip), moves(*body, cx, skip)),
            moves_opt(cond, cx, skip),
        ),
        TypedExprKind::Conditional { cond, true_branch, false_branch } => match moves(*true_branch, cx, skip) {
            Err(x) => Err(x),
            Ok(t) => match moves_opt(false_branch, cx, skip) {
                Err(x) => Err(x),
                Ok(f) => match odd_one(t, f) {
                    Some(name) => Err((join_message(name), e.span)),
                    None => both(Ok(t.union(f)), moves(*cond, cx, skip)),
                },
            },
        },
    }
}

pub open spec fn moves_opt(e: Option<TypedExprRef>, cx: Rules, skip: Option<Seq<char>>) -> Moved
    decreases e,
{
    match e {
        Some(x) => moves(*x, cx, skip),
        None => nothing(),
    }
}


pub open spec fn moves_list(es: Seq<Spanned<TypedExpr>>, cx: Rules, skip: Option<Seq<char>>) -> Moved
    decreases es,
{
    if es.len() == 0 {
        nothing()
    } else {
        both(moves_list(es.drop_last(), cx, skip), moves(es.last(), cx, skip))
    }
}


pub open spec fn moves_pairs(
    es: Seq<(Spanned<TypedExpr>, Spanned<TypedExpr>)>,
    cx: Rules,
    skip: Option<Seq<char>>,
) -> Moved
    decreases es,
{
    if es.len() == 0 {
        nothing()
    } else {
        both(both(moves_pairs(es.drop_last(), cx, skip), moves(es.last().0, cx, skip)), moves(es.last().1, cx, skip))
    }
}


pub open spec fn moves_fields(es: Seq<(String, TypedExprRef)>, cx: Rules, skip: Option<Seq<char>>) -> Moved
    decreases es,
{
    if es.len() == 0 {
        nothing()
    } else {
        both(moves_fields(es.drop_last(), cx, skip), moves(*es.last().1, cx, skip))
    }
}


pub open spec fn moves_seg(s: PlaceSeg, cx: Rules, skip: Option<Seq<char>>) -> Moved
    decreases s,
{
    match s {
        PlaceSeg::Index { index, elem_ty: _ } => moves(*index, cx, skip),
        PlaceSeg::Field(_) => nothing(),
    }
}


pub open spec fn moves_path(es: Seq<PlaceSeg>, cx: Rules, skip: Option<Seq<char>>) -> Moved
    decreases es,
{
    if es.len() == 0 {
        nothing()
    } else {
        both(moves_path(es.drop_last(), cx, skip), moves_seg(es.last(), cx, skip))
    }
}


pub open spec fn moves_arg(a: Arg, cx: Rules, skip: Option<Seq<char>>) -> Moved
    decreases a,
{
    match a {
        Arg::Value(e) => moves(e, cx, skip),
        Arg::Mut(p) => moves_path(p.path@, cx, skip),
    }
}


pub open spec fn moves_args(es: Seq<Arg>, cx: Rules, skip: Option<Seq<char>>) -> Moved
    decreases es,
{
    if es.len() == 0 {
        nothing()
    } else {
        both(moves_args(es.drop_last(), cx, skip), moves_arg(es.last(), cx, skip))
    }
}


// ── The walk ─────────────────────────────────────────────────────────────

struct Ctx<'a> {
    liveness: &'a Liveness,
    exempt: &'a NameSet,
    linear: &'a Vec<Type>,
}

impl<'a> View for Ctx<'a> {
    type V = Rules;

    closed spec fn view(&self) -> Rules {
        Rules { marks: self.liveness@, exempt: self.exempt.set(), linear: type_views(self.linear@) }
    }
}

/// An outcome as a value.
pub open spec fn outcome(r: Result<NameSet, Spanned<TypeError>>) -> Moved {
    match r {
        Ok(s) => Ok(s.set()),
        Err(e) => Err((e.item.msg@, e.span)),
    }
}

fn alias_error(name: &String, span: Span) -> (r: Spanned<TypeError>)
    ensures
        r.item.msg@ == alias_message(name@),
        r.span == span,
{
    let mut msg = String::new();
    msg.push('\'');
    msg.append(name.as_str());
    msg.append("' is Linear; it can only be moved or passed `mut`, not aliased");
    assert(msg@ =~= alias_message(name@));
    Spanned::from(TypeError { msg }, span)
}

fn branch_join_error(name: &String, span: Span) -> (r: Spanned<TypeError>)
    ensures
        r.item.msg@ == join_message(name@),
        r.span == span,
{
    let mut msg = String::new();
    msg.push('\'');
    msg.append(name.as_str());
    msg.append(
        "' is Linear and is consumed on only one branch of this if/match \u{2014} it must be consumed on every branch or none",
    );
    assert(msg@ =~= join_message(name@));
    Spanned::from(TypeError { msg }, span)
}

fn implements_linear(linear: &Vec<Type>, ty: &Type) -> (r: bool)
    ensures
        r == type_views(linear@).contains(ty@),
{
    proof {
        type_views_index(linear@);
    }
    let mut i: usize = 0;
    while i < linear.len()
        invariant
            i <= linear.len() == type_views(linear@).len(),
            forall|k: int| 0 <= k < linear.len() ==> #[trigger] type_views(linear@)[k] == linear@[k]@,
            forall|k: int| 0 <= k < i ==> #[trigger] type_views(linear@)[k] != ty@,
        decreases linear.len() - i,
    {
        if linear[i].same(ty) {
            assert(type_views(linear@)[i as int] == ty@);
            return true;
        }
        i = i + 1;
    }
    false
}

/// The first name, in order, that is in the one set and not in the other.
fn first_odd(a: &NameSet, b: &NameSet) -> (r: Option<String>)
    ensures
        r is Some == odd_one(a.set(), b.set()) is Some,
        r is Some ==> r->0@ == odd_one(a.set(), b.set())->0,
{
    let x = a.minus(b);
    let y = b.minus(a);
    proof {
        crate::liveness::in_order_is(texts(x@));
        crate::liveness::in_order_is(texts(y@));
        assert(x.len() > 0 ==> texts(x@).to_set().contains(texts(x@)[0]));
        assert(y.len() > 0 ==> texts(y@).to_set().contains(texts(y@)[0]));
        assert(x.len() == 0 ==> texts(x@).to_set() =~= Set::<Seq<char>>::empty());
        assert(y.len() == 0 ==> texts(y@).to_set() =~= Set::<Seq<char>>::empty());
    }
    if x.len() > 0 {
        Some(x[0].clone())
    } else if y.len() > 0 {
        Some(y[0].clone())
    } else {
        None
    }
}

fn is_name(skip: Option<&String>, name: &String) -> (r: bool)
    ensures
        r == (skip_view(skip) == Some(name@)),
{
    match skip {
        Some(s) => same_text(s.as_str(), name.as_str()),
        None => false,
    }
}

pub open spec fn skip_view(skip: Option<&String>) -> Option<Seq<char>> {
    match skip {
        Some(s) => Some(s@),
        None => None,
    }
}

fn nothing_moved() -> (r: Result<NameSet, Spanned<TypeError>>)
    ensures
        outcome(r) == nothing(),
{
    Ok(NameSet::empty())
}

/// Applies the rule on reads to everything in `e`, and returns the linear
/// names that it moved. A read of the name `skip` is exempt: an assignment
/// that reads a place to compute its new value does not duplicate it.
fn walk(e: &Spanned<TypedExpr>, cx: &Ctx, skip: Option<&String>) -> (r: Result<NameSet, Spanned<TypeError>>)
    ensures
        outcome(r) == moves(*e, cx@, skip_view(skip)),
    decreases e, 1int,
{
    match &e.item.kind {
        TypedExprKind::IntLit(_)
        | TypedExprKind::FloatLit(_)
        | TypedExprKind::BoolLit(_)
        | TypedExprKind::StrLit(_)
        | TypedExprKind::NoneLit => nothing_moved(),
        TypedExprKind::Var(name) => {
            if is_name(skip, name) || cx.exempt.contains(name.as_str()) {
                return nothing_moved();
            }
            if implements_linear(cx.linear, &e.item.ty) {
                match cx.liveness.ownership(e.item.id) {
                    Ownership::Copy => {
                        return Err(alias_error(name, e.span));
                    },
                    Ownership::Move => {
                        return Ok(NameSet::empty().with(name.as_str()));
                    },
                }
            }
            nothing_moved()
        },
        TypedExprKind::Unary { op: _, expr } => walk(&**expr, cx, skip),
        TypedExprKind::Binary { op: _, left, right } => {
            let moved = walk(&**left, cx, skip)?;
            Ok(moved.union(&walk(&**right, cx, skip)?))
        },
        TypedExprKind::Index { target, index } => {
            let moved = walk(&**target, cx, skip)?;
            Ok(moved.union(&walk(&**index, cx, skip)?))
        },
        TypedExprKind::Slice { target, start, end } => {
            let moved = walk(&**target, cx, skip)?;
            let moved = moved.union(&walk_opt(start, cx, skip)?);
            Ok(moved.union(&walk_opt(end, cx, skip)?))
        },
        TypedExprKind::Range { start, end } => {
            let moved = walk(&**start, cx, skip)?;
            Ok(moved.union(&walk(&**end, cx, skip)?))
        },
        TypedExprKind::List(part) => walk_list(part, cx, skip),
        TypedExprKind::Dict(part) => walk_pairs(part, cx, skip),
        TypedExprKind::Block(part) => walk_list(part, cx, skip),
        TypedExprKind::StructInit { name: _, fields } => walk_fields(fields, cx, skip),
        TypedExprKind::FieldAccess { target, field: _, enum_name: _ } => walk(&**target, cx, skip),
        TypedExprKind::VariantInit { enum_name: _, variant: _, tag: _, fields } => walk_fields(fields, cx, skip),
        TypedExprKind::IsVariant { target, enum_name: _, variant: _, tag: _ } => walk(&**target, cx, skip),
        TypedExprKind::VariantField { target, enum_name: _, variant: _, field: _ } => walk(&**target, cx, skip),
        TypedExprKind::Return(part) => walk_opt(part, cx, skip),
        TypedExprKind::Widen { value, tag: _ } => walk(&**value, cx, skip),
        TypedExprKind::Narrow { value, tag: _ } => walk(&**value, cx, skip),
        TypedExprKind::TypeTag { target, tag: _ } => walk(&**target, cx, skip),
        TypedExprKind::Truthy(part) => walk(&**part, cx, skip),
        TypedExprKind::Coerce(part) => walk(&**part, cx, skip),
        TypedExprKind::Assign { name: _, value } => {
            if let TypedExprKind::Function { params: _, return_type: _, body: _ } = &value.item.kind {
                nothing_moved()
            } else {
                walk(&**value, cx, skip)
            }
        },
        TypedExprKind::Function { params: _, return_type: _, body: _ } => nothing_moved(),
        TypedExprKind::PlaceAssign { place, value } => {
            let moved = walk(&**value, cx, Some(&place.root))?;
            Ok(moved.union(&walk_path(&place.path, cx, Some(&place.root))?))
        },
        TypedExprKind::Call { callable: _, args } => walk_args(args, cx, skip),
        TypedExprKind::ForLoop { var: _, iterable, cond, body, iter_via: _ } => {
            let moved = walk(&**iterable, cx, skip)?;
            let moved = moved.union(&walk(&**body, cx, skip)?);
            Ok(moved.union(&walk_opt(cond, cx, skip)?))
        },
        TypedExprKind::Comprehension { var: _, iterable, cond, body, iter_via: _ } => {
            let moved = walk(&**iterable, cx, skip)?;
            let moved = moved.union(&walk(&**body, cx, skip)?);
            Ok(moved.union(&walk_opt(cond, cx, skip)?))
        },
        TypedExprKind::Conditional { cond, true_branch, false_branch } => {
            let true_moved = walk(&**true_branch, cx, skip)?;
            let false_moved = walk_opt(false_branch, cx, skip)?;
            if let Some(name) = first_odd(&true_moved, &false_moved) {
                return Err(branch_join_error(&name, e.span));
            }
            let joined = true_moved.union(&false_moved);
            Ok(joined.union(&walk(&**cond, cx, skip)?))
        },
    }
}

fn walk_opt(e: &Option<TypedExprRef>, cx: &Ctx, skip: Option<&String>) -> (r: Result<NameSet, Spanned<TypeError>>)
    ensures
        outcome(r) == moves_opt(*e, cx@, skip_view(skip)),
    decreases e, 0int,
{
    match e {
        Some(x) => walk(&**x, cx, skip),
        None => nothing_moved(),
    }
}


fn walk_list(
    es: &Vec<Spanned<TypedExpr>>,
    cx: &Ctx,
    skip: Option<&String>,
) -> (r: Result<NameSet, Spanned<TypeError>>)
    ensures
        outcome(r) == moves_list(es@, cx@, skip_view(skip)),
    decreases es, 0int,
{
    let mut moved = NameSet::empty();
    let mut i: usize = 0;
    while i < es.len()
        invariant
            i <= es.len(),
            moves_list(es@.take(i as int), cx@, skip_view(skip)) == Moved::Ok(moved.set()),
        decreases es.len() - i,
    {
        proof {
            assert(es@.take(i + 1).drop_last() =~= es@.take(i as int));
            assert(es@.take(i + 1).last() == es@[i as int]);
            moves_list_prefix_fails(es@, i + 1, cx@, skip_view(skip));
        }
        moved = moved.union(&walk(&es[i], cx, skip)?);
        i = i + 1;
    }
    assert(es@.take(i as int) =~= es@);
    Ok(moved)
}

proof fn moves_list_prefix_fails(es: Seq<Spanned<TypedExpr>>, n: int, cx: Rules, skip: Option<Seq<char>>)
    requires
        0 <= n <= es.len(),
    ensures
        moves_list(es.take(n), cx, skip) is Err ==> moves_list(es, cx, skip) == moves_list(es.take(n), cx, skip),
    decreases es.len(),
{
    if n < es.len() {
        moves_list_prefix_fails(es.drop_last(), n, cx, skip);
        assert(es.drop_last().take(n) =~= es.take(n));
    } else {
        assert(es.take(n) =~= es);
    }
}


fn walk_pairs(
    es: &Vec<(Spanned<TypedExpr>, Spanned<TypedExpr>)>,
    cx: &Ctx,
    skip: Option<&String>,
) -> (r: Result<NameSet, Spanned<TypeError>>)
    ensures
        outcome(r) == moves_pairs(es@, cx@, skip_view(skip)),
    decreases es, 0int,
{
    let mut moved = NameSet::empty();
    let mut i: usize = 0;
    while i < es.len()
        invariant
            i <= es.len(),
            moves_pairs(es@.take(i as int), cx@, skip_view(skip)) == Moved::Ok(moved.set()),
        decreases es.len() - i,
    {
        proof {
            assert(es@.take(i + 1).drop_last() =~= es@.take(i as int));
            assert(es@.take(i + 1).last() == es@[i as int]);
            moves_pairs_prefix_fails(es@, i + 1, cx@, skip_view(skip));
        }
        moved = moved.union(&walk(&es[i].0, cx, skip)?);
        moved = moved.union(&walk(&es[i].1, cx, skip)?);
        i = i + 1;
    }
    assert(es@.take(i as int) =~= es@);
    Ok(moved)
}

proof fn moves_pairs_prefix_fails(
    es: Seq<(Spanned<TypedExpr>, Spanned<TypedExpr>)>,
    n: int,
    cx: Rules,
    skip: Option<Seq<char>>,
)
    requires
        0 <= n <= es.len(),
    ensures
        moves_pairs(es.take(n), cx, skip) is Err ==> moves_pairs(es, cx, skip) == moves_pairs(es.take(n), cx, skip),
    decreases es.len(),
{
    if n < es.len() {
        moves_pairs_prefix_fails(es.drop_last(), n, cx, skip);
        assert(es.drop_last().take(n) =~= es.take(n));
    } else {
        assert(es.take(n) =~= es);
    }
}


fn walk_fields(
    es: &Vec<(String, TypedExprRef)>,
    cx: &Ctx,
    skip: Option<&String>,
) -> (r: Result<NameSet, Spanned<TypeError>>)
    ensures
        outcome(r) == moves_fields(es@, cx@, skip_view(skip)),
    decreases es, 0int,
{
    let mut moved = NameSet::empty();
    let mut i: usize = 0;
    while i < es.len()
        invariant
            i <= es.len(),
            moves_fields(es@.take(i as int), cx@, skip_view(skip)) == Moved::Ok(moved.set()),
        decreases es.len() - i,
    {
        proof {
            assert(es@.take(i + 1).drop_last() =~= es@.take(i as int));
            assert(es@.take(i + 1).last() == es@[i as int]);
            moves_fields_prefix_fails(es@, i + 1, cx@, skip_view(skip));
        }
        moved = moved.union(&walk(&*es[i].1, cx, skip)?);
        i = i + 1;
    }
    assert(es@.take(i as int) =~= es@);
    Ok(moved)
}

proof fn moves_fields_prefix_fails(es: Seq<(String, TypedExprRef)>, n: int, cx: Rules, skip: Option<Seq<char>>)
    requires
        0 <= n <= es.len(),
    ensures
        moves_fields(es.take(n), cx, skip) is Err ==> moves_fields(es, cx, skip) == moves_fields(es.take(n), cx, skip),
    decreases es.len(),
{
    if n < es.len() {
        moves_fields_prefix_fails(es.drop_last(), n, cx, skip);
        assert(es.drop_last().take(n) =~= es.take(n));
    } else {
        assert(es.take(n) =~= es);
    }
}


fn walk_seg(s: &PlaceSeg, cx: &Ctx, skip: Option<&String>) -> (r: Result<NameSet, Spanned<TypeError>>)
    ensures
        outcome(r) == moves_seg(*s, cx@, skip_view(skip)),
    decreases s, 0int,
{
    match s {
        PlaceSeg::Index { index, elem_ty: _ } => walk(&**index, cx, skip),
        PlaceSeg::Field(_) => nothing_moved(),
    }
}


fn walk_path(es: &Vec<PlaceSeg>, cx: &Ctx, skip: Option<&String>) -> (r: Result<NameSet, Spanned<TypeError>>)
    ensures
        outcome(r) == moves_path(es@, cx@, skip_view(skip)),
    decreases es, 0int,
{
    let mut moved = NameSet::empty();
    let mut i: usize = 0;
    while i < es.len()
        invariant
            i <= es.len(),
            moves_path(es@.take(i as int), cx@, skip_view(skip)) == Moved::Ok(moved.set()),
        decreases es.len() - i,
    {
        proof {
            assert(es@.take(i + 1).drop_last() =~= es@.take(i as int));
            assert(es@.take(i + 1).last() == es@[i as int]);
            moves_path_prefix_fails(es@, i + 1, cx@, skip_view(skip));
        }
        moved = moved.union(&walk_seg(&es[i], cx, skip)?);
        i = i + 1;
    }
    assert(es@.take(i as int) =~= es@);
    Ok(moved)
}

proof fn moves_path_prefix_fails(es: Seq<PlaceSeg>, n: int, cx: Rules, skip: Option<Seq<char>>)
    requires
        0 <= n <= es.len(),
    ensures
        moves_path(es.take(n), cx, skip) is Err ==> moves_path(es, cx, skip) == moves_path(es.take(n), cx, skip),
    decreases es.len(),
{
    if n < es.len() {
        moves_path_prefix_fails(es.drop_last(), n, cx, skip);
        assert(es.drop_last().take(n) =~= es.take(n));
    } else {
        assert(es.take(n) =~= es);
    }
}


fn walk_arg(a: &Arg, cx: &Ctx, skip: Option<&String>) -> (r: Result<NameSet, Spanned<TypeError>>)
    ensures
        outcome(r) == moves_arg(*a, cx@, skip_view(skip)),
    decreases a, 0int,
{
    match a {
        Arg::Value(e) => walk(e, cx, skip),
        Arg::Mut(p) => walk_path(&p.path, cx, skip),
    }
}


fn walk_args(es: &Vec<Arg>, cx: &Ctx, skip: Option<&String>) -> (r: Result<NameSet, Spanned<TypeError>>)
    ensures
        outcome(r) == moves_args(es@, cx@, skip_view(skip)),
    decreases es, 0int,
{
    let mut moved = NameSet::empty();
    let mut i: usize = 0;
    while i < es.len()
        invariant
            i <= es.len(),
            moves_args(es@.take(i as int), cx@, skip_view(skip)) == Moved::Ok(moved.set()),
        decreases es.len() - i,
    {
        proof {
            assert(es@.take(i + 1).drop_last() =~= es@.take(i as int));
            assert(es@.take(i + 1).last() == es@[i as int]);
            moves_args_prefix_fails(es@, i + 1, cx@, skip_view(skip));
        }
        moved = moved.union(&walk_arg(&es[i], cx, skip)?);
        i = i + 1;
    }
    assert(es@.take(i as int) =~= es@);
    Ok(moved)
}

proof fn moves_args_prefix_fails(es: Seq<Arg>, n: int, cx: Rules, skip: Option<Seq<char>>)
    requires
        0 <= n <= es.len(),
    ensures
        moves_args(es.take(n), cx, skip) is Err ==> moves_args(es, cx, skip) == moves_args(es.take(n), cx, skip),
    decreases es.len(),
{
    if n < es.len() {
        moves_args_prefix_fails(es.drop_last(), n, cx, skip);
        assert(es.drop_last().take(n) =~= es.take(n));
    } else {
        assert(es.take(n) =~= es);
    }
}


// ── The check ────────────────────────────────────────────────────────────

/// The names of the `mut` parameters.
pub open spec fn mut_params(ps: Seq<(String, Type, bool)>) -> Names
    decreases ps.len(),
{
    if ps.len() == 0 {
        Set::empty()
    } else if ps.last().2 {
        mut_params(ps.drop_last()).insert(ps.last().0@)
    } else {
        mut_params(ps.drop_last())
    }
}

/// The names that a run of top-level statements binds to values other than
/// functions.
pub open spec fn bound_names(stmts: Seq<Spanned<TypedExpr>>) -> Names
    decreases stmts.len(),
{
    if stmts.len() == 0 {
        Set::empty()
    } else {
        match stmts.last().item.kind {
            TypedExprKind::Assign { name, value } => if value.item.kind is Function {
                bound_names(stmts.drop_last())
            } else {
                bound_names(stmts.drop_last()).insert(name@)
            },
            _ => bound_names(stmts.drop_last()),
        }
    }
}

/// What the check of a statement that binds a function comes to: the
/// function's body, with its `mut` parameters exempt. Other statements pass.
pub open spec fn function_moves(s: Spanned<TypedExpr>, linear: Seq<Ty>) -> Moved {
    match s.item.kind {
        TypedExprKind::Assign { name: _, value } => match value.item.kind {
            TypedExprKind::Function { params, return_type: _, body } => {
                let exempt = mut_params(params@);
                moves(*body, Rules { marks: marks(*body, exempt, exempt, no_marks()), exempt, linear }, None)
            },
            _ => nothing(),
        },
        _ => nothing(),
    }
}

pub open spec fn functions_move(stmts: Seq<Spanned<TypedExpr>>, linear: Seq<Ty>) -> Moved
    decreases stmts.len(),
{
    if stmts.len() == 0 {
        nothing()
    } else {
        both(functions_move(stmts.drop_last(), linear), function_moves(stmts.last(), linear))
    }
}

/// What the statements themselves come to, where every name bound earlier or
/// here outlives them.
pub open spec fn entry_moves(stmts: Seq<Spanned<TypedExpr>>, prior: Names, linear: Seq<Ty>) -> Moved {
    let exit = prior.union(bound_names(stmts));
    moves_list(stmts, Rules { marks: marks_block(stmts, exit, exit, no_marks()), exempt: Set::empty(), linear }, None)
}

/// The names of the `mut` parameters.
pub fn mut_param_names(ps: &Vec<(String, Type, bool)>) -> (r: NameSet)
    ensures
        r.set() == mut_params(ps@),
{
    let mut out = NameSet::empty();
    let mut i: usize = 0;
    while i < ps.len()
        invariant
            i <= ps.len(),
            out.set() == mut_params(ps@.take(i as int)),
        decreases ps.len() - i,
    {
        assert(ps@.take(i + 1).drop_last() =~= ps@.take(i as int));
        if ps[i].2 {
            out = out.with(ps[i].0.as_str());
        }
        i = i + 1;
    }
    assert(ps@.take(i as int) =~= ps@);
    out
}

/// The names live after a run of top-level statements: those bound earlier
/// and those that it binds itself.
pub fn entry_exit_live(stmts: &Vec<Spanned<TypedExpr>>, prior: &NameSet) -> (r: NameSet)
    ensures
        r.set() == prior.set().union(bound_names(stmts@)),
{
    let mut out = prior.copied();
    let mut i: usize = 0;
    assert(out.set() =~= prior.set().union(bound_names(stmts@.take(0))));
    while i < stmts.len()
        invariant
            i <= stmts.len(),
            out.set() == prior.set().union(bound_names(stmts@.take(i as int))),
        decreases stmts.len() - i,
    {
        assert(stmts@.take(i + 1).drop_last() =~= stmts@.take(i as int));
        assert(stmts@.take(i + 1).last() == stmts@[i as int]);
        if let TypedExprKind::Assign { name, value } = &stmts[i].item.kind {
            if let TypedExprKind::Function { params: _, return_type: _, body: _ } = &value.item.kind {
            } else {
                out = out.with(name.as_str());
            }
        }
        assert(out.set() =~= prior.set().union(bound_names(stmts@.take(i + 1))));
        i = i + 1;
    }
    assert(stmts@.take(i as int) =~= stmts@);
    out
}

/// Checks the body of every function that these statements bind, and then the
/// statements themselves. `linear` are the linear types, `prior_exit_live` the
/// names bound earlier.
pub fn check(stmts: &Vec<Spanned<TypedExpr>>, prior_exit_live: &NameSet, linear: &Vec<Type>) -> (r: Result<
    (),
    Spanned<TypeError>,
>)
    ensures
        match both(
            functions_move(stmts@, type_views(linear@)),
            entry_moves(stmts@, prior_exit_live.set(), type_views(linear@)),
        ) {
            Ok(_) => r is Ok,
            Err((msg, span)) => r is Err && r->Err_0.item.msg@ == msg && r->Err_0.span == span,
        },
{
    let ghost lin = type_views(linear@);
    let mut i: usize = 0;
    while i < stmts.len()
        invariant
            i <= stmts.len(),
            lin == type_views(linear@),
            functions_move(stmts@.take(i as int), lin) is Ok,
        decreases stmts.len() - i,
    {
        proof {
            assert(stmts@.take(i + 1).drop_last() =~= stmts@.take(i as int));
            assert(stmts@.take(i + 1).last() == stmts@[i as int]);
            functions_prefix_fails(stmts@, i + 1, lin);
        }
        if let TypedExprKind::Assign { name: _, value } = &stmts[i].item.kind {
            if let TypedExprKind::Function { params, return_type: _, body } = &value.item.kind {
                let exempt = mut_param_names(params);
                let liveness = analyze_body(&**body, &exempt);
                let cx = Ctx { liveness: &liveness, exempt: &exempt, linear };
                let _ = walk(&**body, &cx, None)?;
            }
        }
        i = i + 1;
    }
    assert(stmts@.take(i as int) =~= stmts@);
    let exit_live = entry_exit_live(stmts, prior_exit_live);
    let liveness = analyze_entry(stmts, &exit_live);
    let exempt = NameSet::empty();
    let cx = Ctx { liveness: &liveness, exempt: &exempt, linear };
    let _ = walk_list(stmts, &cx, None)?;
    Ok(())
}

proof fn functions_prefix_fails(es: Seq<Spanned<TypedExpr>>, n: int, linear: Seq<Ty>)
    requires
        0 <= n <= es.len(),
    ensures
        functions_move(es.take(n), linear) is Err ==> functions_move(es, linear) == functions_move(es.take(n), linear),
    decreases es.len(),
{
    if n < es.len() {
        functions_prefix_fails(es.drop_last(), n, linear);
        assert(es.drop_last().take(n) =~= es.take(n));
    } else {
        assert(es.take(n) =~= es);
    }
}

// ── Laws ─────────────────────────────────────────────────────────────────

/// Reads, each the name that is read and the node that reads it.
pub type Reads = Set<(Seq<char>, u32)>;

/// The reads below `e` that the rules are about: those of a value of linear
/// type, but for exempt names and the name `skip`.
pub open spec fn ruled(e: Spanned<TypedExpr>, cx: Rules, skip: Option<Seq<char>>) -> Reads
    decreases e,
{
    match e.item.kind {
        TypedExprKind::Var(name) => if skip == Some(name@) || cx.exempt.contains(name@) || !cx.linear.contains(
            e.item.ty@,
        ) {
            Set::empty()
        } else {
            Set::empty().insert((name@, e.item.id))
        },
        TypedExprKind::Unary { op: _, expr } => ruled(*expr, cx, skip),
        TypedExprKind::FieldAccess { target, field: _, enum_name: _ } => ruled(*target, cx, skip),
        TypedExprKind::IsVariant { target, enum_name: _, variant: _, tag: _ } => ruled(*target, cx, skip),
        TypedExprKind::VariantField { target, enum_name: _, variant: _, field: _ } => ruled(*target, cx, skip),
        TypedExprKind::Widen { value, tag: _ } => ruled(*value, cx, skip),
        TypedExprKind::Narrow { value, tag: _ } => ruled(*value, cx, skip),
        TypedExprKind::TypeTag { target, tag: _ } => ruled(*target, cx, skip),
        TypedExprKind::Truthy(part) => ruled(*part, cx, skip),
        TypedExprKind::Coerce(part) => ruled(*part, cx, skip),
        TypedExprKind::Binary { op: _, left, right } => ruled(*left, cx, skip).union(ruled(*right, cx, skip)),
        TypedExprKind::Index { target, index } => ruled(*target, cx, skip).union(ruled(*index, cx, skip)),
        TypedExprKind::Range { start, end } => ruled(*start, cx, skip).union(ruled(*end, cx, skip)),
        TypedExprKind::Slice { target, start, end } => ruled(*target, cx, skip).union(
            ruled_opt(start, cx, skip),
        ).union(ruled_opt(end, cx, skip)),
        TypedExprKind::List(part) => ruled_list(part@, cx, skip),
        TypedExprKind::Dict(part) => ruled_pairs(part@, cx, skip),
        TypedExprKind::Block(part) => ruled_list(part@, cx, skip),
        TypedExprKind::StructInit { name: _, fields } => ruled_fields(fields@, cx, skip),
        TypedExprKind::VariantInit { enum_name: _, variant: _, tag: _, fields } => ruled_fields(fields@, cx, skip),
        TypedExprKind::Return(part) => ruled_opt(part, cx, skip),
        TypedExprKind::Assign { name: _, value } => if value.item.kind is Function {
            Set::empty()
        } else {
            ruled(*value, cx, skip)
        },
        TypedExprKind::PlaceAssign { place, value } => ruled(*value, cx, Some(place.root@)).union(
            ruled_path(place.path@, cx, Some(place.root@)),
        ),
        TypedExprKind::Call { callable: _, args } => ruled_args(args@, cx, skip),
        TypedExprKind::ForLoop { var: _, iterable, cond, body, iter_via: _ } => ruled(*iterable, cx, skip).union(
            ruled(*body, cx, skip),
        ).union(ruled_opt(cond, cx, skip)),
        TypedExprKind::Comprehension { var: _, iterable, cond, body, iter_via: _ } => ruled(*iterable, cx, skip).union(
            ruled(*body, cx, skip),
        ).union(ruled_opt(cond, cx, skip)),
        TypedExprKind::Conditional { cond, true_branch, false_branch } => ruled(*true_branch, cx, skip).union(
            ruled_opt(false_branch, cx, skip),
        ).union(ruled(*cond, cx, skip)),
        _ => Set::empty(),
    }
}

pub open spec fn ruled_opt(e: Option<TypedExprRef>, cx: Rules, skip: Option<Seq<char>>) -> Reads
    decreases e,
{
    match e {
        Some(x) => ruled(*x, cx, skip),
        None => Set::empty(),
    }
}

pub open spec fn ruled_list(es: Seq<Spanned<TypedExpr>>, cx: Rules, skip: Option<Seq<char>>) -> Reads
    decreases es,
{
    if es.len() == 0 {
        Set::empty()
    } else {
        ruled_list(es.drop_last(), cx, skip).union(ruled(es.last(), cx, skip))
    }
}

pub open spec fn ruled_pairs(
    es: Seq<(Spanned<TypedExpr>, Spanned<TypedExpr>)>,
    cx: Rules,
    skip: Option<Seq<char>>,
) -> Reads
    decreases es,
{
    if es.len() == 0 {
        Set::empty()
    } else {
        ruled_pairs(es.drop_last(), cx, skip).union(ruled(es.last().0, cx, skip)).union(ruled(es.last().1, cx, skip))
    }
}

pub open spec fn ruled_fields(es: Seq<(String, TypedExprRef)>, cx: Rules, skip: Option<Seq<char>>) -> Reads
    decreases es,
{
    if es.len() == 0 {
        Set::empty()
    } else {
        ruled_fields(es.drop_last(), cx, skip).union(ruled(*es.last().1, cx, skip))
    }
}

pub open spec fn ruled_seg(s: PlaceSeg, cx: Rules, skip: Option<Seq<char>>) -> Reads
    decreases s,
{
    match s {
        PlaceSeg::Index { index, elem_ty: _ } => ruled(*index, cx, skip),
        PlaceSeg::Field(_) => Set::empty(),
    }
}

pub open spec fn ruled_path(es: Seq<PlaceSeg>, cx: Rules, skip: Option<Seq<char>>) -> Reads
    decreases es,
{
    if es.len() == 0 {
        Set::empty()
    } else {
        ruled_path(es.drop_last(), cx, skip).union(ruled_seg(es.last(), cx, skip))
    }
}

pub open spec fn ruled_arg(a: Arg, cx: Rules, skip: Option<Seq<char>>) -> Reads
    decreases a,
{
    match a {
        Arg::Value(e) => ruled(e, cx, skip),
        Arg::Mut(p) => ruled_path(p.path@, cx, skip),
    }
}

pub open spec fn ruled_args(es: Seq<Arg>, cx: Rules, skip: Option<Seq<char>>) -> Reads
    decreases es,
{
    if es.len() == 0 {
        Set::empty()
    } else {
        ruled_args(es.drop_last(), cx, skip).union(ruled_arg(es.last(), cx, skip))
    }
}

/// The names that are read.
pub open spec fn names_of(rs: Reads) -> Names {
    Set::new(|n: Seq<char>| exists|id: u32| rs.contains((n, id)))
}

/// Whether, if `got` is no failure, all these reads are the last of their
/// names, and theirs are the names that moved.
pub open spec fn all_move(rs: Reads, cx: Rules, got: Moved) -> bool {
    got is Ok ==> {
        &&& got->Ok_0 == names_of(rs)
        &&& forall|n: Seq<char>, id: u32| #[trigger] rs.contains((n, id)) ==> cx.marks.last.contains(id)
    }
}

proof fn none_move(cx: Rules)
    ensures
        all_move(Set::empty(), cx, nothing()),
{
    assert(names_of(Set::empty()) =~= Set::<Seq<char>>::empty());
}

proof fn both_move(a: Reads, b: Reads, cx: Rules, x: Moved, y: Moved)
    requires
        all_move(a, cx, x),
        all_move(b, cx, y),
    ensures
        all_move(a.union(b), cx, both(x, y)),
{
    if x is Ok && y is Ok {
        assert forall|n: Seq<char>|
            names_of(a.union(b)).contains(n) == (names_of(a).contains(n) || names_of(b).contains(n)) by {
            if names_of(a).contains(n) {
                let id = choose|id: u32| a.contains((n, id));
                assert(a.union(b).contains((n, id)));
            }
            if names_of(b).contains(n) {
                let id = choose|id: u32| b.contains((n, id));
                assert(a.union(b).contains((n, id)));
            }
            if names_of(a.union(b)).contains(n) {
                let id = choose|id: u32| a.union(b).contains((n, id));
                assert(a.contains((n, id)) || b.contains((n, id)));
            }
        }
        assert(both(x, y)->Ok_0 =~= names_of(a.union(b)));
    }
}

proof fn even_branches(a: Names, b: Names)
    requires
        odd_one(a, b) is None,
    ensures
        a == b,
{
    assert forall|n: Seq<char>| a.contains(n) == b.contains(n) by {
        if a.contains(n) && !b.contains(n) {
            assert(a.difference(b).contains(n));
        }
        if b.contains(n) && !a.contains(n) {
            assert(b.difference(a).contains(n));
        }
    }
    assert(a =~= b);
}

/// In what the rules accept, every read of a linear value, but for exempt
/// names, is the last one of its name; and the names that move are those.
pub proof fn linear_reads_move(e: Spanned<TypedExpr>, cx: Rules, skip: Option<Seq<char>>)
    ensures
        moves(e, cx, skip) matches Ok(names) ==> names == names_of(ruled(e, cx, skip)) && forall|n: Seq<char>, id: u32|
            #[trigger] ruled(e, cx, skip).contains((n, id)) ==> cx.marks.last.contains(id),
{
    reads_move(e, cx, skip);
}

/// In what the rules accept, both ways of a branch move the same names.
pub proof fn branches_move_the_same(e: Spanned<TypedExpr>, cx: Rules, skip: Option<Seq<char>>)
    requires
        e.item.kind is Conditional,
        moves(e, cx, skip) is Ok,
    ensures
        e.item.kind matches TypedExprKind::Conditional { cond: _, true_branch, false_branch } ==> names_of(
            ruled(*true_branch, cx, skip),
        ) == names_of(ruled_opt(false_branch, cx, skip)),
{
    if let TypedExprKind::Conditional { cond: _, true_branch, false_branch } = e.item.kind {
        reads_move(*true_branch, cx, skip);
        opt_moves(false_branch, cx, skip);
        even_branches(moves(*true_branch, cx, skip)->Ok_0, moves_opt(false_branch, cx, skip)->Ok_0);
    }
}

proof fn the_odd_one_is_odd(a: Names, b: Names)
    requires
        a.finite(),
        b.finite(),
        a != b,
    ensures
        odd_one(a, b) matches Some(n) && a.contains(n) != b.contains(n),
{
    let (x, y) = (a.difference(b), b.difference(a));
    can_be_in_order(x);
    can_be_in_order(y);
    if x != Set::<Seq<char>>::empty() {
        let q = in_order(x);
        if q.len() == 0 {
            assert(q.to_set() =~= Set::<Seq<char>>::empty());
        }
        assert(q.to_set().contains(q[0]));
    } else if y != Set::<Seq<char>>::empty() {
        let q = in_order(y);
        if q.len() == 0 {
            assert(q.to_set() =~= Set::<Seq<char>>::empty());
        }
        assert(q.to_set().contains(q[0]));
    } else {
        even_branches(a, b);
    }
}

/// A linear name is consumed on every way of a branch or on none: where both
/// ways and the condition are accepted, the whole is if and only if both ways
/// move the same names, and otherwise it fails at the branch, over a name that
/// one of the ways moves and the other does not.
pub proof fn a_branch_consumes_on_every_way(
    e: Spanned<TypedExpr>,
    cx: Rules,
    skip: Option<Seq<char>>,
    yes: Names,
    no: Names,
    test: Names,
)
    requires
        yes.finite(),
        no.finite(),
        e.item.kind matches TypedExprKind::Conditional { cond, true_branch, false_branch } && moves(*cond, cx, skip)
            == Moved::Ok(test) && moves(*true_branch, cx, skip) == Moved::Ok(yes) && moves_opt(false_branch, cx, skip)
            == Moved::Ok(no),
    ensures
        yes == no ==> moves(e, cx, skip) == Moved::Ok(yes.union(test)),
        yes != no ==> exists|n: Seq<char>|
            yes.contains(n) != no.contains(n) && moves(e, cx, skip) == Moved::Err((#[trigger] join_message(n), e.span)),
{
    if yes == no {
        assert(yes.difference(no) =~= Set::empty());
        assert(no.difference(yes) =~= Set::empty());
        assert(yes.union(no) =~= yes);
    } else {
        the_odd_one_is_odd(yes, no);
        let n = odd_one(yes, no)->0;
        assert(yes.contains(n) != no.contains(n) && moves(e, cx, skip) == Moved::Err((join_message(n), e.span)));
    }
}

proof fn reads_move(e: Spanned<TypedExpr>, cx: Rules, skip: Option<Seq<char>>)
    ensures
        all_move(ruled(e, cx, skip), cx, moves(e, cx, skip)),
    decreases e, 1int,
{
    none_move(cx);
    match e.item.kind {
        TypedExprKind::Var(name) => {
            let one: Reads = Set::empty().insert((name@, e.item.id));
            assert(one.contains((name@, e.item.id)));
            assert(names_of(one) =~= Set::<Seq<char>>::empty().insert(name@));
        },
        TypedExprKind::Unary { op: _, expr } => reads_move(*expr, cx, skip),
        TypedExprKind::FieldAccess { target, field: _, enum_name: _ } => reads_move(*target, cx, skip),
        TypedExprKind::IsVariant { target, enum_name: _, variant: _, tag: _ } => reads_move(*target, cx, skip),
        TypedExprKind::VariantField { target, enum_name: _, variant: _, field: _ } => reads_move(*target, cx, skip),
        TypedExprKind::Widen { value, tag: _ } => reads_move(*value, cx, skip),
        TypedExprKind::Narrow { value, tag: _ } => reads_move(*value, cx, skip),
        TypedExprKind::TypeTag { target, tag: _ } => reads_move(*target, cx, skip),
        TypedExprKind::Truthy(part) => reads_move(*part, cx, skip),
        TypedExprKind::Coerce(part) => reads_move(*part, cx, skip),
        TypedExprKind::List(part) => list_moves(part@, cx, skip),
        TypedExprKind::Dict(part) => pairs_move(part@, cx, skip),
        TypedExprKind::Block(part) => list_moves(part@, cx, skip),
        TypedExprKind::StructInit { name: _, fields } => fields_move(fields@, cx, skip),
        TypedExprKind::VariantInit { enum_name: _, variant: _, tag: _, fields } => fields_move(fields@, cx, skip),
        TypedExprKind::Return(part) => opt_moves(part, cx, skip),
        TypedExprKind::Assign { name: _, value } => reads_move(*value, cx, skip),
        TypedExprKind::Call { callable: _, args } => args_move(args@, cx, skip),
        _ => parts_move(e, cx, skip),
    }
}

proof fn parts_move(e: Spanned<TypedExpr>, cx: Rules, skip: Option<Seq<char>>)
    ensures
        e.item.kind is Binary || e.item.kind is Index || e.item.kind is Range || e.item.kind is Slice
            || e.item.kind is PlaceAssign || e.item.kind is ForLoop || e.item.kind is Comprehension
            || e.item.kind is Conditional ==> all_move(ruled(e, cx, skip), cx, moves(e, cx, skip)),
    decreases e, 0int,
{
    match e.item.kind {
        TypedExprKind::Binary { op: _, left, right } => {
            reads_move(*left, cx, skip);
            reads_move(*right, cx, skip);
            both_move(ruled(*left, cx, skip), ruled(*right, cx, skip), cx, moves(*left, cx, skip), moves(*right, cx, skip));
        },
        TypedExprKind::Index { target, index } => {
            reads_move(*target, cx, skip);
            reads_move(*index, cx, skip);
            both_move(ruled(*target, cx, skip), ruled(*index, cx, skip), cx, moves(*target, cx, skip), moves(*index, cx, skip));
        },
        TypedExprKind::Range { start, end } => {
            reads_move(*start, cx, skip);
            reads_move(*end, cx, skip);
            both_move(ruled(*start, cx, skip), ruled(*end, cx, skip), cx, moves(*start, cx, skip), moves(*end, cx, skip));
        },
        TypedExprKind::Slice { target, start, end } => {
            let (a, x) = (ruled(*target, cx, skip), moves(*target, cx, skip));
            let (b, y) = (ruled_opt(start, cx, skip), moves_opt(start, cx, skip));
            reads_move(*target, cx, skip);
            opt_moves(start, cx, skip);
            opt_moves(end, cx, skip);
            both_move(a, b, cx, x, y);
            both_move(a.union(b), ruled_opt(end, cx, skip), cx, both(x, y), moves_opt(end, cx, skip));
        },
        TypedExprKind::PlaceAssign { place, value } => {
            let root = Some(place.root@);
            reads_move(*value, cx, root);
            path_moves(place.path@, cx, root);
            both_move(
                ruled(*value, cx, root),
                ruled_path(place.path@, cx, root),
                cx,
                moves(*value, cx, root),
                moves_path(place.path@, cx, root),
            );
        },
        TypedExprKind::ForLoop { var: _, iterable, cond, body, iter_via: _ } => {
            let (a, x) = (ruled(*iterable, cx, skip), moves(*iterable, cx, skip));
            let (b, y) = (ruled(*body, cx, skip), moves(*body, cx, skip));
            reads_move(*iterable, cx, skip);
            reads_move(*body, cx, skip);
            opt_moves(cond, cx, skip);
            both_move(a, b, cx, x, y);
            both_move(a.union(b), ruled_opt(cond, cx, skip), cx, both(x, y), moves_opt(cond, cx, skip));
        },
        TypedExprKind::Comprehension { var: _, iterable, cond, body, iter_via: _ } => {
            let (a, x) = (ruled(*iterable, cx, skip), moves(*iterable, cx, skip));
            let (b, y) = (ruled(*body, cx, skip), moves(*body, cx, skip));
            reads_move(*iterable, cx, skip);
            reads_move(*body, cx, skip);
            opt_moves(cond, cx, skip);
            both_move(a, b, cx, x, y);
            both_move(a.union(b), ruled_opt(cond, cx, skip), cx, both(x, y), moves_opt(cond, cx, skip));
        },
        TypedExprKind::Conditional { cond, true_branch, false_branch } => {
            let (a, x) = (ruled(*true_branch, cx, skip), moves(*true_branch, cx, skip));
            let (b, y) = (ruled_opt(false_branch, cx, skip), moves_opt(false_branch, cx, skip));
            reads_move(*true_branch, cx, skip);
            opt_moves(false_branch, cx, skip);
            reads_move(*cond, cx, skip);
            both_move(a, b, cx, x, y);
            both_move(a.union(b), ruled(*cond, cx, skip), cx, both(x, y), moves(*cond, cx, skip));
        },
        _ => {},
    }
}

proof fn opt_moves(e: Option<TypedExprRef>, cx: Rules, skip: Option<Seq<char>>)
    ensures
        all_move(ruled_opt(e, cx, skip), cx, moves_opt(e, cx, skip)),
    decreases e, 0int,
{
    none_move(cx);
    if let Some(x) = e {
        reads_move(*x, cx, skip);
    }
}

proof fn list_moves(es: Seq<Spanned<TypedExpr>>, cx: Rules, skip: Option<Seq<char>>)
    ensures
        all_move(ruled_list(es, cx, skip), cx, moves_list(es, cx, skip)),
    decreases es, 0int,
{
    none_move(cx);
    if es.len() > 0 {
        let (front, last) = (es.drop_last(), es.last());
        list_moves(es.drop_last(), cx, skip);
        reads_move(es.last(), cx, skip);
        both_move(
            ruled_list(front, cx, skip),
            ruled(last, cx, skip),
            cx,
            moves_list(front, cx, skip),
            moves(last, cx, skip),
        );
    }
}

proof fn pairs_move(es: Seq<(Spanned<TypedExpr>, Spanned<TypedExpr>)>, cx: Rules, skip: Option<Seq<char>>)
    ensures
        all_move(ruled_pairs(es, cx, skip), cx, moves_pairs(es, cx, skip)),
    decreases es, 0int,
{
    none_move(cx);
    if es.len() > 0 {
        let (a, x) = (ruled_pairs(es.drop_last(), cx, skip), moves_pairs(es.drop_last(), cx, skip));
        let (b, y) = (ruled(es.last().0, cx, skip), moves(es.last().0, cx, skip));
        pairs_move(es.drop_last(), cx, skip);
        reads_move(es.last().0, cx, skip);
        reads_move(es.last().1, cx, skip);
        both_move(a, b, cx, x, y);
        both_move(a.union(b), ruled(es.last().1, cx, skip), cx, both(x, y), moves(es.last().1, cx, skip));
    }
}

proof fn fields_move(es: Seq<(String, TypedExprRef)>, cx: Rules, skip: Option<Seq<char>>)
    ensures
        all_move(ruled_fields(es, cx, skip), cx, moves_fields(es, cx, skip)),
    decreases es, 0int,
{
    none_move(cx);
    if es.len() > 0 {
        fields_move(es.drop_last(), cx, skip);
        reads_move(*es.last().1, cx, skip);
        both_move(
            ruled_fields(es.drop_last(), cx, skip),
            ruled(*es.last().1, cx, skip),
            cx,
            moves_fields(es.drop_last(), cx, skip),
            moves(*es.last().1, cx, skip),
        );
    }
}

proof fn seg_moves(s: PlaceSeg, cx: Rules, skip: Option<Seq<char>>)
    ensures
        all_move(ruled_seg(s, cx, skip), cx, moves_seg(s, cx, skip)),
    decreases s, 0int,
{
    none_move(cx);
    if let PlaceSeg::Index { index, elem_ty: _ } = s {
        reads_move(*index, cx, skip);
    }
}

proof fn path_moves(es: Seq<PlaceSeg>, cx: Rules, skip: Option<Seq<char>>)
    ensures
        all_move(ruled_path(es, cx, skip), cx, moves_path(es, cx, skip)),
    decreases es, 0int,
{
    none_move(cx);
    if es.len() > 0 {
        path_moves(es.drop_last(), cx, skip);
        seg_moves(es.last(), cx, skip);
        both_move(
            ruled_path(es.drop_last(), cx, skip),
            ruled_seg(es.last(), cx, skip),
            cx,
            moves_path(es.drop_last(), cx, skip),
            moves_seg(es.last(), cx, skip),
        );
    }
}

proof fn arg_moves(a: Arg, cx: Rules, skip: Option<Seq<char>>)
    ensures
        all_move(ruled_arg(a, cx, skip), cx, moves_arg(a, cx, skip)),
    decreases a, 0int,
{
    match a {
        Arg::Value(e) => reads_move(e, cx, skip),
        Arg::Mut(p) => path_moves(p.path@, cx, skip),
    }
}

proof fn args_move(es: Seq<Arg>, cx: Rules, skip: Option<Seq<char>>)
    ensures
        all_move(ruled_args(es, cx, skip), cx, moves_args(es, cx, skip)),
    decreases es, 0int,
{
    none_move(cx);
    if es.len() > 0 {
        args_move(es.drop_last(), cx, skip);
        arg_moves(es.last(), cx, skip);
        both_move(
            ruled_args(es.drop_last(), cx, skip),
            ruled_arg(es.last(), cx, skip),
            cx,
            moves_args(es.drop_last(), cx, skip),
            moves_arg(es.last(), cx, skip),
        );
    }
}

} // verus!
