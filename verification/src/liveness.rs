//! Which names are live where, and which read of a name is its last.
//!
//! The analysis runs backward over the tree: what is live before a node
//! follows from what is live after it, part by part in the reverse of the
//! order of evaluation. The one cycle is a loop's back edge.
use crate::text::{copy_strings, increasing, text_lt, text_lt_irreflexive, text_lt_transitive, texts, NameSet};
use crate::tokens::Spanned;
use crate::typed_ast::{Arg, NodeId, PlaceSeg, TypedExpr, TypedExprKind, TypedExprRef};
use std::collections::{HashMap, HashSet};
use vstd::prelude::*;

verus! {

broadcast use vstd::std_specs::hash::group_hash_axioms;

/// Names that are live at some point.
pub type Names = Set<Seq<char>>;

/// The places that a call's `mut` arguments name.
pub open spec fn mut_roots(args: Seq<Arg>) -> Names
    decreases args.len(),
{
    if args.len() == 0 {
        Set::empty()
    } else {
        match args.last() {
            Arg::Mut(p) => mut_roots(args.drop_last()).insert(p.root@),
            Arg::Value(_) => mut_roots(args.drop_last()),
        }
    }
}

/// What is live before `e`, where `out` is live after it and `exit` is live
/// wherever the body is left.
pub open spec fn live(e: Spanned<TypedExpr>, out: Names, exit: Names) -> Names
    decreases e,
{
    match e.item.kind {
        TypedExprKind::IntLit(_) => out,
        TypedExprKind::FloatLit(_) => out,
        TypedExprKind::BoolLit(_) => out,
        TypedExprKind::StrLit(_) => out,
        TypedExprKind::NoneLit => out,
        TypedExprKind::Var(name) => out.insert(name@),
        TypedExprKind::Unary { op: _, expr } => live(*expr, out, exit),
        TypedExprKind::Binary { op: _, left, right } => live(*left, live(*right, out, exit), exit),
        TypedExprKind::Index { target, index } => live(*target, live(*index, out, exit), exit),
        TypedExprKind::Slice { target, start, end } => live(*target, live_opt(start, live_opt(end, out, exit), exit), exit),
        TypedExprKind::Range { start, end } => live(*start, live(*end, out, exit), exit),
        TypedExprKind::List(part) => live_list(part@, out, exit),
        TypedExprKind::Dict(part) => live_pairs(part@, out, exit),
        TypedExprKind::Block(part) => live_list(part@, out, exit),
        TypedExprKind::StructInit { name: _, fields } => live_fields(fields@, out, exit),
        TypedExprKind::FieldAccess { target, field: _, enum_name: _ } => live(*target, out, exit),
        TypedExprKind::VariantInit { enum_name: _, variant: _, tag: _, fields } => live_fields(fields@, out, exit),
        TypedExprKind::IsVariant { target, enum_name: _, variant: _, tag: _ } => live(*target, out, exit),
        TypedExprKind::VariantField { target, enum_name: _, variant: _, field: _ } => live(*target, out, exit),
        TypedExprKind::Widen { value, tag: _ } => live(*value, out, exit),
        TypedExprKind::Narrow { value, tag: _ } => live(*value, out, exit),
        TypedExprKind::TypeTag { target, tag: _ } => live(*target, out, exit),
        TypedExprKind::Truthy(part) => live(*part, out, exit),
        TypedExprKind::Coerce(part) => live(*part, out, exit),
        TypedExprKind::Assign { name, value } => if value.item.kind is Function {
            out
        } else {
            live(*value, out.remove(name@), exit)
        },
        TypedExprKind::Function { params: _, return_type: _, body: _ } => out,
        TypedExprKind::PlaceAssign { place, value } => live_path(
            place.path@,
            live(*value, out.insert(place.root@), exit),
            exit,
        ),
        TypedExprKind::Conditional { cond, true_branch, false_branch } => live(
            *cond,
            live(*true_branch, out, exit).union(live_opt(false_branch, out, exit)),
            exit,
        ),
        TypedExprKind::Return(value) => live_opt(value, exit, exit),
        TypedExprKind::Call { callable: _, args } => live_args(args@, out.union(mut_roots(args@)), exit),
        TypedExprKind::ForLoop { var, iterable, cond, body, iter_via: _ } => live(
            *iterable,
            out.union(
                match cond {
                    Some(c) => live(*c, live(*body, Set::empty(), exit).union(Set::empty()), exit).remove(var@),
                    None => live(*body, Set::empty(), exit).remove(var@),
                },
            ),
            exit,
        ),
        TypedExprKind::Comprehension { var, iterable, cond, body, iter_via: _ } => live(
            *iterable,
            out.union(
                match cond {
                    Some(c) => live(*c, live(*body, Set::empty(), exit).union(Set::empty()), exit).remove(var@),
                    None => live(*body, Set::empty(), exit).remove(var@),
                },
            ),
            exit,
        ),
    }
}

/// What is live before one turn of a loop, where `head` is live at the loop's
/// head: the loop's variable is bound anew in each turn, and a guard that
/// fails leads straight back to the head.
pub open spec fn around(
    var: Seq<char>,
    cond: Option<TypedExprRef>,
    body: Spanned<TypedExpr>,
    head: Names,
    exit: Names,
) -> Names {
    let l = live(body, head, exit);
    match cond {
        Some(c) => live(*c, l.union(head), exit).remove(var),
        None => l.remove(var),
    }
}

pub open spec fn live_opt(e: Option<TypedExprRef>, out: Names, exit: Names) -> Names
    decreases e,
{
    match e {
        Some(x) => live(*x, out, exit),
        None => out,
    }
}

pub open spec fn live_list(es: Seq<Spanned<TypedExpr>>, out: Names, exit: Names) -> Names
    decreases es,
{
    if es.len() == 0 {
        out
    } else {
        live_list(es.drop_last(), live(es.last(), out, exit), exit)
    }
}

pub open spec fn live_pairs(es: Seq<(Spanned<TypedExpr>, Spanned<TypedExpr>)>, out: Names, exit: Names) -> Names
    decreases es,
{
    if es.len() == 0 {
        out
    } else {
        live_pairs(es.drop_last(), live(es.last().0, live(es.last().1, out, exit), exit), exit)
    }
}

pub open spec fn live_fields(fs: Seq<(String, TypedExprRef)>, out: Names, exit: Names) -> Names
    decreases fs,
{
    if fs.len() == 0 {
        out
    } else {
        live_fields(fs.drop_last(), live(*fs.last().1, out, exit), exit)
    }
}

pub open spec fn live_seg(s: PlaceSeg, out: Names, exit: Names) -> Names
    decreases s,
{
    match s {
        PlaceSeg::Index { index, elem_ty: _ } => live(*index, out, exit),
        PlaceSeg::Field(_) => out,
    }
}

/// Before the steps of a path, the last step taken first.
pub open spec fn live_path(p: Seq<PlaceSeg>, out: Names, exit: Names) -> Names
    decreases p,
{
    if p.len() == 0 {
        out
    } else {
        live_path(p.drop_last(), live_seg(p.last(), out, exit), exit)
    }
}

pub open spec fn live_arg(a: Arg, out: Names, exit: Names) -> Names
    decreases a,
{
    match a {
        Arg::Value(e) => live(e, out, exit),
        Arg::Mut(p) => live_path(p.path@, out, exit),
    }
}

pub open spec fn live_args(args: Seq<Arg>, out: Names, exit: Names) -> Names
    decreases args,
{
    if args.len() == 0 {
        out
    } else {
        live_args(args.drop_last(), live_arg(args.last(), out, exit), exit)
    }
}

// ── Order among live sets ────────────────────────────────────────────────

/// More names live after a node mean no fewer live before it.
pub proof fn live_grows(e: Spanned<TypedExpr>, x: Names, y: Names, exit: Names)
    requires
        x.subset_of(y),
    ensures
        live(e, x, exit).subset_of(live(e, y, exit)),
    decreases e, 1int,
{
    match e.item.kind {
        TypedExprKind::Unary { op: _, expr } => {
            live_grows(*expr, x, y, exit);
        },
        TypedExprKind::Binary { op: _, left, right } => {
            live_grows(*right, x, y, exit);
            live_grows(*left, live(*right, x, exit), live(*right, y, exit), exit);
        },
        TypedExprKind::Index { target, index } => {
            live_grows(*index, x, y, exit);
            live_grows(*target, live(*index, x, exit), live(*index, y, exit), exit);
        },
        TypedExprKind::Slice { target, start, end } => {
            opt_grows(end, x, y, exit);
            opt_grows(start, live_opt(end, x, exit), live_opt(end, y, exit), exit);
            live_grows(*target, live_opt(start, live_opt(end, x, exit), exit), live_opt(start, live_opt(end, y, exit), exit), exit);
        },
        TypedExprKind::Range { start, end } => {
            live_grows(*end, x, y, exit);
            live_grows(*start, live(*end, x, exit), live(*end, y, exit), exit);
        },
        TypedExprKind::List(part) => {
            list_grows(part@, x, y, exit);
        },
        TypedExprKind::Dict(part) => {
            pairs_grows(part@, x, y, exit);
        },
        TypedExprKind::Block(part) => {
            list_grows(part@, x, y, exit);
        },
        TypedExprKind::StructInit { name: _, fields } => {
            fields_grows(fields@, x, y, exit);
        },
        TypedExprKind::FieldAccess { target, field: _, enum_name: _ } => {
            live_grows(*target, x, y, exit);
        },
        TypedExprKind::VariantInit { enum_name: _, variant: _, tag: _, fields } => {
            fields_grows(fields@, x, y, exit);
        },
        TypedExprKind::IsVariant { target, enum_name: _, variant: _, tag: _ } => {
            live_grows(*target, x, y, exit);
        },
        TypedExprKind::VariantField { target, enum_name: _, variant: _, field: _ } => {
            live_grows(*target, x, y, exit);
        },
        TypedExprKind::Widen { value, tag: _ } => {
            live_grows(*value, x, y, exit);
        },
        TypedExprKind::Narrow { value, tag: _ } => {
            live_grows(*value, x, y, exit);
        },
        TypedExprKind::TypeTag { target, tag: _ } => {
            live_grows(*target, x, y, exit);
        },
        TypedExprKind::Truthy(part) => {
            live_grows(*part, x, y, exit);
        },
        TypedExprKind::Coerce(part) => {
            live_grows(*part, x, y, exit);
        },
        TypedExprKind::Assign { name, value } => {
            if !(value.item.kind is Function) {
                live_grows(*value, x.remove(name@), y.remove(name@), exit);
            }
        },
        TypedExprKind::PlaceAssign { place, value } => {
            let (a, b) = (x.insert(place.root@), y.insert(place.root@));
            live_grows(*value, a, b, exit);
            path_grows(place.path@, live(*value, a, exit), live(*value, b, exit), exit);
        },
        TypedExprKind::Conditional { cond, true_branch, false_branch } => {
            live_grows(*true_branch, x, y, exit);
            opt_grows(false_branch, x, y, exit);
            live_grows(
                *cond,
                live(*true_branch, x, exit).union(live_opt(false_branch, x, exit)),
                live(*true_branch, y, exit).union(live_opt(false_branch, y, exit)),
                exit,
            );
        },
        TypedExprKind::Call { callable: _, args } => {
            args_grows(args@, x.union(mut_roots(args@)), y.union(mut_roots(args@)), exit);
        },
        TypedExprKind::ForLoop { var, iterable, cond, body, iter_via: _ } => {
            let r = around(var@, cond, *body, Set::empty(), exit);
            live_grows(*iterable, x.union(r), y.union(r), exit);
        },
        TypedExprKind::Comprehension { var, iterable, cond, body, iter_via: _ } => {
            let r = around(var@, cond, *body, Set::empty(), exit);
            live_grows(*iterable, x.union(r), y.union(r), exit);
        },
        _ => {},
    }
}

proof fn opt_grows(e: Option<TypedExprRef>, x: Names, y: Names, exit: Names)
    requires
        x.subset_of(y),
    ensures
        live_opt(e, x, exit).subset_of(live_opt(e, y, exit)),
    decreases e, 0int,
{
    if let Some(v) = e {
        live_grows(*v, x, y, exit);
    }
}


proof fn list_grows(es: Seq<Spanned<TypedExpr>>, x: Names, y: Names, exit: Names)
    requires
        x.subset_of(y),
    ensures
        live_list(es, x, exit).subset_of(live_list(es, y, exit)),
    decreases es, 0int,
{
    if es.len() > 0 {
        live_grows(es.last(), x, y, exit);
        list_grows(es.drop_last(), live(es.last(), x, exit), live(es.last(), y, exit), exit);
    }
}

proof fn pairs_grows(es: Seq<(Spanned<TypedExpr>, Spanned<TypedExpr>)>, x: Names, y: Names, exit: Names)
    requires
        x.subset_of(y),
    ensures
        live_pairs(es, x, exit).subset_of(live_pairs(es, y, exit)),
    decreases es, 0int,
{
    if es.len() > 0 {
        let (k, v) = es.last();
        live_grows(es.last().1, x, y, exit);
        live_grows(es.last().0, live(v, x, exit), live(v, y, exit), exit);
        pairs_grows(es.drop_last(), live(k, live(v, x, exit), exit), live(k, live(v, y, exit), exit), exit);
    }
}

proof fn fields_grows(fs: Seq<(String, TypedExprRef)>, x: Names, y: Names, exit: Names)
    requires
        x.subset_of(y),
    ensures
        live_fields(fs, x, exit).subset_of(live_fields(fs, y, exit)),
    decreases fs, 0int,
{
    if fs.len() > 0 {
        live_grows(*fs.last().1, x, y, exit);
        fields_grows(fs.drop_last(), live(*fs.last().1, x, exit), live(*fs.last().1, y, exit), exit);
    }
}

proof fn seg_grows(s: PlaceSeg, x: Names, y: Names, exit: Names)
    requires
        x.subset_of(y),
    ensures
        live_seg(s, x, exit).subset_of(live_seg(s, y, exit)),
    decreases s, 0int,
{
    if let PlaceSeg::Index { index, elem_ty: _ } = s {
        live_grows(*index, x, y, exit);
    }
}

proof fn path_grows(p: Seq<PlaceSeg>, x: Names, y: Names, exit: Names)
    requires
        x.subset_of(y),
    ensures
        live_path(p, x, exit).subset_of(live_path(p, y, exit)),
    decreases p, 0int,
{
    if p.len() > 0 {
        seg_grows(p.last(), x, y, exit);
        path_grows(p.drop_last(), live_seg(p.last(), x, exit), live_seg(p.last(), y, exit), exit);
    }
}

proof fn arg_grows(a: Arg, x: Names, y: Names, exit: Names)
    requires
        x.subset_of(y),
    ensures
        live_arg(a, x, exit).subset_of(live_arg(a, y, exit)),
    decreases a, 0int,
{
    match a {
        Arg::Value(e) => live_grows(e, x, y, exit),
        Arg::Mut(p) => path_grows(p.path@, x, y, exit),
    }
}

proof fn args_grows(args: Seq<Arg>, x: Names, y: Names, exit: Names)
    requires
        x.subset_of(y),
    ensures
        live_args(args, x, exit).subset_of(live_args(args, y, exit)),
    decreases args, 0int,
{
    if args.len() > 0 {
        arg_grows(args.last(), x, y, exit);
        args_grows(args.drop_last(), live_arg(args.last(), x, exit), live_arg(args.last(), y, exit), exit);
    }
}

/// What is live before a node because of the names `a` after it is at most
/// those names themselves.
pub proof fn live_passes_on(e: Spanned<TypedExpr>, x: Names, a: Names, exit: Names)
    ensures
        live(e, x.union(a), exit).subset_of(live(e, x, exit).union(a)),
    decreases e, 1int,
{
    match e.item.kind {
        TypedExprKind::Unary { op: _, expr } => {
            live_passes_on(*expr, x, a, exit);
        },
        TypedExprKind::Binary { op: _, left, right } => {
            live_passes_on(*right, x, a, exit);
            live_passes_on(*left, live(*right, x, exit), a, exit);
            live_grows(*left, live(*right, x.union(a), exit), live(*right, x, exit).union(a), exit);
        },
        TypedExprKind::Index { target, index } => {
            live_passes_on(*index, x, a, exit);
            live_passes_on(*target, live(*index, x, exit), a, exit);
            live_grows(*target, live(*index, x.union(a), exit), live(*index, x, exit).union(a), exit);
        },
        TypedExprKind::Slice { target, start, end } => {
            opt_passes_on(end, x, a, exit);
            opt_passes_on(start, live_opt(end, x, exit), a, exit);
            opt_grows(start, live_opt(end, x.union(a), exit), live_opt(end, x, exit).union(a), exit);
            live_passes_on(*target, live_opt(start, live_opt(end, x, exit), exit), a, exit);
            live_grows(*target, live_opt(start, live_opt(end, x.union(a), exit), exit), live_opt(start, live_opt(end, x, exit), exit).union(a), exit);
        },
        TypedExprKind::Range { start, end } => {
            live_passes_on(*end, x, a, exit);
            live_passes_on(*start, live(*end, x, exit), a, exit);
            live_grows(*start, live(*end, x.union(a), exit), live(*end, x, exit).union(a), exit);
        },
        TypedExprKind::List(part) => {
            list_passes_on(part@, x, a, exit);
        },
        TypedExprKind::Dict(part) => {
            pairs_passes_on(part@, x, a, exit);
        },
        TypedExprKind::Block(part) => {
            list_passes_on(part@, x, a, exit);
        },
        TypedExprKind::StructInit { name: _, fields } => {
            fields_passes_on(fields@, x, a, exit);
        },
        TypedExprKind::FieldAccess { target, field: _, enum_name: _ } => {
            live_passes_on(*target, x, a, exit);
        },
        TypedExprKind::VariantInit { enum_name: _, variant: _, tag: _, fields } => {
            fields_passes_on(fields@, x, a, exit);
        },
        TypedExprKind::IsVariant { target, enum_name: _, variant: _, tag: _ } => {
            live_passes_on(*target, x, a, exit);
        },
        TypedExprKind::VariantField { target, enum_name: _, variant: _, field: _ } => {
            live_passes_on(*target, x, a, exit);
        },
        TypedExprKind::Widen { value, tag: _ } => {
            live_passes_on(*value, x, a, exit);
        },
        TypedExprKind::Narrow { value, tag: _ } => {
            live_passes_on(*value, x, a, exit);
        },
        TypedExprKind::TypeTag { target, tag: _ } => {
            live_passes_on(*target, x, a, exit);
        },
        TypedExprKind::Truthy(part) => {
            live_passes_on(*part, x, a, exit);
        },
        TypedExprKind::Coerce(part) => {
            live_passes_on(*part, x, a, exit);
        },
        TypedExprKind::Assign { name, value } => {
            if !(value.item.kind is Function) {
                live_passes_on(*value, x.remove(name@), a, exit);
                live_grows(*value, x.union(a).remove(name@), x.remove(name@).union(a), exit);
            }
        },
        TypedExprKind::PlaceAssign { place, value } => {
            let xr = x.insert(place.root@);
            live_passes_on(*value, xr, a, exit);
            assert(x.union(a).insert(place.root@) =~= xr.union(a));
            path_passes_on(place.path@, live(*value, xr, exit), a, exit);
            path_grows(place.path@, live(*value, xr.union(a), exit), live(*value, xr, exit).union(a), exit);
        },
        TypedExprKind::Conditional { cond, true_branch, false_branch } => {
            live_passes_on(*true_branch, x, a, exit);
            opt_passes_on(false_branch, x, a, exit);
            let both = live(*true_branch, x, exit).union(live_opt(false_branch, x, exit));
            live_passes_on(*cond, both, a, exit);
            live_grows(
                *cond,
                live(*true_branch, x.union(a), exit).union(live_opt(false_branch, x.union(a), exit)),
                both.union(a),
                exit,
            );
        },
        TypedExprKind::Call { callable: _, args } => {
            let r = mut_roots(args@);
            assert(x.union(a).union(r) =~= x.union(r).union(a));
            args_passes_on(args@, x.union(r), a, exit);
        },
        TypedExprKind::ForLoop { var, iterable, cond, body, iter_via: _ } => {
            let r = around(var@, cond, *body, Set::empty(), exit);
            assert(x.union(a).union(r) =~= x.union(r).union(a));
            live_passes_on(*iterable, x.union(r), a, exit);
        },
        TypedExprKind::Comprehension { var, iterable, cond, body, iter_via: _ } => {
            let r = around(var@, cond, *body, Set::empty(), exit);
            assert(x.union(a).union(r) =~= x.union(r).union(a));
            live_passes_on(*iterable, x.union(r), a, exit);
        },
        _ => {},
    }
}

proof fn opt_passes_on(e: Option<TypedExprRef>, x: Names, a: Names, exit: Names)
    ensures
        live_opt(e, x.union(a), exit).subset_of(live_opt(e, x, exit).union(a)),
    decreases e, 0int,
{
    if let Some(v) = e {
        live_passes_on(*v, x, a, exit);
    }
}

proof fn list_passes_on(es: Seq<Spanned<TypedExpr>>, x: Names, a: Names, exit: Names)
    ensures
        live_list(es, x.union(a), exit).subset_of(live_list(es, x, exit).union(a)),
    decreases es, 0int,
{
    if es.len() > 0 {
        let l = live(es.last(), x, exit);
        live_passes_on(es.last(), x, a, exit);
        list_passes_on(es.drop_last(), l, a, exit);
        list_grows(es.drop_last(), live(es.last(), x.union(a), exit), l.union(a), exit);
    }
}

proof fn pairs_passes_on(es: Seq<(Spanned<TypedExpr>, Spanned<TypedExpr>)>, x: Names, a: Names, exit: Names)
    ensures
        live_pairs(es, x.union(a), exit).subset_of(live_pairs(es, x, exit).union(a)),
    decreases es, 0int,
{
    if es.len() > 0 {
        let (k, v) = es.last();
        let l = live(v, x, exit);
        let m = live(k, l, exit);
        live_passes_on(es.last().1, x, a, exit);
        live_passes_on(es.last().0, l, a, exit);
        live_grows(k, live(v, x.union(a), exit), l.union(a), exit);
        pairs_passes_on(es.drop_last(), m, a, exit);
        pairs_grows(es.drop_last(), live(k, live(v, x.union(a), exit), exit), m.union(a), exit);
    }
}

proof fn fields_passes_on(fs: Seq<(String, TypedExprRef)>, x: Names, a: Names, exit: Names)
    ensures
        live_fields(fs, x.union(a), exit).subset_of(live_fields(fs, x, exit).union(a)),
    decreases fs, 0int,
{
    if fs.len() > 0 {
        let l = live(*fs.last().1, x, exit);
        live_passes_on(*fs.last().1, x, a, exit);
        fields_passes_on(fs.drop_last(), l, a, exit);
        fields_grows(fs.drop_last(), live(*fs.last().1, x.union(a), exit), l.union(a), exit);
    }
}

proof fn seg_passes_on(s: PlaceSeg, x: Names, a: Names, exit: Names)
    ensures
        live_seg(s, x.union(a), exit).subset_of(live_seg(s, x, exit).union(a)),
    decreases s, 0int,
{
    if let PlaceSeg::Index { index, elem_ty: _ } = s {
        live_passes_on(*index, x, a, exit);
    }
}

proof fn path_passes_on(p: Seq<PlaceSeg>, x: Names, a: Names, exit: Names)
    ensures
        live_path(p, x.union(a), exit).subset_of(live_path(p, x, exit).union(a)),
    decreases p, 0int,
{
    if p.len() > 0 {
        let l = live_seg(p.last(), x, exit);
        seg_passes_on(p.last(), x, a, exit);
        path_passes_on(p.drop_last(), l, a, exit);
        path_grows(p.drop_last(), live_seg(p.last(), x.union(a), exit), l.union(a), exit);
    }
}

proof fn arg_passes_on(g: Arg, x: Names, a: Names, exit: Names)
    ensures
        live_arg(g, x.union(a), exit).subset_of(live_arg(g, x, exit).union(a)),
    decreases g, 0int,
{
    match g {
        Arg::Value(e) => live_passes_on(e, x, a, exit),
        Arg::Mut(p) => path_passes_on(p.path@, x, a, exit),
    }
}

proof fn args_passes_on(args: Seq<Arg>, x: Names, a: Names, exit: Names)
    ensures
        live_args(args, x.union(a), exit).subset_of(live_args(args, x, exit).union(a)),
    decreases args, 0int,
{
    if args.len() > 0 {
        let l = live_arg(args.last(), x, exit);
        arg_passes_on(args.last(), x, a, exit);
        args_passes_on(args.drop_last(), l, a, exit);
        args_grows(args.drop_last(), live_arg(args.last(), x.union(a), exit), l.union(a), exit);
    }
}

proof fn around_bounds(var: Seq<char>, cond: Option<TypedExprRef>, body: Spanned<TypedExpr>, head: Names, exit: Names)
    ensures
        around(var, cond, body, Set::empty(), exit).subset_of(around(var, cond, body, head, exit)),
        around(var, cond, body, head, exit).subset_of(around(var, cond, body, Set::empty(), exit).union(head)),
{
    let none: Names = Set::empty();
    let l0 = live(body, none, exit);
    let l = live(body, head, exit);
    live_grows(body, none, head, exit);
    live_passes_on(body, none, head, exit);
    assert(none.union(head) =~= head);
    if let Some(c) = cond {
        assert(l0.union(none) =~= l0);
        live_grows(*c, l0, l.union(head), exit);
        live_passes_on(*c, l0, head, exit);
        live_grows(*c, l.union(head), l0.union(head), exit);
    }
}

/// What is live at a loop's head does not change by one more turn: together
/// with what is live after the loop it is a fixed point, and the least one.
pub proof fn loop_head_is_stable(
    var: Seq<char>,
    cond: Option<TypedExprRef>,
    body: Spanned<TypedExpr>,
    out: Names,
    exit: Names,
)
    ensures
        ({
            let head = out.union(around(var, cond, body, Set::empty(), exit));
            &&& around(var, cond, body, head, exit).union(out) == head
            &&& around(var, cond, body, out, exit).union(out) == head
            &&& forall|h: Names|
                out.subset_of(h) && (#[trigger] around(var, cond, body, h, exit)).subset_of(h) ==> head.subset_of(h)
        }),
{
    let head = out.union(around(var, cond, body, Set::empty(), exit));
    around_bounds(var, cond, body, head, exit);
    around_bounds(var, cond, body, out, exit);
    assert(around(var, cond, body, head, exit).union(out) =~= head);
    assert(around(var, cond, body, out, exit).union(out) =~= head);
    assert forall|h: Names|
        out.subset_of(h) && (#[trigger] around(var, cond, body, h, exit)).subset_of(h) implies head.subset_of(h) by {
        around_bounds(var, cond, body, h, exit);
    }
}

// ── Last uses, and names that die ────────────────────────────────────────

/// Facts about a body: which reads are the last ones of their name, and which
/// names die right after which statement.
pub ghost struct Marks {
    pub last: Set<u32>,
    pub dead: Map<u32, Seq<Seq<char>>>,
}

/// No facts.
pub open spec fn no_marks() -> Marks {
    Marks { last: Set::empty(), dead: Map::empty() }
}

/// The members of a set of names in increasing order.
pub open spec fn in_order(s: Names) -> Seq<Seq<char>> {
    choose|q: Seq<Seq<char>>| increasing(q) && q.to_set() == s
}

/// `m` with the names that die after the statement `id`: those live before it
/// and not after it.
pub open spec fn with_dead(m: Marks, id: u32, before: Names, after: Names) -> Marks {
    let dead = in_order(before.difference(after));
    if before.difference(after) == Set::<Seq<char>>::empty() {
        m
    } else {
        Marks {
            dead: m.dead.insert(
                id,
                (if m.dead.dom().contains(id) {
                    m.dead[id]
                } else {
                    Seq::empty()
                }) + dead,
            ),
            ..m
        }
    }
}

/// What is live at the head of a loop.
pub open spec fn loop_head(
    var: Seq<char>,
    cond: Option<TypedExprRef>,
    body: Spanned<TypedExpr>,
    out: Names,
    exit: Names,
) -> Names {
    out.union(around(var, cond, body, Set::empty(), exit))
}

/// `m` with the facts about `e`, where `out` is live after it.
pub open spec fn marks(e: Spanned<TypedExpr>, out: Names, exit: Names, m: Marks) -> Marks
    decreases e,
{
    match e.item.kind {
        TypedExprKind::IntLit(_) => m,
        TypedExprKind::FloatLit(_) => m,
        TypedExprKind::BoolLit(_) => m,
        TypedExprKind::StrLit(_) => m,
        TypedExprKind::NoneLit => m,
        TypedExprKind::Var(name) => if out.contains(name@) {
            m
        } else {
            Marks { last: m.last.insert(e.item.id), ..m }
        },
        TypedExprKind::Unary { op: _, expr } => marks(*expr, out, exit, m),
        TypedExprKind::Binary { op: _, left, right } => marks(*left, live(*right, out, exit), exit, marks(*right, out, exit, m)),
        TypedExprKind::Index { target, index } => marks(*target, live(*index, out, exit), exit, marks(*index, out, exit, m)),
        TypedExprKind::Slice { target, start, end } => marks(*target, live_opt(start, live_opt(end, out, exit), exit), exit, marks_opt(start, live_opt(end, out, exit), exit, marks_opt(end, out, exit, m))),
        TypedExprKind::Range { start, end } => marks(*start, live(*end, out, exit), exit, marks(*end, out, exit, m)),
        TypedExprKind::List(part) => marks_list(part@, out, exit, m),
        TypedExprKind::Dict(part) => marks_pairs(part@, out, exit, m),
        TypedExprKind::StructInit { name: _, fields } => marks_fields(fields@, out, exit, m),
        TypedExprKind::FieldAccess { target, field: _, enum_name: _ } => marks(*target, out, exit, m),
        TypedExprKind::VariantInit { enum_name: _, variant: _, tag: _, fields } => marks_fields(fields@, out, exit, m),
        TypedExprKind::IsVariant { target, enum_name: _, variant: _, tag: _ } => marks(*target, out, exit, m),
        TypedExprKind::VariantField { target, enum_name: _, variant: _, field: _ } => marks(*target, out, exit, m),
        TypedExprKind::Widen { value, tag: _ } => marks(*value, out, exit, m),
        TypedExprKind::Narrow { value, tag: _ } => marks(*value, out, exit, m),
        TypedExprKind::TypeTag { target, tag: _ } => marks(*target, out, exit, m),
        TypedExprKind::Truthy(part) => marks(*part, out, exit, m),
        TypedExprKind::Coerce(part) => marks(*part, out, exit, m),
        TypedExprKind::Block(stmts) => marks_block(stmts@, out, exit, m),
        TypedExprKind::Assign { name, value } => if value.item.kind is Function {
            m
        } else {
            marks(*value, out.remove(name@), exit, m)
        },
        TypedExprKind::Function { params: _, return_type: _, body: _ } => m,
        TypedExprKind::PlaceAssign { place, value } => marks_path(
            place.path@,
            live(*value, out.insert(place.root@), exit),
            exit,
            marks(*value, out.insert(place.root@), exit, m),
        ),
        TypedExprKind::Conditional { cond, true_branch, false_branch } => marks(
            *cond,
            live(*true_branch, out, exit).union(live_opt(false_branch, out, exit)),
            exit,
            marks_opt(false_branch, out, exit, marks(*true_branch, out, exit, m)),
        ),
        TypedExprKind::Return(value) => marks_opt(value, exit, exit, m),
        TypedExprKind::Call { callable: _, args } => marks_args(args@, out.union(mut_roots(args@)), exit, m),
        TypedExprKind::ForLoop { var, iterable, cond, body, iter_via: _ } => {
            let head = loop_head(var@, cond, *body, out, exit);
            let turned = marks(*body, head, exit, m);
            marks(
                *iterable,
                head,
                exit,
                match cond {
                    Some(c) => marks(*c, live(*body, head, exit).union(head), exit, turned),
                    None => turned,
                },
            )
        },
        TypedExprKind::Comprehension { var, iterable, cond, body, iter_via: _ } => {
            let head = loop_head(var@, cond, *body, out, exit);
            let turned = marks(*body, head, exit, m);
            marks(
                *iterable,
                head,
                exit,
                match cond {
                    Some(c) => marks(*c, live(*body, head, exit).union(head), exit, turned),
                    None => turned,
                },
            )
        },
    }
}

pub open spec fn marks_opt(e: Option<TypedExprRef>, out: Names, exit: Names, m: Marks) -> Marks
    decreases e,
{
    match e {
        Some(x) => marks(*x, out, exit, m),
        None => m,
    }
}

pub open spec fn marks_list(es: Seq<Spanned<TypedExpr>>, out: Names, exit: Names, m: Marks) -> Marks
    decreases es,
{
    if es.len() == 0 {
        m
    } else {
        marks_list(es.drop_last(), live(es.last(), out, exit), exit, marks(es.last(), out, exit, m))
    }
}

/// The facts about a run of statements, those that die after each included.
pub open spec fn marks_block(es: Seq<Spanned<TypedExpr>>, out: Names, exit: Names, m: Marks) -> Marks
    decreases es,
{
    if es.len() == 0 {
        m
    } else {
        let before = live(es.last(), out, exit);
        marks_block(
            es.drop_last(),
            before,
            exit,
            with_dead(marks(es.last(), out, exit, m), es.last().item.id, before, out),
        )
    }
}

pub open spec fn marks_pairs(
    es: Seq<(Spanned<TypedExpr>, Spanned<TypedExpr>)>,
    out: Names,
    exit: Names,
    m: Marks,
) -> Marks
    decreases es,
{
    if es.len() == 0 {
        m
    } else {
        let mid = live(es.last().1, out, exit);
        marks_pairs(
            es.drop_last(),
            live(es.last().0, mid, exit),
            exit,
            marks(es.last().0, mid, exit, marks(es.last().1, out, exit, m)),
        )
    }
}

pub open spec fn marks_fields(fs: Seq<(String, TypedExprRef)>, out: Names, exit: Names, m: Marks) -> Marks
    decreases fs,
{
    if fs.len() == 0 {
        m
    } else {
        marks_fields(fs.drop_last(), live(*fs.last().1, out, exit), exit, marks(*fs.last().1, out, exit, m))
    }
}

pub open spec fn marks_seg(s: PlaceSeg, out: Names, exit: Names, m: Marks) -> Marks
    decreases s,
{
    match s {
        PlaceSeg::Index { index, elem_ty: _ } => marks(*index, out, exit, m),
        PlaceSeg::Field(_) => m,
    }
}

pub open spec fn marks_path(p: Seq<PlaceSeg>, out: Names, exit: Names, m: Marks) -> Marks
    decreases p,
{
    if p.len() == 0 {
        m
    } else {
        marks_path(p.drop_last(), live_seg(p.last(), out, exit), exit, marks_seg(p.last(), out, exit, m))
    }
}

pub open spec fn marks_arg(a: Arg, out: Names, exit: Names, m: Marks) -> Marks
    decreases a,
{
    match a {
        Arg::Value(e) => marks(e, out, exit, m),
        Arg::Mut(p) => marks_path(p.path@, out, exit, m),
    }
}

pub open spec fn marks_args(args: Seq<Arg>, out: Names, exit: Names, m: Marks) -> Marks
    decreases args,
{
    if args.len() == 0 {
        m
    } else {
        marks_args(args.drop_last(), live_arg(args.last(), out, exit), exit, marks_arg(args.last(), out, exit, m))
    }
}

proof fn increasing_is_unique(p: Seq<Seq<char>>, q: Seq<Seq<char>>)
    requires
        increasing(p),
        increasing(q),
        p.to_set() == q.to_set(),
    ensures
        p == q,
    decreases p.len(),
{
    if p.len() == 0 {
        if q.len() > 0 {
            assert(q.to_set().contains(q[0]));
        }
        assert(p =~= q);
    } else {
        assert(p.to_set().contains(p.last()));
        assert(q.contains(p.last()));
        let k = choose|k: int| 0 <= k < q.len() && q[k] == p.last();
        assert(q.to_set().contains(q.last()));
        assert(p.contains(q.last()));
        let j = choose|j: int| 0 <= j < p.len() && p[j] == q.last();
        if k < q.len() - 1 {
            assert(text_lt(q[k], q[q.len() - 1]));
            if j < p.len() - 1 {
                assert(text_lt(p[j], p[p.len() - 1]));
                text_lt_transitive(q[k], q.last(), p.last());
            }
            text_lt_irreflexive(p.last());
        }
        let (a, b) = (p.drop_last(), q.drop_last());
        assert forall|x: Seq<char>| a.to_set().contains(x) == b.to_set().contains(x) by {
            if a.contains(x) {
                let i = choose|i: int| 0 <= i < a.len() && a[i] == x;
                assert(text_lt(p[i], p[p.len() - 1]));
                text_lt_irreflexive(x);
                assert(p.to_set().contains(p[i]));
                assert(q.contains(x));
                let i2 = choose|i2: int| 0 <= i2 < q.len() && q[i2] == x;
                assert(b[i2] == x);
            }
            if b.contains(x) {
                let i = choose|i: int| 0 <= i < b.len() && b[i] == x;
                assert(text_lt(q[i], q[q.len() - 1]));
                text_lt_irreflexive(x);
                assert(q.to_set().contains(q[i]));
                assert(p.contains(x));
                let i2 = choose|i2: int| 0 <= i2 < p.len() && p[i2] == x;
                assert(a[i2] == x);
            }
        }
        assert(a.to_set() =~= b.to_set());
        increasing_is_unique(a, b);
        assert(p =~= a.push(p.last()));
        assert(q =~= b.push(q.last()));
    }
}

/// A run of names in increasing order is its own set in order.
pub proof fn in_order_is(q: Seq<Seq<char>>)
    requires
        increasing(q),
    ensures
        in_order(q.to_set()) == q,
{
    let c = in_order(q.to_set());
    assert(increasing(q) && q.to_set() == q.to_set());
    increasing_is_unique(c, q);
}

// ── The analysis ─────────────────────────────────────────────────────────

/// Whether a read takes the value out of its name, because nothing after it
/// reads the name again, or copies it.
#[derive(Debug, Clone, Copy, PartialEq, Eq, Structural)]
pub enum Ownership {
    Copy,
    Move,
}

/// What the analysis found out about one body.
pub struct Liveness {
    last_use: HashSet<NodeId>,
    dead_after: HashMap<NodeId, Vec<String>>,
}

impl View for Liveness {
    type V = Marks;

    closed spec fn view(&self) -> Marks {
        Marks { last: self.last_use@, dead: self.dead_after@.map_values(|v: Vec<String>| texts(v@)) }
    }
}

impl Liveness {
    fn empty() -> (r: Self)
        ensures
            r@ == no_marks(),
    {
        let r = Liveness { last_use: HashSet::new(), dead_after: HashMap::new() };
        assert(r@.dead =~= Map::<u32, Seq<Seq<char>>>::empty());
        r
    }

    /// Whether the read `var_node` is the last one of its name. A node that
    /// was never looked at copies.
    pub fn ownership(&self, var_node: NodeId) -> (r: Ownership)
        ensures
            r == if self@.last.contains(var_node) {
                Ownership::Move
            } else {
                Ownership::Copy
            },
    {
        if self.last_use.contains(&var_node) {
            Ownership::Move
        } else {
            Ownership::Copy
        }
    }

    /// The names that die right after the statement `stmt`, in increasing
    /// order.
    pub fn dead_after(&self, stmt: NodeId) -> (r: Vec<String>)
        ensures
            texts(r@) == if self@.dead.dom().contains(stmt) {
                self@.dead[stmt]
            } else {
                Seq::empty()
            },
    {
        match self.dead_after.get(&stmt) {
            Some(v) => copy_strings(v),
            None => {
                let r: Vec<String> = Vec::new();
                assert(texts(r@) =~= Seq::<Seq<char>>::empty());
                r
            },
        }
    }

    fn record_last_use(&mut self, id: NodeId)
        ensures
            final(self)@ == (Marks { last: old(self)@.last.insert(id), ..old(self)@ }),
    {
        self.last_use.insert(id);
    }

    fn record_dead_after(&mut self, id: NodeId, live_in: &NameSet, live_out: &NameSet)
        ensures
            final(self)@ == with_dead(old(self)@, id, live_in.set(), live_out.set()),
    {
        let mut dead = live_in.minus(live_out);
        let ghost gone = live_in.set().difference(live_out.set());
        proof {
            let q = in_order(gone);
            assert(increasing(texts(dead@)) && texts(dead@).to_set() == gone);
            increasing_is_unique(texts(dead@), q);
        }
        if dead.len() == 0 {
            proof {
                assert(gone =~= Set::<Seq<char>>::empty());
            }
            return ;
        }
        proof {
            assert(texts(dead@).to_set().contains(texts(dead@)[0]));
        }
        let mut all: Vec<String> = match self.dead_after.get(&id) {
            Some(v) => copy_strings(v),
            None => Vec::new(),
        };
        let ghost earlier = all@;
        let ghost added = dead@;
        all.append(&mut dead);
        let ghost before = self@;
        self.dead_after.insert(id, all);
        proof {
            assert(texts(all@) =~= texts(earlier) + texts(added));
            assert(before.dead.dom().contains(id) ==> texts(earlier) == before.dead[id]);
            assert(!before.dead.dom().contains(id) ==> texts(earlier) =~= Seq::<Seq<char>>::empty());
            assert(self@.dead =~= with_dead(before, id, live_in.set(), live_out.set()).dead);
        }
    }
}

/// The facts about the body of a function. `exit_live` are the names of its
/// `mut` parameters, which are read wherever it is left.
pub fn analyze_body(body: &Spanned<TypedExpr>, exit_live: &NameSet) -> (r: Liveness)
    ensures
        r@ == marks(*body, exit_live.set(), exit_live.set(), no_marks()),
{
    let mut out = Liveness::empty();
    let _ = transfer(body, exit_live, exit_live, &mut out);
    out
}

/// The facts about a run of top-level statements. `exit_live` are the names
/// that must outlive it: those bound earlier and its own.
pub fn analyze_entry(stmts: &Vec<Spanned<TypedExpr>>, exit_live: &NameSet) -> (r: Liveness)
    ensures
        r@ == marks_block(stmts@, exit_live.set(), exit_live.set(), no_marks()),
{
    let mut out = Liveness::empty();
    let _ = transfer_block(stmts, exit_live, exit_live, &mut out);
    out
}

fn transfer(e: &Spanned<TypedExpr>, live_out: &NameSet, exit: &NameSet, out: &mut Liveness) -> (r: NameSet)
    ensures
        r.set() == live(*e, live_out.set(), exit.set()),
        final(out)@ == marks(*e, live_out.set(), exit.set(), old(out)@),
    decreases e, 2int,
{
    match &e.item.kind {
        TypedExprKind::IntLit(_)
        | TypedExprKind::FloatLit(_)
        | TypedExprKind::BoolLit(_)
        | TypedExprKind::StrLit(_)
        | TypedExprKind::NoneLit => live_out.copied(),
        TypedExprKind::Var(name) => {
            if !live_out.contains(name.as_str()) {
                out.record_last_use(e.item.id);
            }
            live_out.with(name.as_str())
        },
        TypedExprKind::Unary { op: _, expr } => transfer(&**expr, live_out, exit, out),
        TypedExprKind::Binary { op: _, left, right } => {
            let after_right = transfer(&**right, live_out, exit, out);
            transfer(&**left, &after_right, exit, out)
        },
        TypedExprKind::Index { target, index } => {
            let after_index = transfer(&**index, live_out, exit, out);
            transfer(&**target, &after_index, exit, out)
        },
        TypedExprKind::Slice { target, start, end } => {
            let after_end = transfer_opt(end, live_out, exit, out);
            let after_start = transfer_opt(start, &after_end, exit, out);
            transfer(&**target, &after_start, exit, out)
        },
        TypedExprKind::Range { start, end } => {
            let after_end = transfer(&**end, live_out, exit, out);
            transfer(&**start, &after_end, exit, out)
        },
        TypedExprKind::List(part) => fold_reverse(part, live_out, exit, out),
        TypedExprKind::Dict(part) => fold_pairs_reverse(part, live_out, exit, out),
        TypedExprKind::StructInit { name: _, fields } => fold_fields_reverse(fields, live_out, exit, out),
        TypedExprKind::FieldAccess { target, field: _, enum_name: _ } => transfer(&**target, live_out, exit, out),
        TypedExprKind::VariantInit { enum_name: _, variant: _, tag: _, fields } => fold_fields_reverse(fields, live_out, exit, out),
        TypedExprKind::IsVariant { target, enum_name: _, variant: _, tag: _ } => transfer(&**target, live_out, exit, out),
        TypedExprKind::VariantField { target, enum_name: _, variant: _, field: _ } => transfer(&**target, live_out, exit, out),
        TypedExprKind::Widen { value, tag: _ } => transfer(&**value, live_out, exit, out),
        TypedExprKind::Narrow { value, tag: _ } => transfer(&**value, live_out, exit, out),
        TypedExprKind::TypeTag { target, tag: _ } => transfer(&**target, live_out, exit, out),
        TypedExprKind::Truthy(part) => transfer(&**part, live_out, exit, out),
        TypedExprKind::Coerce(part) => transfer(&**part, live_out, exit, out),
        TypedExprKind::Block(stmts) => transfer_block(stmts, live_out, exit, out),
        TypedExprKind::Assign { name, value } => {
            if let TypedExprKind::Function { params: _, return_type: _, body: _ } = &value.item.kind {
                live_out.copied()
            } else {
                let lo = live_out.without(name.as_str());
                transfer(&**value, &lo, exit, out)
            }
        },
        TypedExprKind::Function { params: _, return_type: _, body: _ } => live_out.copied(),
        TypedExprKind::PlaceAssign { place, value } => {
            let lo = live_out.with(place.root.as_str());
            let after_path = transfer(&**value, &lo, exit, out);
            fold_path_reverse(&place.path, &after_path, exit, out)
        },
        TypedExprKind::Conditional { cond, true_branch, false_branch } => {
            let true_live = transfer(&**true_branch, live_out, exit, out);
            let false_live = transfer_opt(false_branch, live_out, exit, out);
            let joined = true_live.union(&false_live);
            transfer(&**cond, &joined, exit, out)
        },
        TypedExprKind::Return(value) => transfer_opt(value, exit, exit, out),
        TypedExprKind::Call { callable: _, args } => {
            let lo = with_mut_roots(args, live_out);
            fold_args_reverse(args, &lo, exit, out)
        },
        TypedExprKind::ForLoop { var: _, iterable: _, cond: _, body: _, iter_via: _ } => {
            transfer_loop(e, live_out, exit, out)
        },
        TypedExprKind::Comprehension { var: _, iterable: _, cond: _, body: _, iter_via: _ } => {
            transfer_loop(e, live_out, exit, out)
        },
    }
}

fn with_mut_roots(args: &Vec<Arg>, live_out: &NameSet) -> (r: NameSet)
    ensures
        r.set() == live_out.set().union(mut_roots(args@)),
{
    let mut lo = live_out.copied();
    let mut i: usize = 0;
    assert(lo.set() =~= live_out.set().union(mut_roots(args@.take(0))));
    while i < args.len()
        invariant
            i <= args.len(),
            lo.set() == live_out.set().union(mut_roots(args@.take(i as int))),
        decreases args.len() - i,
    {
        assert(args@.take(i + 1).drop_last() =~= args@.take(i as int));
        if let Arg::Mut(place) = &args[i] {
            lo = lo.with(place.root.as_str());
        }
        assert(lo.set() =~= live_out.set().union(mut_roots(args@.take(i + 1))));
        i = i + 1;
    }
    assert(args@.take(i as int) =~= args@);
    lo
}

/// The variable, the guard, the body and the iterated value of a loop.
fn loop_parts(
    e: &Spanned<TypedExpr>,
) -> (r: (&String, &Option<TypedExprRef>, &Spanned<TypedExpr>, &Spanned<TypedExpr>))
    requires
        e.item.kind is ForLoop || e.item.kind is Comprehension,
    ensures
        match e.item.kind {
            TypedExprKind::ForLoop { var, iterable, cond, body, iter_via: _ } => *r.0 == var && *r.1 == cond && *r.2
                == *body && *r.3 == *iterable,
            TypedExprKind::Comprehension { var, iterable, cond, body, iter_via: _ } => *r.0 == var && *r.1 == cond
                && *r.2 == *body && *r.3 == *iterable,
            _ => false,
        },
        decreases_to!(*e => *r.2),
        decreases_to!(*e => *r.3),
        r.1 matches Some(c) ==> decreases_to!(*e => **c),
{
    match &e.item.kind {
        TypedExprKind::ForLoop { var, iterable, cond, body, iter_via: _ } => (var, cond, &**body, &**iterable),
        TypedExprKind::Comprehension { var, iterable, cond, body, iter_via: _ } => (var, cond, &**body, &**iterable),
        _ => vstd::pervasive::unreached(),
    }
}

/// One turn of a loop, from its head round to its head.
fn transfer_turn(e: &Spanned<TypedExpr>, head: &NameSet, exit: &NameSet, out: &mut Liveness) -> (r: NameSet)
    requires
        e.item.kind is ForLoop || e.item.kind is Comprehension,
    ensures
        r.set() == turn_live(*e, head.set(), exit.set()),
        final(out)@ == turn_marks(*e, head.set(), exit.set(), old(out)@),
    decreases e, 0int,
{
    let (var, cond, body, _iterable) = loop_parts(e);
    let l = transfer(body, head, exit, out);
    match cond {
        Some(c) => {
            let guard_out = l.union(head);
            let g = transfer(&**c, &guard_out, exit, out);
            g.without(var.as_str())
        },
        None => l.without(var.as_str()),
    }
}

/// What is live before one turn of the loop `e`.
pub open spec fn turn_live(e: Spanned<TypedExpr>, head: Names, exit: Names) -> Names {
    match e.item.kind {
        TypedExprKind::ForLoop { var, iterable: _, cond, body, iter_via: _ } => around(var@, cond, *body, head, exit),
        TypedExprKind::Comprehension { var, iterable: _, cond, body, iter_via: _ } => around(
            var@,
            cond,
            *body,
            head,
            exit,
        ),
        _ => head,
    }
}

/// `m` with the facts about one turn of the loop `e`.
pub open spec fn turn_marks(e: Spanned<TypedExpr>, head: Names, exit: Names, m: Marks) -> Marks {
    match e.item.kind {
        TypedExprKind::ForLoop { var: _, iterable: _, cond, body, iter_via: _ } => guarded_marks(
            cond,
            *body,
            head,
            exit,
            m,
        ),
        TypedExprKind::Comprehension { var: _, iterable: _, cond, body, iter_via: _ } => guarded_marks(
            cond,
            *body,
            head,
            exit,
            m,
        ),
        _ => m,
    }
}

/// `m` with the facts about a loop's body and its guard.
pub open spec fn guarded_marks(
    cond: Option<TypedExprRef>,
    body: Spanned<TypedExpr>,
    head: Names,
    exit: Names,
    m: Marks,
) -> Marks {
    match cond {
        Some(c) => marks(*c, live(body, head, exit).union(head), exit, marks(body, head, exit, m)),
        None => marks(body, head, exit, m),
    }
}

/// The names live at the head of a loop, found by going round until they no
/// longer change; only the last turn is recorded. Then the iterated value,
/// which is evaluated once, before the loop.
fn transfer_loop(e: &Spanned<TypedExpr>, live_out: &NameSet, exit: &NameSet, out: &mut Liveness) -> (r: NameSet)
    requires
        e.item.kind is ForLoop || e.item.kind is Comprehension,
    ensures
        r.set() == live(*e, live_out.set(), exit.set()),
        final(out)@ == marks(*e, live_out.set(), exit.set(), old(out)@),
    decreases e, 1int,
{
    let (var, cond, body, iterable) = loop_parts(e);
    let ghost head = loop_head(var@, *cond, *body, live_out.set(), exit.set());
    proof {
        loop_head_is_stable(var@, *cond, *body, live_out.set(), exit.set());
    }
    let mut scratch = Liveness::empty();
    let mut b = live_out.copied();
    let mut settled = false;
    while !settled
        invariant
            e.item.kind is ForLoop || e.item.kind is Comprehension,
            b.set() == live_out.set() || b.set() == head,
            settled ==> b.set() == head,
            turn_live(*e, live_out.set(), exit.set()).union(live_out.set()) == head,
            turn_live(*e, head, exit.set()).union(live_out.set()) == head,
        decreases (if settled {
            0int
        } else if b.set() == head {
            1int
        } else {
            2int
        }),
    {
        let turn = transfer_turn(e, &b, exit, &mut scratch);
        let b_next = turn.union(live_out);
        if b_next.same(&b) {
            settled = true;
        } else {
            b = b_next;
        }
    }
    let _ = transfer_turn(e, &b, exit, out);
    transfer(iterable, &b, exit, out)
}

fn transfer_opt(e: &Option<TypedExprRef>, live_out: &NameSet, exit: &NameSet, out: &mut Liveness) -> (r: NameSet)
    ensures
        r.set() == live_opt(*e, live_out.set(), exit.set()),
        final(out)@ == marks_opt(*e, live_out.set(), exit.set(), old(out)@),
    decreases e, 0int,
{
    match e {
        Some(x) => transfer(&**x, live_out, exit, out),
        None => live_out.copied(),
    }
}

/// A run of expressions, the last one first.
fn fold_reverse(es: &Vec<Spanned<TypedExpr>>, live_out: &NameSet, exit: &NameSet, out: &mut Liveness) -> (r: NameSet)
    ensures
        r.set() == live_list(es@, live_out.set(), exit.set()),
        final(out)@ == marks_list(es@, live_out.set(), exit.set(), old(out)@),
    decreases es, 0int,
{
    let mut lo = live_out.copied();
    let mut i: usize = es.len();
    assert(es@.take(i as int) =~= es@);
    while i > 0
        invariant
            i <= es.len(),
            live_list(es@.take(i as int), lo.set(), exit.set()) == live_list(es@, live_out.set(), exit.set()),
            marks_list(es@.take(i as int), lo.set(), exit.set(), out@) == marks_list(
                es@,
                live_out.set(),
                exit.set(),
                old(out)@,
            ),
        decreases i,
    {
        assert(es@.take(i as int).drop_last() =~= es@.take(i - 1));
        assert(es@.take(i as int).last() == es@[i - 1]);
        i = i - 1;
        lo = transfer(&es[i], &lo, exit, out);
    }
    lo
}

/// A run of statements, the last one first.
fn transfer_block(
    es: &Vec<Spanned<TypedExpr>>,
    live_out: &NameSet,
    exit: &NameSet,
    out: &mut Liveness,
) -> (r: NameSet)
    ensures
        r.set() == live_list(es@, live_out.set(), exit.set()),
        final(out)@ == marks_block(es@, live_out.set(), exit.set(), old(out)@),
    decreases es, 0int,
{
    let mut lo = live_out.copied();
    let mut i: usize = es.len();
    assert(es@.take(i as int) =~= es@);
    while i > 0
        invariant
            i <= es.len(),
            live_list(es@.take(i as int), lo.set(), exit.set()) == live_list(es@, live_out.set(), exit.set()),
            marks_block(es@.take(i as int), lo.set(), exit.set(), out@) == marks_block(
                es@,
                live_out.set(),
                exit.set(),
                old(out)@,
            ),
        decreases i,
    {
        assert(es@.take(i as int).drop_last() =~= es@.take(i - 1));
        assert(es@.take(i as int).last() == es@[i - 1]);
        i = i - 1;
        let li = transfer(&es[i], &lo, exit, out);
        out.record_dead_after(es[i].item.id, &li, &lo);
        lo = li;
    }
    lo
}

/// A run of pairs, the last one first.
fn fold_pairs_reverse(
    es: &Vec<(Spanned<TypedExpr>, Spanned<TypedExpr>)>,
    live_out: &NameSet,
    exit: &NameSet,
    out: &mut Liveness,
) -> (r: NameSet)
    ensures
        r.set() == live_pairs(es@, live_out.set(), exit.set()),
        final(out)@ == marks_pairs(es@, live_out.set(), exit.set(), old(out)@),
    decreases es, 0int,
{
    let mut lo = live_out.copied();
    let mut i: usize = es.len();
    assert(es@.take(i as int) =~= es@);
    while i > 0
        invariant
            i <= es.len(),
            live_pairs(es@.take(i as int), lo.set(), exit.set()) == live_pairs(es@, live_out.set(), exit.set()),
            marks_pairs(es@.take(i as int), lo.set(), exit.set(), out@) == marks_pairs(
                es@,
                live_out.set(),
                exit.set(),
                old(out)@,
            ),
        decreases i,
    {
        assert(es@.take(i as int).drop_last() =~= es@.take(i - 1));
        assert(es@.take(i as int).last() == es@[i - 1]);
        i = i - 1;
        lo = transfer(&es[i].1, &lo, exit, out);
        lo = transfer(&es[i].0, &lo, exit, out);
    }
    lo
}

/// A run of fields, the last one first.
fn fold_fields_reverse(
    es: &Vec<(String, TypedExprRef)>,
    live_out: &NameSet,
    exit: &NameSet,
    out: &mut Liveness,
) -> (r: NameSet)
    ensures
        r.set() == live_fields(es@, live_out.set(), exit.set()),
        final(out)@ == marks_fields(es@, live_out.set(), exit.set(), old(out)@),
    decreases es, 0int,
{
    let mut lo = live_out.copied();
    let mut i: usize = es.len();
    assert(es@.take(i as int) =~= es@);
    while i > 0
        invariant
            i <= es.len(),
            live_fields(es@.take(i as int), lo.set(), exit.set()) == live_fields(es@, live_out.set(), exit.set()),
            marks_fields(es@.take(i as int), lo.set(), exit.set(), out@) == marks_fields(
                es@,
                live_out.set(),
                exit.set(),
                old(out)@,
            ),
        decreases i,
    {
        assert(es@.take(i as int).drop_last() =~= es@.take(i - 1));
        assert(es@.take(i as int).last() == es@[i - 1]);
        i = i - 1;
        lo = transfer(&*es[i].1, &lo, exit, out);
    }
    lo
}

fn transfer_seg(s: &PlaceSeg, live_out: &NameSet, exit: &NameSet, out: &mut Liveness) -> (r: NameSet)
    ensures
        r.set() == live_seg(*s, live_out.set(), exit.set()),
        final(out)@ == marks_seg(*s, live_out.set(), exit.set(), old(out)@),
    decreases s, 0int,
{
    match s {
        PlaceSeg::Index { index, elem_ty: _ } => transfer(&**index, live_out, exit, out),
        PlaceSeg::Field(_) => live_out.copied(),
    }
}

/// The steps of a path, the last one first.
fn fold_path_reverse(es: &Vec<PlaceSeg>, live_out: &NameSet, exit: &NameSet, out: &mut Liveness) -> (r: NameSet)
    ensures
        r.set() == live_path(es@, live_out.set(), exit.set()),
        final(out)@ == marks_path(es@, live_out.set(), exit.set(), old(out)@),
    decreases es, 0int,
{
    let mut lo = live_out.copied();
    let mut i: usize = es.len();
    assert(es@.take(i as int) =~= es@);
    while i > 0
        invariant
            i <= es.len(),
            live_path(es@.take(i as int), lo.set(), exit.set()) == live_path(es@, live_out.set(), exit.set()),
            marks_path(es@.take(i as int), lo.set(), exit.set(), out@) == marks_path(
                es@,
                live_out.set(),
                exit.set(),
                old(out)@,
            ),
        decreases i,
    {
        assert(es@.take(i as int).drop_last() =~= es@.take(i - 1));
        assert(es@.take(i as int).last() == es@[i - 1]);
        i = i - 1;
        lo = transfer_seg(&es[i], &lo, exit, out);
    }
    lo
}

fn transfer_arg(a: &Arg, live_out: &NameSet, exit: &NameSet, out: &mut Liveness) -> (r: NameSet)
    ensures
        r.set() == live_arg(*a, live_out.set(), exit.set()),
        final(out)@ == marks_arg(*a, live_out.set(), exit.set(), old(out)@),
    decreases a, 0int,
{
    match a {
        Arg::Value(e) => transfer(e, live_out, exit, out),
        Arg::Mut(p) => fold_path_reverse(&p.path, live_out, exit, out),
    }
}

/// A run of arguments, the last one first.
fn fold_args_reverse(es: &Vec<Arg>, live_out: &NameSet, exit: &NameSet, out: &mut Liveness) -> (r: NameSet)
    ensures
        r.set() == live_args(es@, live_out.set(), exit.set()),
        final(out)@ == marks_args(es@, live_out.set(), exit.set(), old(out)@),
    decreases es, 0int,
{
    let mut lo = live_out.copied();
    let mut i: usize = es.len();
    assert(es@.take(i as int) =~= es@);
    while i > 0
        invariant
            i <= es.len(),
            live_args(es@.take(i as int), lo.set(), exit.set()) == live_args(es@, live_out.set(), exit.set()),
            marks_args(es@.take(i as int), lo.set(), exit.set(), out@) == marks_args(
                es@,
                live_out.set(),
                exit.set(),
                old(out)@,
            ),
        decreases i,
    {
        assert(es@.take(i as int).drop_last() =~= es@.take(i - 1));
        assert(es@.take(i as int).last() == es@[i - 1]);
        i = i - 1;
        lo = transfer_arg(&es[i], &lo, exit, out);
    }
    lo
}

} // verus!
