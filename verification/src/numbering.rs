//! Gives every node of a program an identity of its own.
use crate::tokens::Spanned;
use crate::typed_ast::{
    arg_ids, args_ids, field_ids, ids, kind_ids, list_ids, opt_ids, pair_ids, path_ids, same_arg, same_args,
    same_but_ids, same_fields, same_kind, same_list, same_opt, same_pairs, same_path, same_seg, seg_ids, Arg, NodeId,
    PlaceSeg, TypedExpr, TypedExprKind, TypedExprRef,
};
use vstd::prelude::*;

verus! {

// ── Numbering ────────────────────────────────────────────────────────────

/// The numbers from `start` on, `n` of them.
pub open spec fn counting(start: int, n: nat) -> Seq<u32> {
    Seq::new(n, |i: int| (start + i) as u32)
}

/// Gives every node below `expr` a number of its own, from 1 on and without
/// gaps, each node before its parts. Nothing else about the tree changes.
/// Returns how many nodes there are.
pub fn number_nodes(expr: &mut Spanned<TypedExpr>) -> (r: NodeId)
    requires
        ids(*old(expr)).len() < u32::MAX,
    ensures
        same_but_ids(*old(expr), *final(expr)),
        ids(*final(expr)) == counting(1, ids(*old(expr)).len()),
        ids(*final(expr)).no_duplicates(),
        r == ids(*old(expr)).len(),
{
    let mut next: NodeId = 1;
    number(expr, &mut next);
    next - 1
}

proof fn counting_joins(start: int, m: nat, n: nat)
    ensures
        counting(start, m) + counting(start + m, n) == counting(start, m + n),
{
    assert(counting(start, m) + counting(start + m, n) =~= counting(start, m + n));
}

fn number(expr: &mut Spanned<TypedExpr>, next: &mut NodeId)
    requires
        *old(next) + ids(*old(expr)).len() <= u32::MAX,
    ensures
        same_but_ids(*old(expr), *final(expr)),
        ids(*final(expr)) == counting(*old(next) as int, ids(*old(expr)).len()),
        *final(next) == *old(next) + ids(*old(expr)).len(),
    decreases *old(expr), 1int,
{
    let ghost start = *next as int;
    expr.item.id = *next;
    *next = *next + 1;
    number_kind(&mut expr.item.kind, next);
    proof {
        let n = kind_ids(old(expr).item.kind).len();
        assert(seq![start as u32] =~= counting(start, 1));
        counting_joins(start, 1, n);
    }
}

fn number_opt(expr: &mut Option<TypedExprRef>, next: &mut NodeId)
    requires
        *old(next) + opt_ids(*old(expr)).len() <= u32::MAX,
    ensures
        same_opt(*old(expr), *final(expr)),
        opt_ids(*final(expr)) == counting(*old(next) as int, opt_ids(*old(expr)).len()),
        *final(next) == *old(next) + opt_ids(*old(expr)).len(),
    decreases *old(expr), 0int,
{
    match expr {
        Some(e) => number(&mut **e, next),
        None => {
            assert(counting(*next as int, 0) =~= Seq::<u32>::empty());
        },
    }
}

proof fn list_ids_prefix(es: Seq<Spanned<TypedExpr>>, n: int)
    requires
        0 <= n <= es.len(),
    ensures
        list_ids(es.take(n)).len() <= list_ids(es).len(),
    decreases es.len(),
{
    if n < es.len() {
        list_ids_prefix(es.drop_last(), n);
        assert(es.drop_last().take(n) =~= es.take(n));
    } else {
        assert(es.take(n) =~= es);
    }
}

fn number_list(es: &mut Vec<Spanned<TypedExpr>>, next: &mut NodeId)
    requires
        *old(next) + list_ids(old(es)@).len() <= u32::MAX,
    ensures
        same_list(old(es)@, final(es)@),
        list_ids(final(es)@) == counting(*old(next) as int, list_ids(old(es)@).len()),
        *final(next) == *old(next) + list_ids(old(es)@).len(),
    decreases *old(es), 0int,
{
    let ghost start = *next as int;
    let ghost all = es@;
    let n: usize = es.len();
    let mut i: usize = 0;
    assert(counting(start, 0) =~= Seq::<u32>::empty());
    while i < n
        invariant
            i <= n == es.len() == all.len(),
            all == old(es)@,
            start == *old(next),
            start + list_ids(all).len() <= u32::MAX,
            forall|k: int| 0 <= k < i ==> same_but_ids(#[trigger] all[k], es@[k]),
            forall|k: int| i <= k < n ==> #[trigger] es@[k] == all[k],
            list_ids(es@.take(i as int)) == counting(start, list_ids(all.take(i as int)).len()),
            *next == start + list_ids(all.take(i as int)).len(),
        decreases n - i,
    {
        let ghost before = es@;
        let ghost at = *next as int;
        proof {
            assert(all.take(i + 1).drop_last() =~= all.take(i as int));
            list_ids_prefix(all, i + 1);
            assert(es@[i as int] == all[i as int]);
        }
        number(&mut es[i], next);
        proof {
            assert(es@.take(i + 1).drop_last() =~= before.take(i as int));
            assert(es@.take(i + 1).last() == es@[i as int]);
            counting_joins(start, list_ids(all.take(i as int)).len(), ids(all[i as int]).len());
        }
        i = i + 1;
    }
    proof {
        assert(all.take(n as int) =~= all);
        assert(es@.take(n as int) =~= es@);
    }
}

proof fn pair_ids_prefix(es: Seq<(Spanned<TypedExpr>, Spanned<TypedExpr>)>, n: int)
    requires
        0 <= n <= es.len(),
    ensures
        pair_ids(es.take(n)).len() <= pair_ids(es).len(),
    decreases es.len(),
{
    if n < es.len() {
        pair_ids_prefix(es.drop_last(), n);
        assert(es.drop_last().take(n) =~= es.take(n));
    } else {
        assert(es.take(n) =~= es);
    }
}

fn number_pairs(es: &mut Vec<(Spanned<TypedExpr>, Spanned<TypedExpr>)>, next: &mut NodeId)
    requires
        *old(next) + pair_ids(old(es)@).len() <= u32::MAX,
    ensures
        same_pairs(old(es)@, final(es)@),
        pair_ids(final(es)@) == counting(*old(next) as int, pair_ids(old(es)@).len()),
        *final(next) == *old(next) + pair_ids(old(es)@).len(),
    decreases *old(es), 0int,
{
    let ghost start = *next as int;
    let ghost all = es@;
    let n: usize = es.len();
    let mut i: usize = 0;
    assert(counting(start, 0) =~= Seq::<u32>::empty());
    while i < n
        invariant
            i <= n == es.len() == all.len(),
            all == old(es)@,
            start == *old(next),
            start + pair_ids(all).len() <= u32::MAX,
            forall|k: int| 0 <= k < i ==> same_but_ids((#[trigger] all[k]).0, es@[k].0) && same_but_ids(all[k].1, es@[k].1),
            forall|k: int| i <= k < n ==> #[trigger] es@[k] == all[k],
            pair_ids(es@.take(i as int)) == counting(start, pair_ids(all.take(i as int)).len()),
            *next == start + pair_ids(all.take(i as int)).len(),
        decreases n - i,
    {
        let ghost before = es@;
        let ghost at = *next as int;
        proof {
            assert(all.take(i + 1).drop_last() =~= all.take(i as int));
            pair_ids_prefix(all, i + 1);
            assert(es@[i as int] == all[i as int]);
        }
        number(&mut es[i].0, next);
        number(&mut es[i].1, next);
        proof {
            counting_joins(at, ids(all[i as int].0).len(), ids(all[i as int].1).len());
            assert(pair_ids(es@.take(i + 1)) =~= pair_ids(before.take(i as int)) + (ids(es@[i as int].0) + ids(
                es@[i as int].1,
            ))) by {
                assert(es@.take(i + 1).drop_last() =~= before.take(i as int));
            }
        }
        proof {
            assert(es@.take(i + 1).drop_last() =~= before.take(i as int));
            assert(es@.take(i + 1).last() == es@[i as int]);
            counting_joins(start, pair_ids(all.take(i as int)).len(), (ids(all[i as int].0) + ids(all[i as int].1)).len());
        }
        i = i + 1;
    }
    proof {
        assert(all.take(n as int) =~= all);
        assert(es@.take(n as int) =~= es@);
    }
}

proof fn field_ids_prefix(es: Seq<(String, TypedExprRef)>, n: int)
    requires
        0 <= n <= es.len(),
    ensures
        field_ids(es.take(n)).len() <= field_ids(es).len(),
    decreases es.len(),
{
    if n < es.len() {
        field_ids_prefix(es.drop_last(), n);
        assert(es.drop_last().take(n) =~= es.take(n));
    } else {
        assert(es.take(n) =~= es);
    }
}

fn number_fields(es: &mut Vec<(String, TypedExprRef)>, next: &mut NodeId)
    requires
        *old(next) + field_ids(old(es)@).len() <= u32::MAX,
    ensures
        same_fields(old(es)@, final(es)@),
        field_ids(final(es)@) == counting(*old(next) as int, field_ids(old(es)@).len()),
        *final(next) == *old(next) + field_ids(old(es)@).len(),
    decreases *old(es), 0int,
{
    let ghost start = *next as int;
    let ghost all = es@;
    let n: usize = es.len();
    let mut i: usize = 0;
    assert(counting(start, 0) =~= Seq::<u32>::empty());
    while i < n
        invariant
            i <= n == es.len() == all.len(),
            all == old(es)@,
            start == *old(next),
            start + field_ids(all).len() <= u32::MAX,
            forall|k: int| 0 <= k < i ==> (#[trigger] all[k]).0 == es@[k].0 && same_but_ids(*all[k].1, *es@[k].1),
            forall|k: int| i <= k < n ==> #[trigger] es@[k] == all[k],
            field_ids(es@.take(i as int)) == counting(start, field_ids(all.take(i as int)).len()),
            *next == start + field_ids(all.take(i as int)).len(),
        decreases n - i,
    {
        let ghost before = es@;
        let ghost at = *next as int;
        proof {
            assert(all.take(i + 1).drop_last() =~= all.take(i as int));
            field_ids_prefix(all, i + 1);
            assert(es@[i as int] == all[i as int]);
        }
        number(&mut *es[i].1, next);
        proof {
            assert(es@.take(i + 1).drop_last() =~= before.take(i as int));
            assert(es@.take(i + 1).last() == es@[i as int]);
            counting_joins(start, field_ids(all.take(i as int)).len(), ids(*all[i as int].1).len());
        }
        i = i + 1;
    }
    proof {
        assert(all.take(n as int) =~= all);
        assert(es@.take(n as int) =~= es@);
    }
}

fn number_seg(seg: &mut PlaceSeg, next: &mut NodeId)
    requires
        *old(next) + seg_ids(*old(seg)).len() <= u32::MAX,
    ensures
        same_seg(*old(seg), *final(seg)),
        seg_ids(*final(seg)) == counting(*old(next) as int, seg_ids(*old(seg)).len()),
        *final(next) == *old(next) + seg_ids(*old(seg)).len(),
    decreases *old(seg), 0int,
{
    match seg {
        PlaceSeg::Index { index, elem_ty: _ } => number(&mut **index, next),
        PlaceSeg::Field(_) => {
            assert(counting(*next as int, 0) =~= Seq::<u32>::empty());
        },
    }
}

proof fn path_ids_prefix(es: Seq<PlaceSeg>, n: int)
    requires
        0 <= n <= es.len(),
    ensures
        path_ids(es.take(n)).len() <= path_ids(es).len(),
    decreases es.len(),
{
    if n < es.len() {
        path_ids_prefix(es.drop_last(), n);
        assert(es.drop_last().take(n) =~= es.take(n));
    } else {
        assert(es.take(n) =~= es);
    }
}

fn number_path(es: &mut Vec<PlaceSeg>, next: &mut NodeId)
    requires
        *old(next) + path_ids(old(es)@).len() <= u32::MAX,
    ensures
        same_path(old(es)@, final(es)@),
        path_ids(final(es)@) == counting(*old(next) as int, path_ids(old(es)@).len()),
        *final(next) == *old(next) + path_ids(old(es)@).len(),
    decreases *old(es), 0int,
{
    let ghost start = *next as int;
    let ghost all = es@;
    let n: usize = es.len();
    let mut i: usize = 0;
    assert(counting(start, 0) =~= Seq::<u32>::empty());
    while i < n
        invariant
            i <= n == es.len() == all.len(),
            all == old(es)@,
            start == *old(next),
            start + path_ids(all).len() <= u32::MAX,
            forall|k: int| 0 <= k < i ==> same_seg(#[trigger] all[k], es@[k]),
            forall|k: int| i <= k < n ==> #[trigger] es@[k] == all[k],
            path_ids(es@.take(i as int)) == counting(start, path_ids(all.take(i as int)).len()),
            *next == start + path_ids(all.take(i as int)).len(),
        decreases n - i,
    {
        let ghost before = es@;
        let ghost at = *next as int;
        proof {
            assert(all.take(i + 1).drop_last() =~= all.take(i as int));
            path_ids_prefix(all, i + 1);
            assert(es@[i as int] == all[i as int]);
        }
        number_seg(&mut es[i], next);
        proof {
            assert(es@.take(i + 1).drop_last() =~= before.take(i as int));
            assert(es@.take(i + 1).last() == es@[i as int]);
            counting_joins(start, path_ids(all.take(i as int)).len(), seg_ids(all[i as int]).len());
        }
        i = i + 1;
    }
    proof {
        assert(all.take(n as int) =~= all);
        assert(es@.take(n as int) =~= es@);
    }
}

fn number_arg(arg: &mut Arg, next: &mut NodeId)
    requires
        *old(next) + arg_ids(*old(arg)).len() <= u32::MAX,
    ensures
        same_arg(*old(arg), *final(arg)),
        arg_ids(*final(arg)) == counting(*old(next) as int, arg_ids(*old(arg)).len()),
        *final(next) == *old(next) + arg_ids(*old(arg)).len(),
    decreases *old(arg), 0int,
{
    match arg {
        Arg::Value(e) => number(e, next),
        Arg::Mut(p) => number_path(&mut p.path, next),
    }
}

proof fn args_ids_prefix(es: Seq<Arg>, n: int)
    requires
        0 <= n <= es.len(),
    ensures
        args_ids(es.take(n)).len() <= args_ids(es).len(),
    decreases es.len(),
{
    if n < es.len() {
        args_ids_prefix(es.drop_last(), n);
        assert(es.drop_last().take(n) =~= es.take(n));
    } else {
        assert(es.take(n) =~= es);
    }
}

fn number_args(es: &mut Vec<Arg>, next: &mut NodeId)
    requires
        *old(next) + args_ids(old(es)@).len() <= u32::MAX,
    ensures
        same_args(old(es)@, final(es)@),
        args_ids(final(es)@) == counting(*old(next) as int, args_ids(old(es)@).len()),
        *final(next) == *old(next) + args_ids(old(es)@).len(),
    decreases *old(es), 0int,
{
    let ghost start = *next as int;
    let ghost all = es@;
    let n: usize = es.len();
    let mut i: usize = 0;
    assert(counting(start, 0) =~= Seq::<u32>::empty());
    while i < n
        invariant
            i <= n == es.len() == all.len(),
            all == old(es)@,
            start == *old(next),
            start + args_ids(all).len() <= u32::MAX,
            forall|k: int| 0 <= k < i ==> same_arg(#[trigger] all[k], es@[k]),
            forall|k: int| i <= k < n ==> #[trigger] es@[k] == all[k],
            args_ids(es@.take(i as int)) == counting(start, args_ids(all.take(i as int)).len()),
            *next == start + args_ids(all.take(i as int)).len(),
        decreases n - i,
    {
        let ghost before = es@;
        let ghost at = *next as int;
        proof {
            assert(all.take(i + 1).drop_last() =~= all.take(i as int));
            args_ids_prefix(all, i + 1);
            assert(es@[i as int] == all[i as int]);
        }
        number_arg(&mut es[i], next);
        proof {
            assert(es@.take(i + 1).drop_last() =~= before.take(i as int));
            assert(es@.take(i + 1).last() == es@[i as int]);
            counting_joins(start, args_ids(all.take(i as int)).len(), arg_ids(all[i as int]).len());
        }
        i = i + 1;
    }
    proof {
        assert(all.take(n as int) =~= all);
        assert(es@.take(n as int) =~= es@);
    }
}

fn number_kind(kind: &mut TypedExprKind, next: &mut NodeId)
    requires
        *old(next) + kind_ids(*old(kind)).len() <= u32::MAX,
    ensures
        same_kind(*old(kind), *final(kind)),
        kind_ids(*final(kind)) == counting(*old(next) as int, kind_ids(*old(kind)).len()),
        *final(next) == *old(next) + kind_ids(*old(kind)).len(),
    decreases *old(kind), 0int,
{
    let ghost first = *next as int;
    match kind {
        TypedExprKind::IntLit(_)
        | TypedExprKind::FloatLit(_)
        | TypedExprKind::BoolLit(_)
        | TypedExprKind::StrLit(_)
        | TypedExprKind::NoneLit
        | TypedExprKind::Var(_) => {
            assert(counting(first, 0) =~= Seq::<u32>::empty());
        },
        TypedExprKind::Unary { op: _, expr } => number(&mut **expr, next),
        TypedExprKind::Binary { op: _, left, right } => {
            let ghost n_left = ids(**left).len();
            let ghost n_right = ids(**right).len();
            number(&mut **left, next);
            number(&mut **right, next);
            proof {
                counting_joins(first, n_left, n_right);
            }
        },
        TypedExprKind::Conditional { cond, true_branch, false_branch } => {
            let ghost n_cond = ids(**cond).len();
            let ghost n_true_branch = ids(**true_branch).len();
            let ghost n_false_branch = opt_ids(*false_branch).len();
            number(&mut **cond, next);
            number(&mut **true_branch, next);
            number_opt(false_branch, next);
            proof {
                counting_joins(first, n_cond, n_true_branch);
                counting_joins(first, n_cond + n_true_branch, n_false_branch);
            }
        },
        TypedExprKind::Assign { name: _, value } => number(&mut **value, next),
        TypedExprKind::Function { params: _, return_type: _, body } => number(&mut **body, next),
        TypedExprKind::Call { callable, args } => {
            let ghost n_callable = ids(**callable).len();
            let ghost n_args = args_ids(args@).len();
            number(&mut **callable, next);
            number_args(args, next);
            proof {
                counting_joins(first, n_callable, n_args);
            }
        },
        TypedExprKind::Index { target, index } => {
            let ghost n_target = ids(**target).len();
            let ghost n_index = ids(**index).len();
            number(&mut **target, next);
            number(&mut **index, next);
            proof {
                counting_joins(first, n_target, n_index);
            }
        },
        TypedExprKind::Slice { target, start, end } => {
            let ghost n_target = ids(**target).len();
            let ghost n_start = opt_ids(*start).len();
            let ghost n_end = opt_ids(*end).len();
            number(&mut **target, next);
            number_opt(start, next);
            number_opt(end, next);
            proof {
                counting_joins(first, n_target, n_start);
                counting_joins(first, n_target + n_start, n_end);
            }
        },
        TypedExprKind::Range { start, end } => {
            let ghost n_start = ids(**start).len();
            let ghost n_end = ids(**end).len();
            number(&mut **start, next);
            number(&mut **end, next);
            proof {
                counting_joins(first, n_start, n_end);
            }
        },
        TypedExprKind::List(x) => number_list(x, next),
        TypedExprKind::Dict(x) => number_pairs(x, next),
        TypedExprKind::Block(x) => number_list(x, next),
        TypedExprKind::ForLoop { var: _, iterable, cond, body, iter_via: _ } => {
            let ghost n_iterable = ids(**iterable).len();
            let ghost n_cond = opt_ids(*cond).len();
            let ghost n_body = ids(**body).len();
            number(&mut **iterable, next);
            number_opt(cond, next);
            number(&mut **body, next);
            proof {
                counting_joins(first, n_iterable, n_cond);
                counting_joins(first, n_iterable + n_cond, n_body);
            }
        },
        TypedExprKind::Comprehension { var: _, iterable, cond, body, iter_via: _ } => {
            let ghost n_iterable = ids(**iterable).len();
            let ghost n_cond = opt_ids(*cond).len();
            let ghost n_body = ids(**body).len();
            number(&mut **iterable, next);
            number_opt(cond, next);
            number(&mut **body, next);
            proof {
                counting_joins(first, n_iterable, n_cond);
                counting_joins(first, n_iterable + n_cond, n_body);
            }
        },
        TypedExprKind::StructInit { name: _, fields } => number_fields(fields, next),
        TypedExprKind::FieldAccess { target, field: _, enum_name: _ } => number(&mut **target, next),
        TypedExprKind::PlaceAssign { place, value } => {
            let ghost n_place = path_ids(place.path@).len();
            let ghost n_value = ids(**value).len();
            number_path(&mut place.path, next);
            number(&mut **value, next);
            proof {
                counting_joins(first, n_place, n_value);
            }
        },
        TypedExprKind::VariantInit { enum_name: _, variant: _, tag: _, fields } => number_fields(fields, next),
        TypedExprKind::IsVariant { target, enum_name: _, variant: _, tag: _ } => number(&mut **target, next),
        TypedExprKind::VariantField { target, enum_name: _, variant: _, field: _ } => number(&mut **target, next),
        TypedExprKind::Return(x) => number_opt(x, next),
        TypedExprKind::Widen { value, tag: _ } => number(&mut **value, next),
        TypedExprKind::Narrow { value, tag: _ } => number(&mut **value, next),
        TypedExprKind::TypeTag { target, tag: _ } => number(&mut **target, next),
        TypedExprKind::Truthy(x) => number(&mut **x, next),
        TypedExprKind::Coerce(x) => number(&mut **x, next),
    }
}

} // verus!
