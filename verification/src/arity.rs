//! How many words a lowered expression leaves behind.
use crate::emit::read_slots_upto;
use crate::fields::{fields_stand_in_order, leaves_before, leaves_before_grows};
use crate::ir::{Code, Env};
use crate::layout::{lays_out, leaves_of, payload_less, union_columns, unboxed};
use crate::lower::{
    block_params_upto, builtin, common_field_code, compile_binary_code, compile_call_code, compile_coerce_code,
    compile_comprehension_code, compile_conditional_code, compile_expr_multi_code, compile_field_access_code,
    compile_for_code, compile_index_code, compile_is_variant_code, compile_list_lit_code, compile_logical_code,
    compile_narrow_code, compile_place_assign_code, compile_return_code, compile_slice_code,
    compile_truthy_code, compile_type_tag_code, compile_unary_code, compile_union_eq_code, compile_variant_field_code, compile_variant_init_code,
    compile_widen_code, enum_field_leaf_types_code, field_slice_range_code, find_field_upto, host_call_code,
    index_words_upto, inline_union, len_call_code, lower_stmts_code, lower_stmts_upto,
    lower_struct_code, lower_struct_upto, multi_leaf, own_field_code, print_call_code, push_call_code, read_vars_upto,
    result_of, results_from_upto, to_list_call_code, transient_code, unstack_words_upto, user_call_code, value_of,
    variant_from, zero_word_code,
};
use crate::pack::{member_lays_out, member_tys};
use crate::show::{
    index_of_type, pack_union_member_code, place_words_upto, slot_map_code, unpack_union_member_code,
    unpack_words_upto, variant_struct,
};
use crate::tokens::Spanned;
use crate::typed_ast::{Arg, TypedExpr, TypedExprKind, TypedExprRef};
use crate::types::{field_tys, find_struct, find_union, Defs, FieldView, Ty};
use vstd::prelude::*;

verus! {

// ── What a type checker settles ──────────────────────────────────────────

/// Whether the first field called `name` is the one at `k`.
pub open spec fn declared(fs: Seq<FieldView>, name: Seq<char>, k: int) -> bool {
    &&& 0 <= k < fs.len()
    &&& fs[k].0 == name
    &&& forall|j: int| 0 <= j < k ==> (#[trigger] fs[j]).0 != name
}

/// Whether the fields hold one called `name`, of type `ty`.
pub open spec fn has_field(fs: Seq<FieldView>, name: Seq<char>, ty: Ty) -> bool {
    exists|k: int| #[trigger] declared(fs, name, k) && fs[k].1 == ty
}

/// Whether the leaves of all fields together can be counted.
pub open spec fn countable(fs: Seq<FieldView>, defs: Defs) -> bool {
    &&& fs.len() <= usize::MAX
    &&& forall|k: int| 0 <= k < fs.len() ==> lays_out((#[trigger] fs[k]).1, defs)
    &&& leaves_before(fs, defs, fs.len() as int) <= usize::MAX
}

/// Whether the leaves of `member` can be placed in the columns of the union.
pub open spec fn placeable(members: Seq<Ty>, member: Ty, defs: Defs) -> bool {
    &&& member_lays_out(member, defs)
    &&& union_columns(members, defs) matches Some(cols) && cols.ptr_end() + member_tys(member, defs).len()
        <= usize::MAX
}

/// Whether `member` is a struct that begins with these fields, and can be
/// placed in the columns of the union.
pub open spec fn begins_with(members: Seq<Ty>, member: Ty, fs: Seq<FieldView>, defs: Defs) -> bool {
    &&& member.is_struct()
    &&& placeable(members, member, defs)
    &&& find_struct(defs, member) matches Some(all) && fs.len() <= all.len() && all.take(fs.len() as int) == fs
}

/// Whether a value of type `target` has the fields `fs`, of which one is called
/// `name` and of type `ty`, in the member that `member` names.
pub open spec fn reaches_field(
    target: Ty,
    member: Option<Ty>,
    fs: Seq<FieldView>,
    name: Seq<char>,
    ty: Ty,
    defs: Defs,
) -> bool {
    &&& countable(fs, defs)
    &&& has_field(fs, name, ty)
    &&& match target {
        Ty::Union(members) => unboxed(members, defs) ==> match member {
            Some(m) => begins_with(members, m, fs, defs),
            None => members.len() > 0 && begins_with(members, members[0], fs, defs),
        },
        _ => true,
    }
}

/// Whether the type of a call's result is the call's own: what a function
/// returns, or the one word of a built-in call.
pub open spec fn call_typed(e: Spanned<TypedExpr>, cx: Env) -> bool {
    match e.item.kind {
        TypedExprKind::Call { callable, args } => match callable.item.kind {
            TypedExprKind::Var(name) => if name@ == "push"@ {
                leaves_of(e.item.ty@, cx.defs).len() == 1
            } else if builtin(name@) {
                &&& leaves_of(e.item.ty@, cx.defs).len() == 1
                &&& name@ == "print"@ ==> (value_of(args@) matches Some(arg) ==> !(arg.item.ty@ is Never))
            } else {
                result_of(callable.item.ty@) == e.item.ty@
            },
            _ => leaves_of(e.item.ty@, cx.defs).len() == 1,
        },
        _ => false,
    }
}

/// Whether the node's type is the one that its kind gives it, as far as that
/// decides how many leaves there are. Assignments, which stand for the value
/// assigned and not for their own type, are left out, and so is what never
/// returns.
pub open spec fn typed(e: Spanned<TypedExpr>, cx: Env) -> bool
    decreases e, 1int, 0int,
{
    let ty = e.item.ty@;
    let n = leaves_of(ty, cx.defs).len();
    &&& lays_out(ty, cx.defs)
    &&& n <= usize::MAX
    &&& !(ty is Never)
    &&& match e.item.kind {
        TypedExprKind::Var(_) => true,
        TypedExprKind::Index { target: _, index: _ } => true,
        TypedExprKind::Conditional { cond: _, true_branch: _, false_branch: _ } => true,
        TypedExprKind::Range { start: _, end: _ } => n == 2,
        TypedExprKind::Call { callable: _, args: _ } => call_typed(e, cx),
        TypedExprKind::Block(stmts) => if stmts@.len() == 0 {
            n == 1
        } else {
            let last = stmts@[stmts@.len() - 1];
            last.item.ty@ == ty && typed(last, cx)
        },
        TypedExprKind::StructInit { name: _, fields } => {
            &&& ty.is_struct()
            &&& find_struct(cx.defs, ty) matches Some(fs) && fs.len() == fields@.len() && fields_typed(
                fields@,
                fs,
                cx,
                fields@.len(),
            )
        },
        TypedExprKind::FieldAccess { target, field, enum_name } => match enum_name {
            Some(name) => find_union(cx.unions, name@) matches Some(def) && reaches_field(
                target.item.ty@,
                None,
                def.common,
                field@,
                ty,
                cx.defs,
            ),
            None => {
                &&& target.item.ty@.is_struct()
                &&& typed(*target, cx)
                &&& find_struct(cx.defs, target.item.ty@) matches Some(fs) && fs.len() <= usize::MAX && has_field(
                    fs,
                    field@,
                    ty,
                )
            },
        },
        TypedExprKind::VariantField { target, enum_name, variant, field } => {
            find_union(cx.unions, enum_name@) matches Some(def) && (variant_from(def.variants, variant@, 0) matches Some(
                own,
            ) && reaches_field(
                target.item.ty@,
                Some(variant_struct(enum_name@, variant@)),
                def.common + own,
                field@,
                ty,
                cx.defs,
            ))
        },
        TypedExprKind::VariantInit { enum_name, variant, tag: _, fields: _ } => match ty {
            Ty::Union(members) => unboxed(members, cx.defs) ==> index_of_type(
                members,
                variant_struct(enum_name@, variant@),
            ) is Some,
            _ => n == 1,
        },
        TypedExprKind::Widen { value: _, tag: _ } => ty is Union,
        TypedExprKind::Narrow { value, tag: _ } => match value.item.ty@ {
            Ty::Union(members) => unboxed(members, cx.defs) && !payload_less(ty) ==> placeable(members, ty, cx.defs),
            _ => false,
        },
        TypedExprKind::Assign { name: _, value: _ } => false,
        TypedExprKind::Return(_) => false,
        _ => n == 1,
    }
}

/// Whether the first `n` values are those of the fields of a struct, in order.
pub open spec fn fields_typed(
    values: Seq<(String, TypedExprRef)>,
    fs: Seq<FieldView>,
    cx: Env,
    n: nat,
) -> bool
    decreases values, 0int, n,
{
    n > 0 && n <= values.len() ==> {
        &&& fields_typed(values, fs, cx, (n - 1) as nat)
        &&& values[n - 1].1.item.ty@ == fs[n - 1].1
        &&& typed(*values[n - 1].1, cx)
    }
}

// ── Loops that make one word each ────────────────────────────────────────

proof fn one_for_each_variable(c: Code, name: Seq<char>, ls: Seq<FieldView>, n: nat)
    ensures
        read_vars_upto(c, name, ls, n).0.len() == n,
    decreases n,
{
    if n > 0 {
        one_for_each_variable(c, name, ls, (n - 1) as nat);
    }
}

proof fn one_for_each_parameter(c: Code, block: usize, ls: Seq<FieldView>, n: nat)
    ensures
        block_params_upto(c, block, ls, n).0.len() == n,
    decreases n,
{
    if n > 0 {
        one_for_each_parameter(c, block, ls, (n - 1) as nat);
    }
}

proof fn one_for_each_element_leaf(c: Code, cx: Env, list: usize, idx: usize, ls: Seq<FieldView>, n: nat)
    ensures
        index_words_upto(c, cx, list, idx, ls, n).0.len() == n,
    decreases n,
{
    if n > 0 {
        one_for_each_element_leaf(c, cx, list, idx, ls, (n - 1) as nat);
    }
}

proof fn one_for_each_slot(c: Code, ptr: usize, offset: usize, tys: Seq<Ty>, n: nat)
    ensures
        read_slots_upto(c, ptr, offset, tys, n).0.len() == n,
    decreases n,
{
    if n > 0 {
        one_for_each_slot(c, ptr, offset, tys, (n - 1) as nat);
    }
}

proof fn one_for_each_result(c: Code, start: usize, count: usize, n: nat)
    ensures
        results_from_upto(c, start, count, n).0.len() == n,
    decreases n,
{
    if n > 0 {
        one_for_each_result(c, start, count, (n - 1) as nat);
    }
}

proof fn one_for_each_stack_word(c: Code, tys: Seq<Ty>, slot: usize, n: nat)
    ensures
        unstack_words_upto(c, tys, slot, n).0.len() == n,
    decreases n,
{
    if n > 0 {
        one_for_each_stack_word(c, tys, slot, (n - 1) as nat);
    }
}

proof fn one_for_each_member_leaf(c: Code, map: Seq<(usize, bool)>, tys: Seq<Ty>, slots: Seq<usize>, n: nat)
    ensures
        unpack_words_upto(c, map, tys, slots, n).0.len() == n,
    decreases n,
{
    if n > 0 {
        one_for_each_member_leaf(c, map, tys, slots, (n - 1) as nat);
    }
}

proof fn placing_keeps_the_columns(
    c: Code,
    map: Seq<(usize, bool)>,
    words: Seq<usize>,
    empty: Seq<usize>,
    n: nat,
)
    ensures
        place_words_upto(c, map, words, empty, n).0.len() == empty.len(),
    decreases n,
{
    if n > 0 {
        placing_keeps_the_columns(c, map, words, empty, (n - 1) as nat);
    }
}

// ── Unions ───────────────────────────────────────────────────────────────

/// An inline union is packed into as many words as it has columns.
proof fn packed_into_its_columns(c: Code, cx: Env, members: Seq<Ty>, member: Ty, tag: u32, vals: Seq<usize>)
    requires
        unboxed(members, cx.defs),
        lays_out(Ty::Union(members), cx.defs),
    ensures
        pack_union_member_code(c, cx, members, member, tag, vals).0.len() == leaves_of(
            Ty::Union(members),
            cx.defs,
        ).len(),
{
    let cols = union_columns(members, cx.defs)->0;
    assert(leaves_of(Ty::Union(members), cx.defs).len() == cols.width());
    assert forall|d: Code, map: Seq<(usize, bool)>, words: Seq<usize>, empty: Seq<usize>, n: nat| #[trigger]
        place_words_upto(d, map, words, empty, n).0.len() == empty.len() by {
        placing_keeps_the_columns(d, map, words, empty, n);
    }
}

/// A member comes out of an inline union as its leaves.
proof fn unpacked_into_its_leaves(c: Code, cx: Env, members: Seq<Ty>, member: Ty, slots: Seq<usize>)
    requires
        placeable(members, member, cx.defs),
    ensures
        unpack_union_member_code(c, cx, members, member, slots).0.len() == member_tys(member, cx.defs).len(),
{
    let (map, d) = slot_map_code(c, cx, members, member);
    let tys = member_tys(member, cx.defs);
    assert(map.len() == tys.len());
    one_for_each_member_leaf(d, map, tys, slots, tys.len());
}

// ── Kinds that leave one word ────────────────────────────────────────────

proof fn a_binary_leaves_one(c: Code, cx: Env, e: Spanned<TypedExpr>)
    ensures
        compile_binary_code(c, cx, e).0.len() == 1,
{
    assert(compile_union_eq_code(c, cx, e).0.len() == 1);
    assert(compile_logical_code(c, cx, e).0.len() == 1);
}

/// The kinds whose value is always one word.
spec fn one_word(e: Spanned<TypedExpr>) -> bool {
    match e.item.kind {
        TypedExprKind::Var(_) => false,
        TypedExprKind::Index { target: _, index: _ } => false,
        TypedExprKind::Conditional { cond: _, true_branch: _, false_branch: _ } => false,
        TypedExprKind::Range { start: _, end: _ } => false,
        TypedExprKind::Call { callable: _, args: _ } => false,
        TypedExprKind::Block(_) => false,
        TypedExprKind::StructInit { name: _, fields: _ } => false,
        TypedExprKind::FieldAccess { target: _, field: _, enum_name: _ } => false,
        TypedExprKind::VariantField { target: _, enum_name: _, variant: _, field: _ } => false,
        TypedExprKind::VariantInit { enum_name: _, variant: _, tag: _, fields: _ } => false,
        TypedExprKind::Widen { value: _, tag: _ } => false,
        TypedExprKind::Narrow { value: _, tag: _ } => false,
        TypedExprKind::Assign { name: _, value: _ } => false,
        TypedExprKind::Return(_) => false,
        _ => true,
    }
}

proof fn one_word_is_left(c: Code, cx: Env, e: Spanned<TypedExpr>)
    requires
        one_word(e),
    ensures
        compile_expr_multi_code(c, cx, e).0.len() == 1,
{
    match e.item.kind {
        TypedExprKind::Unary { op: _, expr: _ } => {
            assert(compile_unary_code(c, cx, e).0.len() == 1);
        },
        TypedExprKind::Binary { op: _, left: _, right: _ } => {
            a_binary_leaves_one(c, cx, e);
        },
        TypedExprKind::Slice { target: _, start: _, end: _ } => {
            assert(compile_slice_code(c, cx, e).0.len() == 1);
        },
        TypedExprKind::List(elems) => {
            assert(compile_list_lit_code(c, cx, e.item.ty@, elems@).0.len() == 1);
        },
        TypedExprKind::ForLoop { var: _, iterable: _, cond: _, body: _, iter_via: _ } => {
            assert(compile_for_code(c, cx, e).0.len() == 1);
        },
        TypedExprKind::Comprehension { var: _, iterable: _, cond: _, body: _, iter_via: _ } => {
            assert(compile_comprehension_code(c, cx, e).0.len() == 1);
        },
        TypedExprKind::PlaceAssign { place: _, value: _ } => {
            assert(compile_place_assign_code(c, cx, e).0.len() == 1);
        },
        TypedExprKind::IsVariant { target: _, enum_name: _, variant: _, tag: _ } => {
            assert(compile_is_variant_code(c, cx, e).0.len() == 1);
        },
        TypedExprKind::TypeTag { target: _, tag: _ } => {
            assert(compile_type_tag_code(c, cx, e).0.len() == 1);
        },
        TypedExprKind::Truthy(value) => {
            assert(compile_truthy_code(c, cx, *value).0.len() == 1);
        },
        TypedExprKind::Coerce(value) => {
            assert(compile_coerce_code(c, cx, *value, e.item.ty@).0.len() == 1);
        },
        _ => {},
    }
}

// ── Kinds that leave the leaves of their type ────────────────────────────

proof fn two_bounds_are_left(c: Code, cx: Env, e: Spanned<TypedExpr>)
    requires
        e.item.kind is Range,
    ensures
        compile_expr_multi_code(c, cx, e).0.len() == 2,
{
}

/// What is no struct and no inline union is one leaf.
proof fn a_scalar_is_one_leaf(ty: Ty, defs: Defs)
    requires
        !multi_leaf(ty, defs),
    ensures
        leaves_of(ty, defs).len() == 1,
{
}

proof fn a_conditional_leaves_its_leaves(c: Code, cx: Env, e: Spanned<TypedExpr>)
    requires
        e.item.kind is Conditional,
        lays_out(e.item.ty@, cx.defs),
        !(e.item.ty@ is Never),
    ensures
        compile_expr_multi_code(c, cx, e).0.len() == leaves_of(e.item.ty@, cx.defs).len(),
{
    assert(compile_expr_multi_code(c, cx, e) == compile_conditional_code(c, cx, e));
    if multi_leaf(e.item.ty@, cx.defs) {
        assert forall|d: Code, block: usize, ls: Seq<FieldView>, n: nat| #[trigger]
            block_params_upto(d, block, ls, n).0.len() == n by {
            one_for_each_parameter(d, block, ls, n);
        }
    } else {
        a_scalar_is_one_leaf(e.item.ty@, cx.defs);
    }
}

proof fn an_element_leaves_its_leaves(c: Code, cx: Env, e: Spanned<TypedExpr>)
    requires
        e.item.kind is Index,
        lays_out(e.item.ty@, cx.defs),
    ensures
        compile_expr_multi_code(c, cx, e).0.len() == leaves_of(e.item.ty@, cx.defs).len(),
{
    assert(compile_expr_multi_code(c, cx, e) == compile_index_code(c, cx, e));
    assert forall|d: Code, list: usize, idx: usize, ls: Seq<FieldView>, n: nat| #[trigger]
        index_words_upto(d, cx, list, idx, ls, n).0.len() == n by {
        one_for_each_element_leaf(d, cx, list, idx, ls, n);
    }
}

proof fn a_call_leaves_its_leaves(c: Code, cx: Env, e: Spanned<TypedExpr>)
    requires
        lays_out(e.item.ty@, cx.defs),
        leaves_of(e.item.ty@, cx.defs).len() <= usize::MAX,
        !(e.item.ty@ is Never),
        call_typed(e, cx),
    ensures
        compile_expr_multi_code(c, cx, e).0.len() == leaves_of(e.item.ty@, cx.defs).len(),
{
    assert(compile_expr_multi_code(c, cx, e) == compile_call_code(c, cx, e));
    if let TypedExprKind::Call { callable, args } = e.item.kind {
        if let TypedExprKind::Var(name) = callable.item.kind {
            if name@ == "push"@ {
                assert(push_call_code(c, cx, args@).0.len() == 1);
            } else if builtin(name@) {
                if let Some(arg) = value_of(args@) {
                    assert(name@ == "print"@ ==> print_call_code(c, cx, arg).0.len() == 1);
                    assert(len_call_code(c, cx, arg).0.len() == 1);
                    assert(to_list_call_code(c, cx, arg).0.len() == 1);
                }
            } else {
                a_result_leaves_its_leaves(c, cx, e.item.ty@, name@, callable.item.ty@, args@);
            }
        }
    }
}

proof fn a_result_leaves_its_leaves(
    c: Code,
    cx: Env,
    ty: Ty,
    name: Seq<char>,
    callable_ty: Ty,
    args: Seq<Arg>,
)
    requires
        result_of(callable_ty) == ty,
        lays_out(ty, cx.defs),
        leaves_of(ty, cx.defs).len() <= usize::MAX,
        !(ty is Never),
    ensures
        host_call_code(c, cx, name, callable_ty, args).0.len() == leaves_of(ty, cx.defs).len(),
        user_call_code(c, cx, name, callable_ty, args).0.len() == leaves_of(ty, cx.defs).len(),
{
    if !multi_leaf(ty, cx.defs) {
        a_scalar_is_one_leaf(ty, cx.defs);
    }
    assert forall|d: Code, tys: Seq<Ty>, slot: usize, n: nat| #[trigger]
        unstack_words_upto(d, tys, slot, n).0.len() == n by {
        one_for_each_stack_word(d, tys, slot, n);
    }
    assert forall|d: Code, start: usize, count: usize, n: nat| #[trigger]
        results_from_upto(d, start, count, n).0.len() == n by {
        one_for_each_result(d, start, count, n);
    }
}

proof fn a_widened_value_leaves_its_leaves(c: Code, cx: Env, ty: Ty, value: Spanned<TypedExpr>, tag: u32)
    requires
        ty is Union,
        lays_out(ty, cx.defs),
    ensures
        compile_widen_code(c, cx, ty, value, tag).0.len() == leaves_of(ty, cx.defs).len(),
{
    let members = ty->Union_0;
    if unboxed(members, cx.defs) {
        let (vals, d) = compile_expr_multi_code(c, cx, value);
        packed_into_its_columns(d, cx, members, value.item.ty@, tag.wrapping_add(1), vals);
        packed_into_its_columns(d, cx, members, value.item.ty@, tag.wrapping_add(1), Seq::empty());
    }
}

proof fn a_narrowed_value_leaves_its_leaves(c: Code, cx: Env, ty: Ty, value: Spanned<TypedExpr>)
    requires
        lays_out(ty, cx.defs),
        value.item.ty@ matches Ty::Union(members) && (unboxed(members, cx.defs) && !payload_less(ty) ==> placeable(
            members,
            ty,
            cx.defs,
        )),
    ensures
        compile_narrow_code(c, cx, ty, value).0.len() == leaves_of(ty, cx.defs).len(),
{
    let members = value.item.ty@->Union_0;
    let (slots, d) = transient_code(c, cx, value);
    if unboxed(members, cx.defs) {
        if !payload_less(ty) {
            unpacked_into_its_leaves(d, cx, members, ty, slots);
        }
    } else {
        assert forall|d: Code, ptr: usize, offset: usize, tys: Seq<Ty>, n: nat| #[trigger]
            read_slots_upto(d, ptr, offset, tys, n).0.len() == n by {
            one_for_each_slot(d, ptr, offset, tys, n);
        }
    }
}

proof fn a_variant_leaves_its_leaves(c: Code, cx: Env, e: Spanned<TypedExpr>)
    requires
        e.item.kind is VariantInit,
        typed(e, cx),
    ensures
        compile_expr_multi_code(c, cx, e).0.len() == leaves_of(e.item.ty@, cx.defs).len(),
{
    assert(compile_expr_multi_code(c, cx, e) == compile_variant_init_code(c, cx, e));
    if let Ty::Union(members) = e.item.ty@ {
        assert forall|d: Code, member: Ty, tag: u32, vals: Seq<usize>|
            unboxed(members, cx.defs) implies #[trigger] pack_union_member_code(
            d,
            cx,
            members,
            member,
            tag,
            vals,
        ).0.len() == leaves_of(e.item.ty@, cx.defs).len() by {
            packed_into_its_columns(d, cx, members, member, tag, vals);
        }
    }
}

// ── Fields ───────────────────────────────────────────────────────────────

proof fn same_before(fs: Seq<FieldView>, gs: Seq<FieldView>, defs: Defs, k: int)
    requires
        0 <= k <= fs.len(),
        k <= gs.len(),
        forall|i: int| 0 <= i < k ==> fs[i] == gs[i],
    ensures
        leaves_before(fs, defs, k) == leaves_before(gs, defs, k),
    decreases k,
{
    if k > 0 {
        same_before(fs, gs, defs, k - 1);
    }
}

proof fn before_adds_up(fs: Seq<FieldView>, gs: Seq<FieldView>, defs: Defs, k: int)
    requires
        0 <= k <= gs.len(),
    ensures
        leaves_before(fs + gs, defs, fs.len() + k) == leaves_before(fs, defs, fs.len() as int) + leaves_before(
            gs,
            defs,
            k,
        ),
    decreases k,
{
    if k > 0 {
        before_adds_up(fs, gs, defs, k - 1);
        assert((fs + gs)[fs.len() + k - 1] == gs[k - 1]);
    } else {
        same_before(fs, fs + gs, defs, fs.len() as int);
    }
}

/// A name that none of the first `n` fields has is sought past their leaves.
proof fn sought_past(c: Code, cx: Env, fs: Seq<FieldView>, name: Seq<char>, start: usize, n: nat)
    requires
        n <= fs.len() <= usize::MAX,
        forall|i: int| 0 <= i < n ==> (#[trigger] fs[i]).0 != name && lays_out(fs[i].1, cx.defs),
        start + leaves_before(fs, cx.defs, n as int) <= usize::MAX,
    ensures
        find_field_upto(c, cx, fs, name, start, n) == (
            (None::<usize>, (start + leaves_before(fs, cx.defs, n as int)) as usize),
            c,
        ),
    decreases n,
{
    if n > 0 {
        sought_past(c, cx, fs, name, start, (n - 1) as nat);
        assert(fs[n - 1].0 != name);
    }
}

/// A name is found at its first field, past the leaves of those before.
proof fn found_at(c: Code, cx: Env, fs: Seq<FieldView>, name: Seq<char>, start: usize, k: int, n: nat)
    requires
        k < n <= fs.len() <= usize::MAX,
        declared(fs, name, k),
        forall|i: int| 0 <= i < fs.len() ==> lays_out((#[trigger] fs[i]).1, cx.defs),
        start + leaves_before(fs, cx.defs, k) <= usize::MAX,
    ensures
        find_field_upto(c, cx, fs, name, start, n) == (
            (Some(k as usize), (start + leaves_before(fs, cx.defs, k)) as usize),
            c,
        ),
    decreases n,
{
    if n > k + 1 {
        found_at(c, cx, fs, name, start, k, (n - 1) as nat);
    } else {
        sought_past(c, cx, fs, name, start, k as nat);
    }
}

/// A struct's own field.
proof fn a_field_leaves_its_leaves(c: Code, cx: Env, e: Spanned<TypedExpr>)
    requires
        e.item.kind matches TypedExprKind::FieldAccess { target, field, enum_name } && enum_name is None && ({
            let (words, d) = transient_code(c, cx, *target);
            words.len() == leaves_of(target.item.ty@, cx.defs).len()
        }),
        typed(e, cx),
    ensures
        compile_expr_multi_code(c, cx, e).0.len() == leaves_of(e.item.ty@, cx.defs).len(),
{
    assert(compile_expr_multi_code(c, cx, e) == compile_field_access_code(c, cx, e));
    if let TypedExprKind::FieldAccess { target, field, enum_name } = e.item.kind {
        let (words, d) = transient_code(c, cx, *target);
        let t = target.item.ty@;
        let fs = find_struct(cx.defs, t)->0;
        let k = choose|k: int| #[trigger] declared(fs, field@, k) && fs[k].1 == e.item.ty@;
        assert(typed(*target, cx));
        fields_stand_in_order(fs, cx.defs, Seq::empty().push(t));
        leaves_before_grows(fs, cx.defs, k + 1, fs.len() as int);
        found_at(d, cx, fs, field@, 0, k, fs.len());
        assert(field_slice_range_code(d, cx, t, field@).0 == (
            leaves_before(fs, cx.defs, k) as usize,
            leaves_of(e.item.ty@, cx.defs).len() as usize,
        ));
    }
}

/// The fields that a member begins with lie within its leaves.
proof fn within_the_member(members: Seq<Ty>, member: Ty, fs: Seq<FieldView>, defs: Defs, k: int)
    requires
        begins_with(members, member, fs, defs),
        0 <= k < fs.len(),
    ensures
        leaves_before(fs, defs, k) + leaves_of(fs[k].1, defs).len() <= member_tys(member, defs).len(),
{
    let all = find_struct(defs, member)->0;
    fields_stand_in_order(all, defs, Seq::empty().push(member));
    assert forall|i: int| 0 <= i < k + 1 implies fs[i] == all[i] by {
        assert(fs[i] == all.take(fs.len() as int)[i]);
    }
    same_before(fs, all, defs, k + 1);
    leaves_before_grows(all, defs, k + 1, all.len() as int);
}

/// Where a union's field is found: among the common fields, and then among the
/// variant's own.
proof fn a_union_field_is_found(
    c: Code,
    cx: Env,
    name: Seq<char>,
    variant: Seq<char>,
    has_variant: bool,
    field: Seq<char>,
    k: int,
)
    requires
        find_union(cx.unions, name) matches Some(def) && ({
            let own = if has_variant {
                variant_from(def.variants, variant, 0)
            } else {
                Some(Seq::empty())
            };
            own is Some && countable(def.common + own->0, cx.defs) && declared(def.common + own->0, field, k)
        }),
    ensures
        ({
            let def = find_union(cx.unions, name)->0;
            let own = if has_variant {
                variant_from(def.variants, variant, 0)->0
            } else {
                Seq::empty()
            };
            let fs = def.common + own;
            enum_field_leaf_types_code(c, cx, name, variant, has_variant, field).0 == (
                leaves_before(fs, cx.defs, k) as usize,
                field_tys(leaves_of(fs[k].1, cx.defs)),
            )
        }),
{
    let def = find_union(cx.unions, name)->0;
    let own = if has_variant {
        variant_from(def.variants, variant, 0)->0
    } else {
        Seq::empty()
    };
    let fs = def.common + own;
    let m = def.common.len() as int;
    leaves_before_grows(fs, cx.defs, k, fs.len() as int);
    assert forall|i: int| 0 <= i < m implies def.common[i] == fs[i] by {}
    assert forall|i: int| 0 <= i < own.len() implies own[i] == fs[m + i] by {}
    assert forall|i: int| 0 <= i < m implies lays_out((#[trigger] def.common[i]).1, cx.defs) by {
        assert(lays_out(fs[i].1, cx.defs));
    }
    assert forall|i: int| 0 <= i < own.len() implies lays_out((#[trigger] own[i]).1, cx.defs) by {
        assert(lays_out(fs[m + i].1, cx.defs));
    }
    if k < m {
        same_before(def.common, fs, cx.defs, k);
        assert forall|j: int| 0 <= j < k implies (#[trigger] def.common[j]).0 != field by {
            assert(fs[j].0 != field);
        }
        assert(declared(def.common, field, k));
        found_at(c, cx, def.common, field, 0, k, def.common.len());
    } else {
        same_before(def.common, fs, cx.defs, m);
        leaves_before_grows(fs, cx.defs, m, k);
        before_adds_up(def.common, own, cx.defs, k - m);
        assert forall|j: int| 0 <= j < m implies (#[trigger] def.common[j]).0 != field by {
            assert(fs[j].0 != field);
        }
        sought_past(c, cx, def.common, field, 0, def.common.len());
        assert forall|j: int| 0 <= j < k - m implies (#[trigger] own[j]).0 != field by {
            assert(fs[m + j].0 != field);
        }
        assert(declared(own, field, k - m));
        let start = leaves_before(def.common, cx.defs, m) as usize;
        found_at(c, cx, own, field, start, k - m, own.len());
    }
}

proof fn a_common_field_leaves_its_leaves(c: Code, cx: Env, e: Spanned<TypedExpr>)
    requires
        e.item.kind matches TypedExprKind::FieldAccess { target, field, enum_name } && enum_name is Some,
        typed(e, cx),
    ensures
        compile_expr_multi_code(c, cx, e).0.len() == leaves_of(e.item.ty@, cx.defs).len(),
{
    assert(compile_expr_multi_code(c, cx, e) == compile_field_access_code(c, cx, e));
    if let TypedExprKind::FieldAccess { target, field, enum_name } = e.item.kind {
        let name = enum_name->0;
        let def = find_union(cx.unions, name@)->0;
        let fs = def.common;
        let k = choose|k: int| #[trigger] declared(fs, field@, k) && fs[k].1 == e.item.ty@;
        assert(fs + Seq::<FieldView>::empty() =~= fs);
        a_union_field_is_found(c, cx, name@, ""@, false, field@, k);
        let (found, d) = enum_field_leaf_types_code(c, cx, name@, ""@, false, field@);
        let (slots, d) = transient_code(d, cx, *target);
        member_or_box(d, cx, target.item.ty@, None, fs, slots, k);
    }
}

proof fn a_variant_field_leaves_its_leaves(c: Code, cx: Env, e: Spanned<TypedExpr>)
    requires
        e.item.kind is VariantField,
        typed(e, cx),
    ensures
        compile_expr_multi_code(c, cx, e).0.len() == leaves_of(e.item.ty@, cx.defs).len(),
{
    assert(compile_expr_multi_code(c, cx, e) == compile_variant_field_code(c, cx, e));
    if let TypedExprKind::VariantField { target, enum_name, variant, field } = e.item.kind {
        let def = find_union(cx.unions, enum_name@)->0;
        let own = variant_from(def.variants, variant@, 0)->0;
        let fs = def.common + own;
        let k = choose|k: int| #[trigger] declared(fs, field@, k) && fs[k].1 == e.item.ty@;
        a_union_field_is_found(c, cx, enum_name@, variant@, true, field@, k);
        let (found, d) = enum_field_leaf_types_code(c, cx, enum_name@, variant@, true, field@);
        let (slots, d) = transient_code(d, cx, *target);
        let member = variant_struct(enum_name@, variant@);
        member_or_box(d, cx, target.item.ty@, Some(member), fs, slots, k);
    }
}

/// A field that was found is read as its leaves, from an inline union or from
/// the box that holds the variant.
proof fn member_or_box(
    c: Code,
    cx: Env,
    target: Ty,
    member: Option<Ty>,
    fs: Seq<FieldView>,
    slots: Seq<usize>,
    k: int,
)
    requires
        countable(fs, cx.defs),
        0 <= k < fs.len(),
        leaves_of(fs[k].1, cx.defs).len() <= usize::MAX,
        target matches Ty::Union(members) ==> unboxed(members, cx.defs) ==> match member {
            Some(m) => begins_with(members, m, fs, cx.defs),
            None => members.len() > 0 && begins_with(members, members[0], fs, cx.defs),
        },
    ensures
        ({
            let tys = field_tys(leaves_of(fs[k].1, cx.defs));
            let at = leaves_before(fs, cx.defs, k) as usize;
            match member {
                Some(m) => own_field_code(c, cx, target, m, slots, at, tys).0.len() == tys.len(),
                None => common_field_code(c, cx, target, slots, at, tys).0.len() == tys.len(),
            }
        }),
{
    let tys = field_tys(leaves_of(fs[k].1, cx.defs));
    leaves_before_grows(fs, cx.defs, k, fs.len() as int);
    if inline_union(target, cx.defs) {
        let members = target->Union_0;
        let m = match member {
            Some(m) => m,
            None => members[0],
        };
        unpacked_into_its_leaves(c, cx, members, m, slots);
        within_the_member(members, m, fs, cx.defs, k);
    } else {
        assert forall|d: Code, ptr: usize, offset: usize, tys: Seq<Ty>, n: nat| #[trigger]
            read_slots_upto(d, ptr, offset, tys, n).0.len() == n by {
            one_for_each_slot(d, ptr, offset, tys, n);
        }
    }
}

// ── The law ──────────────────────────────────────────────────────────────

proof fn fields_leave_their_leaves(
    c: Code,
    cx: Env,
    values: Seq<(String, TypedExprRef)>,
    fs: Seq<FieldView>,
    n: nat,
)
    requires
        n <= values.len() == fs.len(),
        fields_typed(values, fs, cx, n),
    ensures
        lower_struct_upto(c, cx, values, n).0.len() == leaves_before(fs, cx.defs, n as int),
    decreases values, 0int, n,
{
    if n > 0 {
        fields_leave_their_leaves(c, cx, values, fs, (n - 1) as nat);
        let (out, d) = lower_struct_upto(c, cx, values, (n - 1) as nat);
        as_many_words_as_leaves(d, cx, *values[n - 1].1);
    }
}

/// Every expression is lowered to as many words as its type has leaves: an
/// expression that has the type of its kind, does return, and is no assignment.
pub proof fn as_many_words_as_leaves(c: Code, cx: Env, e: Spanned<TypedExpr>)
    requires
        typed(e, cx),
    ensures
        compile_expr_multi_code(c, cx, e).0.len() == leaves_of(e.item.ty@, cx.defs).len(),
    decreases e, 5int, 0nat,
{
    let ty = e.item.ty@;
    match e.item.kind {
        TypedExprKind::Var(_) => {
            a_variable_leaves_its_leaves(c, cx, e);
        },
        TypedExprKind::Index { target: _, index: _ } => {
            an_element_leaves_its_leaves(c, cx, e);
        },
        TypedExprKind::Conditional { cond: _, true_branch: _, false_branch: _ } => {
            a_conditional_leaves_its_leaves(c, cx, e);
        },
        TypedExprKind::Range { start: _, end: _ } => {
            two_bounds_are_left(c, cx, e);
        },
        TypedExprKind::Call { callable: _, args: _ } => {
            a_call_leaves_its_leaves(c, cx, e);
        },
        TypedExprKind::Block(stmts) => {
            a_block_leaves_its_leaves(c, cx, e, stmts@);
        },
        TypedExprKind::StructInit { name: _, fields } => {
            a_struct_leaves_its_leaves(c, cx, e, fields@);
        },
        TypedExprKind::FieldAccess { target, field: _, enum_name } => {
            if enum_name is None {
                a_part_leaves_its_leaves(c, cx, e, *target);
            } else {
                a_common_field_leaves_its_leaves(c, cx, e);
            }
        },
        TypedExprKind::VariantField { target: _, enum_name: _, variant: _, field: _ } => {
            a_variant_field_leaves_its_leaves(c, cx, e);
        },
        TypedExprKind::VariantInit { enum_name: _, variant: _, tag: _, fields: _ } => {
            a_variant_leaves_its_leaves(c, cx, e);
        },
        TypedExprKind::Widen { value: _, tag: _ } => {
            a_changed_value_leaves_its_leaves(c, cx, e);
        },
        TypedExprKind::Narrow { value: _, tag: _ } => {
            a_changed_value_leaves_its_leaves(c, cx, e);
        },
        _ => {
            one_word_is_left(c, cx, e);
        },
    }
}

/// A value that becomes a union, or comes out of one.
proof fn a_changed_value_leaves_its_leaves(c: Code, cx: Env, e: Spanned<TypedExpr>)
    requires
        e.item.kind is Widen || e.item.kind is Narrow,
        typed(e, cx),
    ensures
        compile_expr_multi_code(c, cx, e).0.len() == leaves_of(e.item.ty@, cx.defs).len(),
{
    let ty = e.item.ty@;
    match e.item.kind {
        TypedExprKind::Widen { value, tag } => {
            a_widened_value_leaves_its_leaves(c, cx, ty, *value, tag);
            assert(compile_expr_multi_code(c, cx, e) == compile_widen_code(c, cx, ty, *value, tag));
        },
        TypedExprKind::Narrow { value, tag: _ } => {
            a_narrowed_value_leaves_its_leaves(c, cx, ty, *value);
            assert(compile_expr_multi_code(c, cx, e) == compile_narrow_code(c, cx, ty, *value));
        },
        _ => {},
    }
}

proof fn a_variable_leaves_its_leaves(c: Code, cx: Env, e: Spanned<TypedExpr>)
    requires
        e.item.kind is Var,
        lays_out(e.item.ty@, cx.defs),
    ensures
        compile_expr_multi_code(c, cx, e).0.len() == leaves_of(e.item.ty@, cx.defs).len(),
        transient_code(c, cx, e).0.len() == leaves_of(e.item.ty@, cx.defs).len(),
{
    if let TypedExprKind::Var(name) = e.item.kind {
        let ls = leaves_of(e.item.ty@, cx.defs);
        one_for_each_variable(c, name@, ls, ls.len());
    }
}

/// A field of a struct, whatever the struct comes from.
proof fn a_part_leaves_its_leaves(c: Code, cx: Env, e: Spanned<TypedExpr>, target: Spanned<TypedExpr>)
    requires
        e.item.kind matches TypedExprKind::FieldAccess { target: t, field, enum_name } && *t == target && enum_name is None,
        typed(e, cx),
    ensures
        compile_expr_multi_code(c, cx, e).0.len() == leaves_of(e.item.ty@, cx.defs).len(),
    decreases e, 4int, 0nat,
{
    assert(typed(target, cx));
    if target.item.kind is Var {
        a_variable_leaves_its_leaves(c, cx, target);
    } else {
        as_many_words_as_leaves(c, cx, target);
        assert(transient_code(c, cx, target) == compile_expr_multi_code(c, cx, target));
    }
    a_field_leaves_its_leaves(c, cx, e);
}

proof fn a_struct_leaves_its_leaves(
    c: Code,
    cx: Env,
    e: Spanned<TypedExpr>,
    values: Seq<(String, TypedExprRef)>,
)
    requires
        e.item.kind matches TypedExprKind::StructInit { name, fields } && fields@ == values,
        typed(e, cx),
    ensures
        compile_expr_multi_code(c, cx, e).0.len() == leaves_of(e.item.ty@, cx.defs).len(),
    decreases e, 4int, 0nat,
{
    let ty = e.item.ty@;
    let fs = find_struct(cx.defs, ty)->0;
    fields_leave_their_leaves(c, cx, values, fs, values.len());
    fields_stand_in_order(fs, cx.defs, Seq::empty().push(ty));
    assert(compile_expr_multi_code(c, cx, e) == lower_struct_code(c, cx, values));
}

proof fn a_block_leaves_its_leaves(c: Code, cx: Env, e: Spanned<TypedExpr>, stmts: Seq<Spanned<TypedExpr>>)
    requires
        e.item.kind matches TypedExprKind::Block(b) && b@ == stmts,
        typed(e, cx),
    ensures
        compile_expr_multi_code(c, cx, e).0.len() == leaves_of(e.item.ty@, cx.defs).len(),
    decreases e, 4int, 0nat,
{
    let (init, d) = zero_word_code(c);
    assert(lower_stmts_code(d, cx, stmts, init) == lower_stmts_upto(d, cx, stmts, init, stmts.len()));
    if stmts.len() > 0 {
        let (last, f) = lower_stmts_upto(d, cx, stmts, init, (stmts.len() - 1) as nat);
        as_many_words_as_leaves(f, cx, stmts[stmts.len() - 1]);
    }
}

/// Whether the expression never returns, as its type says: a `return`, a
/// conditional or a call of that type, or a block that ends in such.
pub open spec fn never_returns(e: Spanned<TypedExpr>, cx: Env) -> bool
    decreases e,
{
    e.item.ty@ is Never && match e.item.kind {
        TypedExprKind::Return(_) => true,
        TypedExprKind::Conditional { cond: _, true_branch: _, false_branch: _ } => true,
        TypedExprKind::Call { callable, args: _ } => match callable.item.kind {
            TypedExprKind::Var(name) => {
                &&& name@ != "push"@
                &&& !builtin(name@)
                &&& !cx.hosts.contains(name@)
                &&& result_of(callable.item.ty@) is Never
            },
            _ => false,
        },
        TypedExprKind::Block(stmts) => stmts@.len() > 0 && never_returns(stmts@[stmts@.len() - 1], cx),
        _ => false,
    }
}

/// What never returns is lowered to no words.
pub proof fn no_words_where_nothing_returns(c: Code, cx: Env, e: Spanned<TypedExpr>)
    requires
        never_returns(e, cx),
    ensures
        compile_expr_multi_code(c, cx, e).0.len() == 0,
    decreases e,
{
    match e.item.kind {
        TypedExprKind::Return(value) => {
            assert(compile_expr_multi_code(c, cx, e) == compile_return_code(c, cx, value));
        },
        TypedExprKind::Conditional { cond: _, true_branch: _, false_branch: _ } => {
            assert(compile_expr_multi_code(c, cx, e) == compile_conditional_code(c, cx, e));
        },
        TypedExprKind::Call { callable, args } => {
            assert(compile_expr_multi_code(c, cx, e) == compile_call_code(c, cx, e));
            if let TypedExprKind::Var(name) = callable.item.kind {
                assert(user_call_code(c, cx, name@, callable.item.ty@, args@).0.len() == 0);
            }
        },
        TypedExprKind::Block(stmts) => {
            let (init, d) = zero_word_code(c);
            assert(lower_stmts_code(d, cx, stmts@, init) == lower_stmts_upto(d, cx, stmts@, init, stmts@.len()));
            let (last, f) = lower_stmts_upto(d, cx, stmts@, init, (stmts@.len() - 1) as nat);
            no_words_where_nothing_returns(f, cx, stmts@[stmts@.len() - 1]);
        },
        _ => {},
    }
}

} // verus!
