//! That a write through one name never shows through another: what is read
//! again later is marked as shared, and what is shared is copied before it is
//! written to.
use crate::barrier::{behind, shared, starts_with, the_barrier_copies_what_is_shared};
use crate::emit::{mark_shared_leaves_upto, unshare_code};
use crate::ir::{emit_code, find_name, find_var, ClType, Code, Env, Field, Op};
use crate::layout::leaves_of;
use crate::lower::{
    compile_expr_code, compile_expr_multi_code, compile_place_assign_code, final_step_code, last_of, next_of,
    place_ref_code, read_vars_upto, run_of, store_slot_words_upto, walk_path_upto, PlaceView,
};
use crate::machine::{here, on_to, one_further, reaches, Called, Machine, Outside};
use crate::meaning::{extends, means, plain, starts, tidy, Names};
use crate::running::{held, lowered_code_computes, ready, within, within_before};
use crate::shapes::plain_leaves_one;
use crate::tokens::Spanned;
use crate::typed_ast::{PlaceSeg, TypedExpr, TypedExprKind};
use crate::types::Ty;
use vstd::prelude::*;

verus! {

// ── Reading a list ───────────────────────────────────────────────────────

proof fn a_list_name_is(c: Code, cx: Env, e: Spanned<TypedExpr>, v: usize)
    requires
        e.item.ty@.is_list(),
        e.item.kind matches TypedExprKind::Var(name) && find_var(c.vars, name@) == Some(v),
    ensures
        ({
            let at = c.ops.len() as usize;
            let d = emit_code(c, Op::UseVar { var: v });
            compile_expr_multi_code(c, cx, e) == (
                seq![at],
                if cx.marks.last.contains(e.item.id) {
                    d
                } else {
                    let mark = (c.ops.len() + 1) as usize;
                    emit_code(
                        emit_code(d, Op::Iconst { ty: ClType::I8, imm: 1 }),
                        Op::Store { val: mark, base: at, at: Field::Shared },
                    )
                },
            )
        }),
{
    let ls = leaves_of(e.item.ty@, cx.defs);
    reveal_with_fuel(read_vars_upto, 2);
    reveal_with_fuel(mark_shared_leaves_upto, 2);
    assert(ls.len() == 1);
    assert(compile_expr_multi_code(c, cx, e).0 =~= seq![c.ops.len() as usize]);
}

/// Reading a name that holds a list gives the list, and marks it as shared
/// unless this is the last time that the name is read; a last read marks
/// nothing.
pub proof fn what_is_read_again_is_shared(
    c: Code,
    cx: Env,
    e: Spanned<TypedExpr>,
    v: usize,
    ops: Seq<Op>,
    o: Outside,
    m: Machine,
) -> (k: Machine)
    requires
        e.item.ty@.is_list(),
        e.item.kind matches TypedExprKind::Var(name) && find_var(c.vars, name@) == Some(v),
        behind(c, m),
        starts_with(ops, compile_expr_multi_code(c, cx, e).1),
        compile_expr_multi_code(c, cx, e).1.ops.len() <= usize::MAX,
    ensures
        ({
            let (w, d) = compile_expr_multi_code(c, cx, e);
            &&& reaches(ops, o, m, k)
            &&& behind(d, k)
            &&& w.len() == 1
            &&& k.val(w[0]) == m.vars[v]
            &&& cx.marks.last.contains(e.item.id) ==> k.mem == m.mem
            &&& !cx.marks.last.contains(e.item.id) ==> shared(k, w[0]) && k.mem == m.mem.insert(
                (m.vars[v], Field::Shared),
                1,
            )
            &&& k.vars == m.vars
            &&& k.calls == m.calls
        }),
{
    let n = c.ops.len() as int;
    let (w, d) = compile_expr_multi_code(c, cx, e);
    a_list_name_is(c, cx, e, v);
    assert(ops[n] == d.ops[n]);
    here(ops, o, m);
    let m1 = one_further(ops, o, m, m);
    if cx.marks.last.contains(e.item.id) {
        m1
    } else {
        assert(ops[n + 1] == d.ops[n + 1]);
        assert(ops[n + 2] == d.ops[n + 2]);
        let m2 = one_further(ops, o, m, m1);
        one_further(ops, o, m, m2)
    }
}

// ── Writing to a list ────────────────────────────────────────────────────

/// `c` with the list that the variable holds made its own.
pub open spec fn owned_code(c: Code, cx: Env, v: usize) -> Code {
    let (own, d) = unshare_code(emit_code(c, Op::UseVar { var: v }), cx, c.ops.len() as usize, 1);
    emit_code(d, Op::DefVar { var: v, val: own })
}

/// Where the word of the list is then.
pub open spec fn owned_at(c: Code, cx: Env, v: usize) -> usize {
    unshare_code(emit_code(c, Op::UseVar { var: v }), cx, c.ops.len() as usize, 1).0
}

/// The end of a write: the word at `val` set as element `idx` of `list`.
pub open spec fn stored_code(d: Code, set: usize, list: usize, idx: usize, val: usize) -> Code {
    let off = d.ops.len() as usize;
    let c = emit_code(d, Op::Iconst { ty: ClType::I64, imm: 0 });
    let c = emit_code(emit_code(c, Op::Arg { val: list }), Op::Arg { val: idx });
    let c = emit_code(emit_code(c, Op::Arg { val: off }), Op::Arg { val });
    emit_code(emit_code(c, Op::Call { func: set }), Op::Iconst { ty: ClType::I64, imm: 0 })
}

/// Whether the expression is `name[index] = value`, a whole number to an element
/// of a list of such.
pub open spec fn writes_element(e: Spanned<TypedExpr>) -> bool {
    e.item.kind matches TypedExprKind::PlaceAssign { place, value } && {
        &&& place.path@.len() == 1
        &&& place.path@[0] matches PlaceSeg::Index { index, elem_ty } && plain(*index)
        &&& plain(*value)
        &&& value.item.ty@ is Int
    }
}

/// The index of such a write, and its value.
pub open spec fn index_of(e: Spanned<TypedExpr>) -> Spanned<TypedExpr> {
    match e.item.kind {
        TypedExprKind::PlaceAssign { place, value: _ } => match place.path@[0] {
            PlaceSeg::Index { index, elem_ty: _ } => *index,
            _ => e,
        },
        _ => e,
    }
}

pub open spec fn value_of(e: Spanned<TypedExpr>) -> Spanned<TypedExpr> {
    match e.item.kind {
        TypedExprKind::PlaceAssign { place: _, value } => *value,
        _ => e,
    }
}

pub open spec fn root_of(e: Spanned<TypedExpr>) -> Seq<char> {
    match e.item.kind {
        TypedExprKind::PlaceAssign { place, value: _ } => place.root@,
        _ => Seq::empty(),
    }
}

proof fn a_write_is(c: Code, cx: Env, e: Spanned<TypedExpr>, v: usize)
    requires
        writes_element(e),
        find_var(c.vars, root_of(e)) == Some(v),
        find_name(cx.funcs, "frog_list_set"@) is Some,
        compile_expr_multi_code(owned_code(c, cx, v), cx, index_of(e)).0.len() == 1,
        ({
            let (_, d) = compile_expr_multi_code(owned_code(c, cx, v), cx, index_of(e));
            compile_expr_multi_code(d, cx, value_of(e)).0.len() == 1
        }),
    ensures
        ({
            let (i, d) = compile_expr_multi_code(owned_code(c, cx, v), cx, index_of(e));
            let (w, f) = compile_expr_multi_code(d, cx, value_of(e));
            let set = find_name(cx.funcs, "frog_list_set"@)->0;
            compile_expr_multi_code(c, cx, e).1 == stored_code(f, set, owned_at(c, cx, v), i[0], w[0])
        }),
{
    if let TypedExprKind::PlaceAssign { place, value } = e.item.kind {
        let path = place.path@;
        let b = owned_code(c, cx, v);
        let (i, d) = compile_expr_multi_code(b, cx, index_of(e));
        let (w, f) = compile_expr_multi_code(d, cx, value_of(e));
        let own = owned_at(c, cx, v);
        assert(last_of(path) == Some(0usize));
        assert(next_of(path, 0) == 0);
        assert(run_of(path, 0, 0) =~= Seq::empty());
        assert(run_of(path, 1, 1) =~= Seq::empty());
        assert(compile_expr_code(b, cx, index_of(e)) == (i[0], d));
        assert(walk_path_upto(b, cx, path, own, 0, 0) == (own, b));
        assert(final_step_code(b, cx, path, own, 0) == (PlaceView::Slot(own, i[0], 0), d));
        assert(place_ref_code(c, cx, place) == (PlaceView::Slot(own, i[0], 0), d));
        let ls = leaves_of(Ty::Int, cx.defs);
        assert(ls.len() == 1);
        reveal_with_fuel(store_slot_words_upto, 2);
        assert(compile_place_assign_code(c, cx, e).1 == stored_code(
            f,
            find_name(cx.funcs, "frog_list_set"@)->0,
            own,
            i[0],
            w[0],
        ));
        assert(compile_expr_multi_code(c, cx, e) == compile_place_assign_code(c, cx, e));
    }
}

/// Making a list its own runs: the variable then holds what the barrier left.
proof fn making_it_own_runs(
    c: Code,
    cx: Env,
    v: usize,
    ops: Seq<Op>,
    o: Outside,
    m: Machine,
) -> (k: Machine)
    requires
        !cx.verify,
        find_name(cx.funcs, "frog_clone"@) is Some,
        ready(c, m),
        starts(ops, owned_code(c, cx, v).ops),
        owned_code(c, cx, v).ops.len() <= usize::MAX,
    ensures
        reaches(ops, o, m, k),
        ready(owned_code(c, cx, v), k),
        owned_at(c, cx, v) < owned_code(c, cx, v).ops.len(),
        k.vars == m.vars.insert(v, k.val(owned_at(c, cx, v))),
        ({
            let obj = m.vars[v];
            let own = k.val(owned_at(c, cx, v));
            let copy = Called { func: find_name(cx.funcs, "frog_clone"@)->0, args: seq![obj] };
            if m.mem[(obj, Field::Shared)] != 0 {
                k.calls == m.calls.push(copy) && own == (o.answers)(k.calls)[0]
            } else {
                k.calls == m.calls && own == obj && k.mem == m.mem
            }
        }),
{
    let n = c.ops.len() as int;
    let c1 = emit_code(c, Op::UseVar { var: v });
    let (own, d) = unshare_code(c1, cx, n as usize, 1);
    let f = owned_code(c, cx, v);
    assert(d.ops.len() == n + 22);
    assert forall|i: int| 0 <= i < d.ops.len() implies #[trigger] ops[i] == d.ops[i] by {
        assert(f.ops[i] == d.ops[i]);
    }
    assert(d.ops[n] == (Op::UseVar { var: v }));
    assert(ops[n] == d.ops[n]);
    here(ops, o, m);
    let m1 = one_further(ops, o, m, m);
    let m2 = the_barrier_copies_what_is_shared(c1, cx, n as usize, 1, ops, o, m1);
    on_to(ops, o, m, m1, m2);
    assert(ops[n + 22] == f.ops[n + 22]);
    one_further(ops, o, m, m2)
}

/// The end of a write runs: the list, the index, zero and the value are handed
/// over.
proof fn storing_runs(
    d: Code,
    set: usize,
    list: usize,
    idx: usize,
    val: usize,
    ops: Seq<Op>,
    o: Outside,
    m: Machine,
) -> (k: Machine)
    requires
        ready(d, m),
        list < d.ops.len(),
        idx < d.ops.len(),
        val < d.ops.len(),
        starts(ops, stored_code(d, set, list, idx, val).ops),
        stored_code(d, set, list, idx, val).ops.len() <= usize::MAX,
    ensures
        reaches(ops, o, m, k),
        ready(stored_code(d, set, list, idx, val), k),
        k.vars == m.vars,
        k.calls == m.calls.push(Called { func: set, args: seq![m.val(list), m.val(idx), 0, m.val(val)] }),
{
    let n = d.ops.len() as int;
    let g = stored_code(d, set, list, idx, val);
    assert(ops[n] == g.ops[n] && ops[n + 1] == g.ops[n + 1] && ops[n + 2] == g.ops[n + 2] && ops[n + 3] == g.ops[n + 3]);
    assert(ops[n + 4] == g.ops[n + 4] && ops[n + 5] == g.ops[n + 5] && ops[n + 6] == g.ops[n + 6]);
    here(ops, o, m);
    let k3 = one_further(ops, o, m, m);
    let k4 = one_further(ops, o, m, k3);
    let k5 = one_further(ops, o, m, k4);
    let k6 = one_further(ops, o, m, k5);
    let k7 = one_further(ops, o, m, k6);
    assert(k7.args =~= seq![m.val(list), m.val(idx), 0, m.val(val)]);
    let k8 = one_further(ops, o, m, k7);
    one_further(ops, o, m, k8)
}

/// What other names hold does not change with the variable of a list.
proof fn others_held(env: Names, fin: Code, root: Seq<char>, v: usize, word: i64, m: Machine, k: Machine)
    requires
        held(env, fin, m),
        tidy(fin),
        find_var(fin.vars, root) == Some(v),
        !env.contains_key(root),
        k.vars == m.vars.insert(v, word),
    ensures
        held(env, fin, k),
{
    assert forall|a: Seq<char>| #[trigger] env.contains_key(a) implies (find_var(fin.vars, a) matches Some(y)
        && k.vars[y] == env[a].word()) by {
        assert(a != root);
        assert(find_var(fin.vars, a) != find_var(fin.vars, root));
    }
}

/// `name[index] = value` writes to a list that only this name holds: where the
/// list that the name held was shared, it is first copied, the name holds the
/// copy from then on, and the copy is written to; otherwise the list itself is.
/// No other call is made, so nothing else is written to.
pub proof fn a_write_goes_to_a_list_of_its_own(
    c: Code,
    cx: Env,
    e: Spanned<TypedExpr>,
    v: usize,
    env: Names,
    fin: Code,
    ops: Seq<Op>,
    o: Outside,
    m: Machine,
) -> (r: (Machine, Machine))
    requires
        writes_element(e),
        !cx.verify,
        find_name(cx.funcs, "frog_clone"@) is Some,
        find_name(cx.funcs, "frog_list_set"@) is Some,
        find_var(c.vars, root_of(e)) == Some(v),
        within(compile_expr_multi_code(c, cx, e).1, fin, ops),
        ready(c, m),
        held(env, fin, m),
        !env.contains_key(root_of(e)),
        means(index_of(e), env) matches Some((i, env1)) && i is Num && (means(value_of(e), env1) matches Some((x, env2))
            && x is Num),
    ensures
        ({
            let (own, k) = r;
            let obj = m.vars[v];
            let word = own.vars[v];
            let copy = Called { func: find_name(cx.funcs, "frog_clone"@)->0, args: seq![obj] };
            let (i, env1) = means(index_of(e), env)->0;
            let (x, env2) = means(value_of(e), env1)->0;
            let write = Called {
                func: find_name(cx.funcs, "frog_list_set"@)->0,
                args: seq![word, i.word(), 0, x.word()],
            };
            &&& reaches(ops, o, m, own)
            &&& own.vars == m.vars.insert(v, word)
            &&& if m.mem[(obj, Field::Shared)] != 0 {
                own.calls == m.calls.push(copy) && word == (o.answers)(own.calls)[0]
            } else {
                own.calls == m.calls && word == obj && own.mem == m.mem
            }
            &&& reaches(ops, o, m, k)
            &&& ready(compile_expr_multi_code(c, cx, e).1, k)
            &&& k.calls == own.calls.push(write)
            &&& held(env2, fin, k)
        }),
{
    let b = owned_code(c, cx, v);
    let at = owned_at(c, cx, v);
    plain_leaves_one(b, cx, index_of(e));
    let (i, d) = compile_expr_multi_code(b, cx, index_of(e));
    plain_leaves_one(d, cx, value_of(e));
    let (w, f) = compile_expr_multi_code(d, cx, value_of(e));
    a_write_is(c, cx, e, v);
    let set = find_name(cx.funcs, "frog_list_set"@)->0;
    let g = stored_code(f, set, at, i[0], w[0]);
    assert(extends(f, g));
    within_before(f, g, fin, ops);
    within_before(d, f, fin, ops);
    within_before(b, d, fin, ops);
    within_before(b, b, fin, ops);
    let own = making_it_own_runs(c, cx, v, ops, o, m);
    assert(extends(c, b));
    within_before(c, b, fin, ops);
    others_held(env, fin, root_of(e), v, own.val(at), m, own);
    let (iv, env1) = means(index_of(e), env)->0;
    let k1 = lowered_code_computes(b, cx, index_of(e), env, fin, ops, o, own);
    on_to(ops, o, m, own, k1);
    let (xv, env2) = means(value_of(e), env1)->0;
    let k2 = lowered_code_computes(d, cx, value_of(e), env1, fin, ops, o, k1);
    on_to(ops, o, m, k1, k2);
    assert(k2.val(i[0]) == iv.word());
    assert(k2.val(at) == own.val(at));
    within_before(g, g, fin, ops);
    let k3 = storing_runs(f, set, at, i[0], w[0], ops, o, k2);
    on_to(ops, o, m, k2, k3);
    (own, k3)
}

} // verus!
