//! What the code of an index does: it asks the runtime for the item of the list
//! under that number.
use crate::emit::{declare_gc_leaves_upto, mark_shared_leaves_upto};
use crate::ir::{emit_code, find_name, find_var, ClType, Code, Env, Op};
use crate::layout::leaves_of;
use crate::lower::{
    compile_expr_code, compile_expr_multi_code, compile_index_code, index_words_upto, read_vars_upto,
    transient_one_code,
};
use crate::machine::{here, on_to, one_further, reaches, Called, Machine, Outside};
use crate::meaning::{extends, means, plain, Names};
use crate::running::{held, lowered_code_computes, ready, within, within_before};
use crate::shapes::plain_leaves_one;
use crate::tokens::Spanned;
use crate::typed_ast::{TypedExpr, TypedExprKind};
use crate::types::Ty;
use vstd::prelude::*;

verus! {

/// Whether `e` takes an item out of the list of whole numbers that the name
/// `list` holds, under the number that `index` comes to.
pub open spec fn indexes(e: Spanned<TypedExpr>, list: Seq<char>, index: Spanned<TypedExpr>) -> bool {
    e.item.ty@ is Int && (e.item.kind matches TypedExprKind::Index { target, index: i } && {
        &&& target.item.ty@.is_list()
        &&& target.item.kind matches TypedExprKind::Var(name) && name@ == list
        &&& *i == index
        &&& plain(index)
    })
}

/// The code that asks for the item, after the index was computed.
pub open spec fn asked_code(d: Code, list: usize, idx: usize, get: usize) -> Code {
    let n = d.ops.len() as usize;
    let c = emit_code(d, Op::Iconst { ty: ClType::I64, imm: 0 });
    let c = emit_code(emit_code(c, Op::Arg { val: list }), Op::Arg { val: idx });
    let c = emit_code(c, Op::Arg { val: n });
    emit_code(emit_code(c, Op::Call { func: get }), Op::Result { index: 0 })
}

proof fn an_index_is(
    c: Code,
    cx: Env,
    e: Spanned<TypedExpr>,
    name: Seq<char>,
    index: Spanned<TypedExpr>,
    v: usize,
    get: usize,
)
    requires
        indexes(e, name, index),
        find_var(c.vars, name) == Some(v),
        find_name(cx.funcs, "frog_list_get"@) == Some(get),
        compile_expr_multi_code(emit_code(c, Op::UseVar { var: v }), cx, index).0.len() == 1,
    ensures
        ({
            let (q, d) = compile_expr_multi_code(emit_code(c, Op::UseVar { var: v }), cx, index);
            let f = asked_code(d, c.ops.len() as usize, q[0], get);
            compile_expr_multi_code(c, cx, e) == (seq![(d.ops.len() + 5) as usize], f)
        }),
{
    if let TypedExprKind::Index { target, index: i } = e.item.kind {
        let c1 = emit_code(c, Op::UseVar { var: v });
        let (q, d) = compile_expr_multi_code(c1, cx, index);
        let one = leaves_of(Ty::Int, cx.defs);
        reveal_with_fuel(read_vars_upto, 2);
        reveal_with_fuel(index_words_upto, 2);
        reveal_with_fuel(declare_gc_leaves_upto, 2);
        reveal_with_fuel(mark_shared_leaves_upto, 2);
        assert(leaves_of(target.item.ty@, cx.defs).len() == 1 && one.len() == 1);
        assert(transient_one_code(c, cx, *target) == (c.ops.len() as usize, c1));
        assert(compile_expr_code(c1, cx, index) == (q[0], d));
        assert(compile_index_code(c, cx, e).0 =~= seq![(d.ops.len() + 5) as usize]);
        assert(compile_expr_multi_code(c, cx, e) == compile_index_code(c, cx, e));
    }
}

/// An index reads the list, then computes the number, then asks the runtime
/// once, for the first word of that list's item under that number, and leaves
/// what it answers.
pub proof fn an_index_asks_for_its_item(
    c: Code,
    cx: Env,
    e: Spanned<TypedExpr>,
    name: Seq<char>,
    index: Spanned<TypedExpr>,
    env: Names,
    fin: Code,
    ops: Seq<Op>,
    o: Outside,
    m: Machine,
) -> (k: Machine)
    requires
        indexes(e, name, index),
        find_var(c.vars, name) is Some,
        find_name(cx.funcs, "frog_list_get"@) is Some,
        means(index, env) is Some,
        within(compile_expr_multi_code(c, cx, e).1, fin, ops),
        ready(c, m),
        held(env, fin, m),
    ensures
        ({
            let (w, d) = compile_expr_multi_code(c, cx, e);
            let (at, after) = means(index, env)->0;
            let list = m.vars[find_var(c.vars, name)->0];
            let call = Called { func: find_name(cx.funcs, "frog_list_get"@)->0, args: seq![list, at.word(), 0i64] };
            &&& reaches(ops, o, m, k)
            &&& ready(d, k)
            &&& k.calls == m.calls.push(call)
            &&& k.mem == (o.leaves)(k.calls, m.mem)
            &&& w.len() == 1
            &&& k.val(w[0]) == (o.answers)(k.calls)[0]
            &&& held(after, fin, k)
        }),
{
    let v = find_var(c.vars, name)->0;
    let get = find_name(cx.funcs, "frog_list_get"@)->0;
    let n = c.ops.len() as int;
    let c1 = emit_code(c, Op::UseVar { var: v });
    plain_leaves_one(c1, cx, index);
    let (q, d) = compile_expr_multi_code(c1, cx, index);
    an_index_is(c, cx, e, name, index, v, get);
    let f = asked_code(d, n as usize, q[0], get);
    assert(extends(d, f));
    within_before(f, f, fin, ops);
    within_before(d, f, fin, ops);
    assert(extends(c1, d));
    within_before(c1, d, fin, ops);
    within_before(c1, c1, fin, ops);
    assert(ops[n] == c1.ops[n]);
    here(ops, o, m);
    let m1 = one_further(ops, o, m, m);
    let m2 = lowered_code_computes(c1, cx, index, env, fin, ops, o, m1);
    on_to(ops, o, m, m1, m2);
    let x = d.ops.len() as int;
    assert(f.ops.len() == x + 6);
    assert forall|y: int| x <= y < x + 6 implies #[trigger] ops[y] == f.ops[y] by {}
    let (at, _) = means(index, env)->0;
    assert(m2.vals[n] == m1.vals[n]);
    let m3 = one_further(ops, o, m, m2);
    let m4 = one_further(ops, o, m, m3);
    let m5 = one_further(ops, o, m, m4);
    let m6 = one_further(ops, o, m, m5);
    assert(m6.args =~= seq![m.vars[v], at.word(), 0i64]);
    let m7 = one_further(ops, o, m, m6);
    one_further(ops, o, m, m7)
}

} // verus!
