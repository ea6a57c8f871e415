//! What the code of a loop over a list does: the body is run once for each item,
//! in order.
use crate::emit::{
    declare_gc_leaves_code, declare_gc_leaves_upto, list_slot_addr_code, list_stride_code, mark_shared_extracted_code,
    mark_shared_leaves_upto,
};
use crate::ir::{
    emit_code, find_name, find_var, leaves_code, put_code, BinOp, ClType, Code, Conv, Env, Field, Op, Test,
};
use crate::layout::leaves_of;
use crate::lower::{
    bind_vars_code, bind_vars_upto, compile_expr_multi_code, compile_for_loop_code, load_words_at_code,
    load_words_at_upto, loop_body_code, loop_guard_code, read_vars_upto, transient_one_code, LoopOutput,
};
use crate::machine::{begins_at, enters, here, on_to, one_further, reaches, Called, Machine, Outside};
use crate::meaning::{extends, grows, grows_on, means, plain, set_code, setting_grows, starts, Names, Val};
use crate::running::{a_jump_runs, begins, held, lowered_code_computes, ready, setting_runs, within, within_before};
use crate::shapes::{closed_code, plain_leaves_one};
use crate::show::call_one_code;
use crate::tokens::Spanned;
use crate::typed_ast::{TypedExpr, TypedExprKind};
use crate::types::{field_tys, Ty};
use vstd::prelude::*;

verus! {

// ── What such a loop means ───────────────────────────────────────────────

/// Whether `e` is a loop without a guard over a list of whole numbers that the
/// name `list` holds.
pub open spec fn walks(e: Spanned<TypedExpr>, list: Seq<char>) -> bool {
    e.item.kind matches TypedExprKind::ForLoop { var: _, iterable, cond, body, iter_via: _ } && {
        &&& iterable.item.ty@.is_list()
        &&& iterable.item.ty@.elem() is Int
        &&& iterable.item.kind matches TypedExprKind::Var(name) && name@ == list
        &&& cond is None
        &&& plain(*body)
    }
}

/// What names hold after the body is run for each of the items from the `k`th on:
/// in each turn the loop's variable holds the item.
pub open spec fn walked(e: Spanned<TypedExpr>, items: Seq<i64>, k: int, env: Names) -> Option<Names>
    decreases items.len() - k,
{
    match e.item.kind {
        TypedExprKind::ForLoop { var, iterable: _, cond: _, body, iter_via: _ } => if k < 0 || k >= items.len() {
            Some(env)
        } else {
            match means(*body, env.insert(var@, Val::Num(items[k]))) {
                Some((_, env)) => walked(e, items, k + 1, env),
                None => None,
            }
        },
        _ => None,
    }
}

/// Whether memory holds the items of a list of whole numbers at `list`: one after
/// the other, a stride of words apart, where a stride of zero counts as one.
pub open spec fn lists(mem: Map<(i64, Field), i64>, list: i64, items: Seq<i64>) -> bool {
    let data = mem[(list, Field::ListData)];
    let raw = mem[(list, Field::ListStride)];
    let stride = if raw == 0 {
        1
    } else {
        raw as int
    };
    &&& raw >= 0
    &&& data >= 0
    &&& data + items.len() * stride * 8 <= i64::MAX
    &&& forall|i: int|
        0 <= i < items.len() ==> mem[((data + i * stride * 8) as i64, Field::Word(0))] == #[trigger] items[i]
}

// ── The code ─────────────────────────────────────────────────────────────

/// The head of a loop over as many items as `len` says.
pub open spec fn headed_code(c: Code, len: usize) -> Code {
    let m = c.ops.len();
    let header = m as usize;
    let body = (m + 1) as usize;
    let c = emit_code(emit_code(emit_code(c, Op::Block), Op::Block), Op::Block);
    let c = emit_code(c, Op::BlockParam { block: header, ty: ClType::I64 });
    let c = emit_code(c, Op::Iconst { ty: ClType::I64, imm: 0 });
    let c = emit_code(emit_code(c, Op::Arg { val: (m + 4) as usize }), Op::Jump { block: header });
    let c = emit_code(c, Op::Switch { block: header });
    let c = emit_code(c, Op::Compare { test: Test::Less, a: (m + 3) as usize, b: len });
    let c = emit_code(c, Op::Brif { cond: (m + 8) as usize, yes: body, no: (m + 2) as usize });
    emit_code(emit_code(c, Op::Switch { block: body }), Op::Seal { block: body })
}

/// A loop's code up to where an item is read, after `c`. The list is read from
/// the variable `v`.
pub open spec fn address_code(c: Code, v: usize, len: usize) -> Code {
    let n = c.ops.len();
    let c = emit_code(c, Op::UseVar { var: v });
    let c = emit_code(c, Op::Arg { val: n as usize });
    let c = emit_code(c, Op::Call { func: len });
    let c = emit_code(c, Op::Result { index: 0 });
    let c = emit_code(c, Op::Load { ty: ClType::I32, base: n as usize, at: Field::ListStride });
    let c = emit_code(c, Op::Convert { op: Conv::Widen, a: (n + 4) as usize });
    let c = emit_code(c, Op::CompareImm { test: Test::Equal, a: (n + 5) as usize, imm: 0 });
    let c = emit_code(c, Op::Iconst { ty: ClType::I64, imm: 1 });
    let c = emit_code(c, Op::Select { cond: (n + 6) as usize, a: (n + 7) as usize, b: (n + 5) as usize });
    let c = headed_code(c, (n + 3) as usize);
    let c = emit_code(c, Op::Binary { op: BinOp::Imul, a: (n + 12) as usize, b: (n + 8) as usize });
    let c = emit_code(c, Op::Load { ty: ClType::I64, base: n as usize, at: Field::ListData });
    let c = emit_code(c, Op::BinaryImm { op: BinOp::Imul, a: (n + 21) as usize, imm: 8 });
    emit_code(c, Op::Binary { op: BinOp::Iadd, a: (n + 22) as usize, b: (n + 23) as usize })
}

/// A loop's code up to where its variable is set.
pub open spec fn walk_code(c: Code, v: usize, len: usize) -> Code {
    emit_code(
        address_code(c, v, len),
        Op::Load { ty: ClType::I64, base: (c.ops.len() + 24) as usize, at: Field::Word(0) },
    )
}

proof fn a_walk_grows(c: Code, v: usize, len: usize)
    ensures
        grows(c, walk_code(c, v, len)),
        walk_code(c, v, len).ops.len() == c.ops.len() + 26,
        walk_code(c, v, len).vars == c.vars,
{
}

/// The parts of such a loop's code: up to the body, after the body, to the end.
pub ghost struct Walk {
    pub set: Code,
    pub ran: Code,
    pub closed: Code,
}

pub open spec fn parts(c: Code, cx: Env, e: Spanned<TypedExpr>, v: usize, len: usize) -> Walk {
    match e.item.kind {
        TypedExprKind::ForLoop { var, iterable: _, cond: _, body, iter_via: _ } => {
            let n = c.ops.len();
            let set = set_code(walk_code(c, v, len), var@, Ty::Int, (n + 25) as usize);
            let ran = compile_expr_multi_code(set, cx, *body).1;
            Walk { set, ran, closed: closed_code(ran, (n + 12) as usize, (n + 9) as usize, (n + 11) as usize) }
        },
        _ => Walk { set: c, ran: c, closed: c },
    }
}

proof fn a_list_is_read(c: Code, cx: Env, iterable: Spanned<TypedExpr>, v: usize)
    requires
        iterable.item.ty@.is_list(),
        iterable.item.kind matches TypedExprKind::Var(name) && find_var(c.vars, name@) == Some(v),
    ensures
        transient_one_code(c, cx, iterable) == (c.ops.len() as usize, emit_code(c, Op::UseVar { var: v })),
{
    reveal_with_fuel(read_vars_upto, 2);
    assert(leaves_of(iterable.item.ty@, cx.defs).len() == 1);
}

proof fn an_item_is_set(h: Code, cx: Env, at: usize, var: Seq<char>)
    ensures
        ({
            let (ls, c) = leaves_code(h, cx, Ty::Int);
            let (vals, c) = load_words_at_code(c, at, ls);
            let c = declare_gc_leaves_code(c, vals, field_tys(ls));
            let c = mark_shared_extracted_code(c, cx, Ty::Int, vals);
            bind_vars_code(c, var, vals, ls)
        }) == set_code(
            emit_code(h, Op::Load { ty: ClType::I64, base: at, at: Field::Word(0) }),
            var,
            Ty::Int,
            h.ops.len() as usize,
        ),
        leaves_code(h, cx, Ty::Int).1 == h,
        leaves_code(h, cx, Ty::Int).0 == leaves_of(Ty::Int, cx.defs),
{
    let one = leaves_of(Ty::Int, cx.defs);
    reveal_with_fuel(load_words_at_upto, 2);
    reveal_with_fuel(declare_gc_leaves_upto, 2);
    reveal_with_fuel(mark_shared_leaves_upto, 2);
    reveal_with_fuel(bind_vars_upto, 2);
    assert(one.len() == 1);
}

proof fn a_walk_is(c: Code, cx: Env, e: Spanned<TypedExpr>, list: Seq<char>, v: usize, len: usize)
    requires
        walks(e, list),
        find_var(c.vars, list) == Some(v),
        find_name(cx.funcs, "frog_list_len"@) == Some(len),
    ensures
        compile_for_loop_code(c, cx, e, LoopOutput::Discard) == (None::<usize>, parts(c, cx, e, v, len).closed),
{
    if let TypedExprKind::ForLoop { var, iterable, cond, body, iter_via } = e.item.kind {
        let n = c.ops.len();
        let p = parts(c, cx, e, v, len);
        let c1 = emit_code(c, Op::UseVar { var: v });
        a_list_is_read(c, cx, *iterable, v);
        an_item_is_set(c1, cx, 0, var@);
        let a = address_code(c, v, len);
        an_item_is_set(a, cx, (n + 24) as usize, var@);
        assert(a.ops.len() == n + 25);
        assert(!iterable.item.ty@.is_range()) by {
            reveal_strlit("List");
            reveal_strlit("Range");
            assert("List"@.len() != "Range"@.len());
        }
        let c2 = emit_code(
            emit_code(emit_code(c1, Op::Arg { val: n as usize }), Op::Call { func: len }),
            Op::Result { index: 0 },
        );
        assert(call_one_code(c1, cx, "frog_list_len"@, n as usize) == ((n + 3) as usize, c2));
        let (stride, c3) = list_stride_code(c2, n as usize);
        assert(stride == (n + 8) as usize && c3.ops.len() == n + 9);
        assert(loop_guard_code(p.set, cx, cond, (n + 12) as usize, (n + 9) as usize) == p.set);
        let c4 = headed_code(c3, (n + 3) as usize);
        let (base_slot, c5) = put_code(c4, Op::Binary { op: BinOp::Imul, a: (n + 12) as usize, b: stride });
        let (base, c6) = list_slot_addr_code(c5, n as usize, base_slot);
        assert(c6 == a);
        assert(base == (n + 24) as usize);
        assert(loop_body_code(p.set, cx, *body, None, (n + 12) as usize, (n + 9) as usize, (n + 11) as usize)
            == p.closed);
    }
}

proof fn parts_grow(c: Code, cx: Env, e: Spanned<TypedExpr>, list: Seq<char>, v: usize, len: usize)
    requires
        walks(e, list),
    ensures
        ({
            let h = walk_code(c, v, len);
            let p = parts(c, cx, e, v, len);
            &&& grows(c, h)
            &&& grows(h, p.set)
            &&& grows(p.set, p.ran)
            &&& grows(h, p.ran)
            &&& extends(p.ran, p.closed)
            &&& p.closed.ops.len() == p.ran.ops.len() + 6
        }),
{
    if let TypedExprKind::ForLoop { var, iterable, cond, body, iter_via } = e.item.kind {
        let h = walk_code(c, v, len);
        let p = parts(c, cx, e, v, len);
        a_walk_grows(c, v, len);
        setting_grows(h, var@, Ty::Int, (c.ops.len() + 25) as usize);
        plain_leaves_one(p.set, cx, *body);
        grows_on(h, p.set, p.ran);
    }
}

/// Where the blocks begin.
proof fn walk_blocks(
    c: Code,
    cx: Env,
    e: Spanned<TypedExpr>,
    list: Seq<char>,
    v: usize,
    len: usize,
    fin: Code,
    ops: Seq<Op>,
)
    requires
        walks(e, list),
        within(parts(c, cx, e, v, len).closed, fin, ops),
    ensures
        ({
            let n = c.ops.len() as int;
            let p = parts(c, cx, e, v, len);
            let h = walk_code(c, v, len);
            &&& starts(ops, h.ops)
            &&& starts(ops, p.closed.ops)
            &&& h.ops.len() == n + 26
            &&& p.closed.ops.len() <= usize::MAX
            &&& within(p.ran, fin, ops)
            &&& within(p.set, fin, ops)
            &&& begins_at(ops, (n + 9) as usize, n + 12, n + 16)
            &&& begins_at(ops, (n + 10) as usize, -1, n + 19)
            &&& begins_at(ops, (n + 11) as usize, -1, p.ran.ops.len() as int + 4)
        }),
{
    let n = c.ops.len() as int;
    let p = parts(c, cx, e, v, len);
    let h = walk_code(c, v, len);
    parts_grow(c, cx, e, list, v, len);
    a_walk_grows(c, v, len);
    within_before(p.closed, p.closed, fin, ops);
    within_before(p.ran, p.closed, fin, ops);
    within_before(p.set, p.ran, fin, ops);
    within_before(h, p.ran, fin, ops);
    within_before(h, h, fin, ops);
    assert forall|i: int| n <= i < n + 26 implies #[trigger] ops[i] == h.ops[i] by {}
    let r = p.ran.ops.len() as int;
    assert(ops[r] == p.closed.ops[r] && ops[r + 1] == p.closed.ops[r + 1] && ops[r + 2] == p.closed.ops[r + 2]);
    assert(ops[r + 3] == p.closed.ops[r + 3] && ops[r + 4] == p.closed.ops[r + 4]);
    begins(ops, (n + 11) as usize, -1, r + 4, h, p.ran);
}

// ── Running it ───────────────────────────────────────────────────────────

/// Whether the machine is at the head of the loop, for the `k`th item.
pub open spec fn at_item(c: Code, m: Machine, k: int, list: i64, items: Seq<i64>) -> bool {
    let n = c.ops.len() as int;
    let raw = m.mem[(list, Field::ListStride)];
    &&& m.at == n + 17
    &&& m.args.len() == 0
    &&& m.other.len() == 0
    &&& m.vals[n] == list
    &&& m.vals[n + 3] == items.len()
    &&& m.vals[n + 8] == if raw == 0 {
        1
    } else {
        raw as int
    }
    &&& m.vals[n + 12] == k
    &&& lists(m.mem, list, items)
}

/// From where the stride is read to the head of the loop.
proof fn past_the_length(c: Code, v: usize, len: usize, ops: Seq<Op>, o: Outside, m: Machine) -> (r: Machine)
    requires
        m.at == c.ops.len() + 5,
        m.args.len() == 0,
        m.other.len() == 0,
        m.vals[c.ops.len() as int + 4] >= 0,
        c.ops.len() + 26 <= usize::MAX,
        starts(ops, walk_code(c, v, len).ops),
        begins_at(ops, (c.ops.len() + 9) as usize, c.ops.len() as int + 12, c.ops.len() as int + 16),
    ensures
        reaches(ops, o, m, r),
        r.at == c.ops.len() + 17,
        r.args.len() == 0,
        r.other.len() == 0,
        r.vals[c.ops.len() as int + 8] == if m.vals[c.ops.len() as int + 4] == 0 {
            1
        } else {
            m.vals[c.ops.len() as int + 4] as int
        },
        r.vals[c.ops.len() as int + 12] == 0,
        r.vars == m.vars,
        r.mem == m.mem,
        r.calls == m.calls,
        forall|i: int| 0 <= i < c.ops.len() + 5 ==> #[trigger] r.vals[i] == m.vals[i],
{
    let n = c.ops.len() as int;
    let h = walk_code(c, v, len);
    a_walk_grows(c, v, len);
    assert forall|x: int| n <= x < n + 17 implies #[trigger] ops[x] == h.ops[x] by {}
    here(ops, o, m);
    let m6 = one_further(ops, o, m, m);
    let m7 = one_further(ops, o, m, m6);
    let m8 = one_further(ops, o, m, m7);
    let m9 = one_further(ops, o, m, m8);
    let ma = one_further(ops, o, m, m9);
    let mb = one_further(ops, o, m, ma);
    let mc = one_further(ops, o, m, mb);
    let md = one_further(ops, o, m, mc);
    let me = one_further(ops, o, m, md);
    let r = a_jump_runs(ops, o, me, (n + 13) as usize, (n + 9) as usize, n + 12, n + 16);
    on_to(ops, o, m, me, r);
    r
}

/// From before the loop to its head.
proof fn to_the_first(
    c: Code,
    v: usize,
    len: usize,
    items: Seq<i64>,
    ops: Seq<Op>,
    o: Outside,
    m: Machine,
) -> (r: Machine)
    requires
        ready(c, m),
        c.ops.len() + 26 <= usize::MAX,
        starts(ops, walk_code(c, v, len).ops),
        begins_at(ops, (c.ops.len() + 9) as usize, c.ops.len() as int + 12, c.ops.len() as int + 16),
        items.len() <= i64::MAX,
        ({
            let calls = m.calls.push(Called { func: len, args: seq![m.vars[v]] });
            (o.answers)(calls) == seq![items.len() as i64] && lists((o.leaves)(calls, m.mem), m.vars[v], items)
        }),
    ensures
        reaches(ops, o, m, r),
        at_item(c, r, 0, m.vars[v], items),
        ({
            let calls = m.calls.push(Called { func: len, args: seq![m.vars[v]] });
            r.vars == m.vars && r.calls == calls && r.mem == (o.leaves)(calls, m.mem)
        }),
        forall|i: int| 0 <= i < c.ops.len() ==> #[trigger] r.vals[i] == m.vals[i],
{
    let n = c.ops.len() as int;
    let h = walk_code(c, v, len);
    a_walk_grows(c, v, len);
    assert forall|x: int| n <= x < n + 17 implies #[trigger] ops[x] == h.ops[x] by {}
    here(ops, o, m);
    let m1 = one_further(ops, o, m, m);
    let m2 = one_further(ops, o, m, m1);
    assert(m2.args =~= seq![m.vars[v]]);
    let m3 = one_further(ops, o, m, m2);
    let m4 = one_further(ops, o, m, m3);
    let m5 = one_further(ops, o, m, m4);
    let r = past_the_length(c, v, len, ops, o, m5);
    on_to(ops, o, m, m5, r);
    r
}

/// Where an item stands.
proof fn an_item_stands(data: i64, stride: i64, k: int, total: int)
    requires
        0 <= k < total,
        0 <= data,
        0 < stride,
        data + total * stride * 8 <= i64::MAX,
    ensures
        0 <= k * stride <= i64::MAX,
        0 <= k * stride * 8 <= i64::MAX,
        0 <= data + k * stride * 8 <= i64::MAX,
{
    assert(0 <= k * stride <= total * stride) by (nonlinear_arith)
        requires
            0 <= k < total,
            0 < stride,
    ;
}

/// From the head to the body, with the item at hand, or out of the loop.
proof fn the_item_is_read(
    c: Code,
    v: usize,
    len: usize,
    k: int,
    list: i64,
    items: Seq<i64>,
    x: int,
    ops: Seq<Op>,
    o: Outside,
    m: Machine,
) -> (r: Machine)
    requires
        at_item(c, m, k, list, items),
        0 <= k <= items.len() <= i64::MAX,
        c.ops.len() + 26 <= usize::MAX,
        starts(ops, walk_code(c, v, len).ops),
        begins_at(ops, (c.ops.len() + 10) as usize, -1, c.ops.len() as int + 19),
        begins_at(ops, (c.ops.len() + 11) as usize, -1, x),
        x + 1 < ops.len(),
        ops[x + 1] == (Op::Seal { block: (c.ops.len() + 11) as usize }),
    ensures
        reaches(ops, o, m, r),
        k < items.len() ==> r.at == c.ops.len() + 26 && r.vals[c.ops.len() as int + 25] == items[k],
        k == items.len() ==> r.at == x + 2,
        r.args.len() == 0,
        r.other.len() == 0,
        r.vars == m.vars,
        r.mem == m.mem,
        r.calls == m.calls,
        forall|i: int| 0 <= i < c.ops.len() + 17 ==> #[trigger] r.vals[i] == m.vals[i],
{
    let n = c.ops.len() as int;
    let h = walk_code(c, v, len);
    a_walk_grows(c, v, len);
    assert forall|y: int| n + 17 <= y < n + 26 implies #[trigger] ops[y] == h.ops[y] by {}
    here(ops, o, m);
    let m1 = one_further(ops, o, m, m);
    let m2 = one_further(ops, o, m, m1);
    if k < items.len() {
        enters(ops, m1, (n + 10) as usize, -1, n + 19, m1.args);
        let data = m.mem[(list, Field::ListData)];
        let stride = m.vals[n + 8];
        an_item_stands(data, stride, k, items.len() as int);
        let m3 = one_further(ops, o, m, m2);
        let m4 = one_further(ops, o, m, m3);
        assert(m4.vals[n + 21] == k * stride);
        let m5 = one_further(ops, o, m, m4);
        let m6 = one_further(ops, o, m, m5);
        assert(m6.vals[n + 23] == k * stride * 8);
        let m7 = one_further(ops, o, m, m6);
        assert(m7.vals[n + 24] == (data + k * stride * 8) as i64);
        let r = one_further(ops, o, m, m7);
        assert(r.vals[n + 25] == items[k]);
        r
    } else {
        enters(ops, m1, (n + 11) as usize, -1, x, m1.other);
        one_further(ops, o, m, m2)
    }
}

/// The turns of the loop from the `k`th item on run to its end.
proof fn walks_on(
    c: Code,
    cx: Env,
    e: Spanned<TypedExpr>,
    name: Seq<char>,
    v: usize,
    len: usize,
    k: int,
    list: i64,
    items: Seq<i64>,
    env: Names,
    fin: Code,
    ops: Seq<Op>,
    o: Outside,
    m: Machine,
) -> (r: Machine)
    requires
        walks(e, name),
        within(parts(c, cx, e, v, len).closed, fin, ops),
        at_item(c, m, k, list, items),
        0 <= k <= items.len() <= i64::MAX,
        walked(e, items, k, env) is Some,
        held(env, fin, m),
    ensures
        reaches(ops, o, m, r),
        ready(parts(c, cx, e, v, len).closed, r),
        held(walked(e, items, k, env)->0, fin, r),
        r.mem == m.mem,
        r.calls == m.calls,
        forall|i: int| 0 <= i < c.ops.len() ==> #[trigger] r.vals[i] == m.vals[i],
    decreases items.len() - k,
{
    if let TypedExprKind::ForLoop { var, iterable, cond, body, iter_via } = e.item.kind {
        let n = c.ops.len() as int;
        let h = walk_code(c, v, len);
        let p = parts(c, cx, e, v, len);
        let x = p.ran.ops.len() as int;
        walk_blocks(c, cx, e, name, v, len, fin, ops);
        parts_grow(c, cx, e, name, v, len);
        assert(ops[x + 5] == p.closed.ops[x + 5]);
        let m1 = the_item_is_read(c, v, len, k, list, items, x + 4, ops, o, m);
        if k == items.len() {
            m1
        } else {
            let item = Val::Num(items[k]);
            let env1 = env.insert(var@, item);
            let m2 = setting_runs(h, var@, Ty::Int, (n + 25) as usize, item, env, fin, ops, o, m1);
            on_to(ops, o, m, m1, m2);
            plain_leaves_one(p.set, cx, *body);
            let m3 = lowered_code_computes(p.set, cx, *body, env1, fin, ops, o, m2);
            on_to(ops, o, m, m2, m3);
            let (_, env2) = means(*body, env1)->0;
            assert(ops[x] == p.closed.ops[x] && ops[x + 1] == p.closed.ops[x + 1] && ops[x + 2] == p.closed.ops[x + 2]);
            assert(m3.vals[n + 12] == m2.vals[n + 12] && m3.vals[n] == m2.vals[n]);
            assert(m3.vals[n + 3] == m2.vals[n + 3] && m3.vals[n + 8] == m2.vals[n + 8]);
            here(ops, o, m3);
            let m4 = one_further(ops, o, m3, m3);
            let m5 = a_jump_runs(ops, o, m4, x as usize, (n + 9) as usize, n + 12, n + 16);
            on_to(ops, o, m3, m4, m5);
            on_to(ops, o, m, m3, m5);
            let r = walks_on(c, cx, e, name, v, len, k + 1, list, items, env2, fin, ops, o, m5);
            on_to(ops, o, m, m5, r);
            r
        }
    } else {
        m
    }
}

/// A loop over a list runs its body once for each item of the list, in order and
/// with the item in the loop's variable, and then comes to its end. How many
/// there are is asked of the runtime once, before the first.
pub proof fn a_loop_over_a_list_runs(
    c: Code,
    cx: Env,
    e: Spanned<TypedExpr>,
    name: Seq<char>,
    items: Seq<i64>,
    env: Names,
    fin: Code,
    ops: Seq<Op>,
    o: Outside,
    m: Machine,
) -> (r: Machine)
    requires
        walks(e, name),
        find_var(c.vars, name) is Some,
        find_name(cx.funcs, "frog_list_len"@) is Some,
        within(compile_for_loop_code(c, cx, e, LoopOutput::Discard).1, fin, ops),
        ready(c, m),
        held(env, fin, m),
        items.len() <= i64::MAX,
        ({
            let list = m.vars[find_var(c.vars, name)->0];
            let calls = m.calls.push(
                Called { func: find_name(cx.funcs, "frog_list_len"@)->0, args: seq![list] },
            );
            (o.answers)(calls) == seq![items.len() as i64] && lists((o.leaves)(calls, m.mem), list, items)
        }),
        walked(e, items, 0, env) is Some,
    ensures
        reaches(ops, o, m, r),
        ready(compile_for_loop_code(c, cx, e, LoopOutput::Discard).1, r),
        held(walked(e, items, 0, env)->0, fin, r),
        ({
            let list = m.vars[find_var(c.vars, name)->0];
            let calls = m.calls.push(
                Called { func: find_name(cx.funcs, "frog_list_len"@)->0, args: seq![list] },
            );
            r.calls == calls && r.mem == (o.leaves)(calls, m.mem)
        }),
        forall|i: int| 0 <= i < c.ops.len() ==> #[trigger] r.vals[i] == m.vals[i],
{
    let v = find_var(c.vars, name)->0;
    let len = find_name(cx.funcs, "frog_list_len"@)->0;
    let list = m.vars[v];
    a_walk_is(c, cx, e, name, v, len);
    walk_blocks(c, cx, e, name, v, len, fin, ops);
    parts_grow(c, cx, e, name, v, len);
    let m1 = to_the_first(c, v, len, items, ops, o, m);
    let r = walks_on(c, cx, e, name, v, len, 0, list, items, env, fin, ops, o, m1);
    on_to(ops, o, m, m1, r);
    r
}

} // verus!
