//! What the code of a conditional does whose value is not wanted, with or without
//! an `else`: it runs the branch that the condition chooses, and no other.
use crate::ir::{emit_code, ClType, Code, Env, Op};
use crate::lower::{compile_conditional_code, compile_expr_code, compile_expr_multi_code, multi_leaf};
use crate::machine::{begins_at, declares, enters, flag, here, on_to, one_further, reaches, Machine, Outside};
use crate::meaning::{extends, grows, means, own, plain, starts, Names, Val};
use crate::running::{begins, held, lowered_code_computes, ready, within, within_before};
use crate::shapes::plain_leaves_one;
use crate::tokens::Spanned;
use crate::typed_ast::{TypedExpr, TypedExprKind};
use vstd::prelude::*;

verus! {

/// Whether `e` is a conditional that comes to no value, of plain parts.
pub open spec fn branches(e: Spanned<TypedExpr>) -> bool {
    e.item.ty@ is Nil && (e.item.kind matches TypedExprKind::Conditional { cond, true_branch, false_branch } && {
        &&& plain(*cond)
        &&& plain(*true_branch)
        &&& !(true_branch.item.ty@ is Never)
        &&& false_branch matches Some(other) ==> plain(*other) && !(other.item.ty@ is Never)
    })
}

/// What names hold after it: what they do after the first branch where the
/// condition is true, else after the other, where there is one.
pub open spec fn branched(e: Spanned<TypedExpr>, env: Names) -> Option<Names> {
    match e.item.kind {
        TypedExprKind::Conditional { cond, true_branch, false_branch } => match means(*cond, env) {
            Some((Val::Truth(true), env)) => match means(*true_branch, env) {
                Some((_, env)) => Some(env),
                None => None,
            },
            Some((Val::Truth(false), env)) => match false_branch {
                Some(other) => match means(*other, env) {
                    Some((_, env)) => Some(env),
                    None => None,
                },
                None => Some(env),
            },
            _ => None,
        },
        _ => None,
    }
}

// ── The code ─────────────────────────────────────────────────────────────

/// Up to the first branch, after code that left `v`.
pub open spec fn split_code(d: Code, v: usize) -> Code {
    let n = d.ops.len();
    let yes = n as usize;
    let c = emit_code(emit_code(emit_code(d, Op::Block), Op::Block), Op::Block);
    let c = emit_code(c, Op::Brif { cond: v, yes, no: (n + 1) as usize });
    emit_code(emit_code(c, Op::Switch { block: yes }), Op::Seal { block: yes })
}

/// On to the block `to`, and then the block `from`.
pub open spec fn bridge_code(d: Code, to: usize, from: usize) -> Code {
    emit_code(emit_code(emit_code(d, Op::Jump { block: to }), Op::Switch { block: from }), Op::Seal { block: from })
}

/// The code after the condition, up to the first branch, after it, up to the
/// other branch, after it, and to where both meet.
pub ghost struct Parts {
    pub d: Code,
    pub v: usize,
    pub g: Code,
    pub h: Code,
    pub i: Code,
    pub j: Code,
    pub met: Code,
}

pub open spec fn parts(c: Code, cx: Env, e: Spanned<TypedExpr>) -> Parts {
    match e.item.kind {
        TypedExprKind::Conditional { cond, true_branch, false_branch } => {
            let (t, d) = compile_expr_multi_code(c, cx, *cond);
            let v = t[0];
            let merge = (d.ops.len() + 2) as usize;
            let g = split_code(d, v);
            let h = compile_expr_multi_code(g, cx, *true_branch).1;
            let i = bridge_code(h, merge, (d.ops.len() + 1) as usize);
            let j = match false_branch {
                Some(other) => compile_expr_multi_code(i, cx, *other).1,
                None => i,
            };
            Parts { d, v, g, h, i, j, met: bridge_code(j, merge, merge) }
        },
        _ => Parts { d: c, v: 0, g: c, h: c, i: c, j: c, met: c },
    }
}

proof fn parts_follow(c: Code, cx: Env, e: Spanned<TypedExpr>)
    requires
        branches(e),
    ensures
        ({
            let p = parts(c, cx, e);
            let n = p.d.ops.len();
            &&& grows(c, p.d)
            &&& extends(p.d, p.g)
            &&& grows(p.g, p.h)
            &&& extends(p.h, p.i)
            &&& grows(p.i, p.j)
            &&& extends(p.j, p.met)
            &&& p.g.ops.len() == n + 6
            &&& p.i.ops.len() == p.h.ops.len() + 3
            &&& p.met.ops.len() == p.j.ops.len() + 3
            &&& compile_conditional_code(c, cx, e) == (
                seq![p.met.ops.len() as usize],
                emit_code(p.met, Op::Iconst { ty: ClType::I64, imm: 0 }),
            )
        }),
{
    if let TypedExprKind::Conditional { cond, true_branch, false_branch } = e.item.kind {
        let p = parts(c, cx, e);
        plain_leaves_one(c, cx, *cond);
        let (t, d) = compile_expr_multi_code(c, cx, *cond);
        assert(compile_expr_code(c, cx, *cond) == (t[0], d));
        plain_leaves_one(p.g, cx, *true_branch);
        if let Some(other) = false_branch {
            plain_leaves_one(p.i, cx, *other);
        }
        assert(!multi_leaf(e.item.ty@, cx.defs));
    }
}

/// Where the blocks begin.
proof fn branch_blocks(c: Code, cx: Env, e: Spanned<TypedExpr>, fin: Code, ops: Seq<Op>)
    requires
        branches(e),
        within(parts(c, cx, e).met, fin, ops),
    ensures
        ({
            let p = parts(c, cx, e);
            let n = p.d.ops.len() as int;
            let s = p.h.ops.len() as int;
            let u = p.j.ops.len() as int;
            &&& within(p.d, fin, ops)
            &&& within(p.h, fin, ops)
            &&& within(p.j, fin, ops)
            &&& p.met.ops.len() <= usize::MAX
            &&& starts(ops, p.g.ops)
            &&& ops[s] == (Op::Jump { block: (n + 2) as usize })
            &&& ops[s + 2] == (Op::Seal { block: (n + 1) as usize })
            &&& ops[u] == (Op::Jump { block: (n + 2) as usize })
            &&& ops[u + 2] == (Op::Seal { block: (n + 2) as usize })
            &&& u + 2 < ops.len()
            &&& begins_at(ops, n as usize, -1, n + 4)
            &&& begins_at(ops, (n + 1) as usize, -1, s + 1)
            &&& begins_at(ops, (n + 2) as usize, -1, u + 1)
        }),
{
    let p = parts(c, cx, e);
    let n = p.d.ops.len() as int;
    let s = p.h.ops.len() as int;
    let u = p.j.ops.len() as int;
    let merge = (n + 2) as usize;
    parts_follow(c, cx, e);
    within_before(p.met, p.met, fin, ops);
    within_before(p.j, p.met, fin, ops);
    within_before(p.i, p.j, fin, ops);
    within_before(p.h, p.i, fin, ops);
    within_before(p.g, p.h, fin, ops);
    within_before(p.g, p.g, fin, ops);
    within_before(p.d, p.g, fin, ops);
    assert forall|x: int| n <= x < n + 6 implies #[trigger] ops[x] == p.g.ops[x] by {}
    assert(ops[s] == p.i.ops[s] && ops[s + 1] == p.i.ops[s + 1] && ops[s + 2] == p.i.ops[s + 2]);
    assert(ops[u] == p.met.ops[u] && ops[u + 1] == p.met.ops[u + 1] && ops[u + 2] == p.met.ops[u + 2]);
    begins(ops, (n + 1) as usize, -1, s + 1, p.g, p.h);
    assert forall|x: int| merge < x < u + 1 implies #[trigger] ops[x] != (Op::Switch { block: merge }) && !declares(
        ops[x],
        merge,
    ) by {
        if n + 6 <= x < s {
            assert(ops[x] == p.h.ops[x]);
            assert(own(p.h.ops[x], p.g.ops.len()));
        } else if s + 3 <= x < u {
            assert(ops[x] == p.j.ops[x]);
            assert(own(p.j.ops[x], p.i.ops.len()));
        }
    }
}

// ── Running it ───────────────────────────────────────────────────────────

/// From the condition into the branch that it chooses.
proof fn a_split_runs(d: Code, v: usize, q: bool, s: int, ops: Seq<Op>, o: Outside, m: Machine) -> (k: Machine)
    requires
        ready(d, m),
        d.ops.len() + 6 <= usize::MAX,
        m.val(v) == flag(q),
        starts(ops, split_code(d, v).ops),
        begins_at(ops, d.ops.len() as usize, -1, d.ops.len() as int + 4),
        begins_at(ops, (d.ops.len() + 1) as usize, -1, s),
        s + 1 < ops.len(),
        ops[s + 1] == (Op::Seal { block: (d.ops.len() + 1) as usize }),
    ensures
        reaches(ops, o, m, k),
        k == (Machine {
            at: if q {
                d.ops.len() as int + 6
            } else {
                s + 2
            },
            args: Seq::empty(),
            other: Seq::empty(),
            ..m
        }),
{
    let n = d.ops.len() as int;
    let g = split_code(d, v);
    assert forall|x: int| n <= x < n + 6 implies #[trigger] ops[x] == g.ops[x] by {}
    here(ops, o, m);
    let m1 = one_further(ops, o, m, m);
    let m2 = one_further(ops, o, m, m1);
    let m3 = one_further(ops, o, m, m2);
    let m4 = one_further(ops, o, m, m3);
    if q {
        enters(ops, m3, n as usize, -1, n + 4, m3.args);
    } else {
        enters(ops, m3, (n + 1) as usize, -1, s, m3.other);
    }
    one_further(ops, o, m, m4)
}

/// From the end of a branch to where both meet.
proof fn a_bridge_runs(ops: Seq<Op>, o: Outside, m: Machine, to: usize, s: int) -> (k: Machine)
    requires
        0 <= m.at < ops.len(),
        ops[m.at] == (Op::Jump { block: to }),
        begins_at(ops, to, -1, s),
        s + 1 < ops.len(),
        ops[s + 1] == (Op::Seal { block: to }),
    ensures
        reaches(ops, o, m, k),
        k == (Machine { at: s + 2, args: Seq::empty(), other: Seq::empty(), ..m }),
{
    here(ops, o, m);
    enters(ops, m, to, -1, s, m.args);
    let m1 = one_further(ops, o, m, m);
    one_further(ops, o, m, m1)
}

/// A conditional whose value is not wanted runs its condition and then the branch
/// that this chooses, and comes to its end; without an `else` it does nothing
/// more where the condition is false.
#[verifier::rlimit(40)]
pub proof fn the_chosen_branch_runs(
    c: Code,
    cx: Env,
    e: Spanned<TypedExpr>,
    env: Names,
    fin: Code,
    ops: Seq<Op>,
    o: Outside,
    m: Machine,
) -> (k: Machine)
    requires
        branches(e),
        branched(e, env) is Some,
        within(compile_conditional_code(c, cx, e).1, fin, ops),
        ready(c, m),
        held(env, fin, m),
    ensures
        reaches(ops, o, m, k),
        ready(compile_conditional_code(c, cx, e).1, k),
        held(branched(e, env)->0, fin, k),
        k.mem == m.mem,
        k.calls == m.calls,
        forall|i: int| 0 <= i < c.ops.len() ==> #[trigger] k.vals[i] == m.vals[i],
{
    if let TypedExprKind::Conditional { cond, true_branch, false_branch } = e.item.kind {
        let p = parts(c, cx, e);
        parts_follow(c, cx, e);
        let full = emit_code(p.met, Op::Iconst { ty: ClType::I64, imm: 0 });
        assert(extends(p.met, full));
        within_before(p.met, full, fin, ops);
        branch_blocks(c, cx, e, fin, ops);
        let n = p.d.ops.len() as int;
        let s = p.h.ops.len() as int;
        let u = p.j.ops.len() as int;
        let merge = (n + 2) as usize;
        let (q, env1) = means(*cond, env)->0;
        let k1 = lowered_code_computes(c, cx, *cond, env, fin, ops, o, m);
        let k2 = a_split_runs(p.d, p.v, q->Truth_0, s + 1, ops, o, k1);
        on_to(ops, o, m, k1, k2);
        let k3 = if q->Truth_0 {
            let k3 = lowered_code_computes(p.g, cx, *true_branch, env1, fin, ops, o, k2);
            on_to(ops, o, m, k2, k3);
            k3
        } else {
            match false_branch {
                Some(other) => {
                    let k3 = lowered_code_computes(p.i, cx, *other, env1, fin, ops, o, k2);
                    on_to(ops, o, m, k2, k3);
                    k3
                },
                None => k2,
            }
        };
        let k4 = a_bridge_runs(ops, o, k3, merge, u + 1);
        on_to(ops, o, m, k3, k4);
        assert(ops[u + 3] == full.ops[u + 3]);
        one_further(ops, o, m, k4)
    } else {
        m
    }
}

} // verus!
