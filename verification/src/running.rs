//! Running lowered code does what the program means.
use crate::emit::machine;
use crate::ir::{emit_code, find_var, BinOp, ClType, Code, Env, Op};
use crate::lower::{compile_expr_multi_code, loop_guard_code, lower_stmts_code, lower_stmts_upto, zero_word_code};
use crate::machine::{begins_at, declares, enters, flag, here, on_to, one_further, reaches, Machine, Outside};
use crate::meaning::{
    a_fork_grows, all_mean, all_plain, an_opening_grows, crossed_code, extends, extends_on, forked_code, grows,
    grows_on, means, opened_code, own, plain, scalar, set_code, setting_grows, starts, tidy, turns, Names, Val,
};
use crate::shapes::{
    a_binary_is, a_conditional_is, a_guard_grows, a_guard_is, a_head_grows, a_literal_is, a_logical_is, a_loop_is,
    a_name_is, a_unary_is, all_leave_one, an_assignment_is, binary_op, closed_code, head_code, plain_leaves_one,
    skipped_code, unary_code,
};
use crate::tokens::{Spanned, Token};
use crate::typed_ast::{TypedExpr, TypedExprKind};
use crate::types::Ty;
use vstd::prelude::*;

verus! {

/// Whether every name that holds something has a variable in `fin` that holds
/// its word.
pub open spec fn held(env: Names, fin: Code, m: Machine) -> bool {
    forall|a: Seq<char>| #[trigger]
        env.contains_key(a) ==> (find_var(fin.vars, a) matches Some(v) && m.vars[v] == env[a].word())
}

/// Whether the machine is about to run what comes after `c`.
pub open spec fn ready(c: Code, m: Machine) -> bool {
    m.at == c.ops.len() && m.args.len() == 0 && m.other.len() == 0
}

/// Whether `d`, in which lowering has left `w`, ran from `m` to `k`: `w` holds
/// the value, names hold what they are to, and nothing older than `c` was
/// changed, nor anything in memory.
pub open spec fn arrived(
    c: Code,
    d: Code,
    w: Seq<usize>,
    fin: Code,
    m: Machine,
    k: Machine,
    v: Val,
    env: Names,
) -> bool {
    &&& ready(d, k)
    &&& w.len() == 1
    &&& k.val(w[0]) == v.word()
    &&& held(env, fin, k)
    &&& forall|i: int| 0 <= i < c.ops.len() ==> #[trigger] k.vals[i] == m.vals[i]
    &&& k.mem == m.mem
    &&& k.calls == m.calls
}

/// Whether `fin` is a whole program that holds the code up to `d`, and `ops` its
/// operations.
pub open spec fn within(d: Code, fin: Code, ops: Seq<Op>) -> bool {
    &&& extends(d, fin)
    &&& tidy(fin)
    &&& fin.ops.len() <= usize::MAX
    &&& fin.fault is None
    &&& starts(ops, fin.ops)
}

pub(crate) proof fn within_before(c: Code, d: Code, fin: Code, ops: Seq<Op>)
    requires
        extends(c, d),
        within(d, fin, ops),
    ensures
        within(c, fin, ops),
        starts(ops, d.ops),
        d.ops.len() <= usize::MAX,
{
    extends_on(c, d, fin);
    assert forall|i: int| 0 <= i < d.ops.len() implies #[trigger] ops[i] == d.ops[i] by {
        assert(fin.ops[i] == d.ops[i]);
    }
}

/// Setting a name runs.
pub(crate) proof fn setting_runs(
    c: Code,
    name: Seq<char>,
    ty: Ty,
    val: usize,
    v: Val,
    env: Names,
    fin: Code,
    ops: Seq<Op>,
    o: Outside,
    m: Machine,
) -> (k: Machine)
    requires
        scalar(ty),
        ready(c, m),
        m.val(val) == v.word(),
        held(env, fin, m),
        within(set_code(c, name, ty, val), fin, ops),
    ensures
        reaches(ops, o, m, k),
        ready(set_code(c, name, ty, val), k),
        held(env.insert(name, v), fin, k),
        k.vals == m.vals,
        k.mem == m.mem,
        k.calls == m.calls,
{
    let d = set_code(c, name, ty, val);
    setting_grows(c, name, ty, val);
    within_before(c, d, fin, ops);
    let n = c.ops.len() as int;
    here(ops, o, m);
    let var = find_var(d.vars, name)->0;
    assert(find_var(fin.vars, name) == find_var(d.vars, name));
    let k = if find_var(c.vars, name) is Some {
        assert(ops[n] == d.ops[n]);
        one_further(ops, o, m, m)
    } else {
        assert(ops[n] == d.ops[n]);
        assert(ops[n + 1] == d.ops[n + 1]);
        let m1 = one_further(ops, o, m, m);
        one_further(ops, o, m, m1)
    };
    assert(k.vars == m.vars.insert(var, v.word()));
    let after = env.insert(name, v);
    assert forall|a: Seq<char>| #[trigger] after.contains_key(a) implies (find_var(fin.vars, a) matches Some(x)
        && k.vars[x] == after[a].word()) by {
        if a != name {
            assert(env.contains_key(a));
            assert(find_var(fin.vars, name) is Some);
            assert(find_var(fin.vars, a) != find_var(fin.vars, name));
        }
    }
    k
}

/// A block whose code begins at `s`, where what stands between `block` and `s`
/// is the operations before `g`, code of its own from `g` to `h`, and the
/// operations from there on.
pub(crate) proof fn begins(ops: Seq<Op>, block: usize, p: int, s: int, g: Code, h: Code)
    requires
        grows(g, h),
        h.ops.len() <= usize::MAX,
        starts(ops, h.ops),
        block < g.ops.len(),
        h.ops.len() <= s < ops.len(),
        ops[s] == (Op::Switch { block }),
        forall|i: int|
            (block < i < g.ops.len() || h.ops.len() <= i < s) ==> #[trigger] ops[i] != (Op::Switch { block }) && (i != p
                ==> !declares(ops[i], block)),
        p >= 0 ==> block < p < g.ops.len() && declares(ops[p], block),
    ensures
        begins_at(ops, block, p, s),
{
    assert forall|i: int| block < i < s implies #[trigger] ops[i] != (Op::Switch { block }) && (i != p ==> !declares(
        ops[i],
        block,
    )) by {
        if g.ops.len() <= i < h.ops.len() {
            assert(ops[i] == h.ops[i]);
            assert(own(h.ops[i], g.ops.len()));
        }
    }
}

/// A value taken along to `to`, whose parameter is `p`, runs into the code at
/// `s`.
pub(crate) proof fn a_jump_runs(ops: Seq<Op>, o: Outside, m: Machine, v: usize, to: usize, p: int, s: int) -> (k: Machine)
    requires
        0 <= m.at,
        m.at + 1 < ops.len(),
        m.args.len() == 0,
        m.other.len() == 0,
        ops[m.at] == (Op::Arg { val: v }),
        ops[m.at + 1] == (Op::Jump { block: to }),
        begins_at(ops, to, p, s),
        p >= 0,
    ensures
        reaches(ops, o, m, k),
        k == (Machine { at: s + 1, vals: m.vals.insert(p, m.val(v)), args: Seq::empty(), other: Seq::empty(), ..m }),
{
    here(ops, o, m);
    let m1 = one_further(ops, o, m, m);
    enters(ops, m1, to, p, s, m1.args);
    one_further(ops, o, m, m1)
}

proof fn a_literal_runs(
    c: Code,
    cx: Env,
    e: Spanned<TypedExpr>,
    env: Names,
    fin: Code,
    ops: Seq<Op>,
    o: Outside,
    m: Machine,
) -> (k: Machine)
    requires
        can_run(c, cx, e, env, fin, ops, m),
        e.item.kind is IntLit || e.item.kind is BoolLit || e.item.kind is Var,
    ensures
        has_run(c, cx, e, env, fin, ops, o, m, k),
{
    let (w, d) = compile_expr_multi_code(c, cx, e);
    let n = c.ops.len() as int;
    if e.item.kind is Var {
        a_name_is(c, cx, e);
    } else {
        a_literal_is(c, cx, e);
    }
    within_before(c, d, fin, ops);
    assert(ops[n] == d.ops[n]);
    here(ops, o, m);
    if let TypedExprKind::Var(name) = e.item.kind {
        assert(env.contains_key(name@));
        assert(find_var(fin.vars, name@) == find_var(d.vars, name@));
    }
    one_further(ops, o, m, m)
}

/// What a run of the code of `e` starts from.
pub open spec fn can_run(
    c: Code,
    cx: Env,
    e: Spanned<TypedExpr>,
    env: Names,
    fin: Code,
    ops: Seq<Op>,
    m: Machine,
) -> bool {
    &&& plain(e)
    &&& means(e, env) is Some
    &&& within(compile_expr_multi_code(c, cx, e).1, fin, ops)
    &&& ready(c, m)
    &&& held(env, fin, m)
}

/// Whether the code of `e` ran from `m` to `k`, and came to what `e` means.
pub open spec fn has_run(
    c: Code,
    cx: Env,
    e: Spanned<TypedExpr>,
    env: Names,
    fin: Code,
    ops: Seq<Op>,
    o: Outside,
    m: Machine,
    k: Machine,
) -> bool {
    let (w, d) = compile_expr_multi_code(c, cx, e);
    let (v, after) = means(e, env)->0;
    reaches(ops, o, m, k) && arrived(c, d, w, fin, m, k, v, after)
}

proof fn a_unary_ends(
    c: Code,
    d: Code,
    op: Token,
    w: usize,
    a: Val,
    v: Val,
    env: Names,
    fin: Code,
    ops: Seq<Op>,
    o: Outside,
    m: Machine,
) -> (k: Machine)
    requires
        grows(c, d),
        w < d.ops.len(),
        ready(d, m),
        m.val(w) == a.word(),
        held(env, fin, m),
        within(unary_code(d, op, w), fin, ops),
        (op is Minus && (a matches Val::Num(x) && v == Val::Num(0i64.wrapping_sub(x)))) || (op is Not && (a matches Val::Truth(
            x,
        ) && v == Val::Truth(!x))),
    ensures
        reaches(ops, o, m, k),
        arrived(d, unary_code(d, op, w), seq![(d.ops.len() + 1) as usize], fin, m, k, v, env),
{
    let n = d.ops.len() as int;
    let e = unary_code(d, op, w);
    assert(extends(d, e));
    within_before(d, e, fin, ops);
    assert(ops[n] == e.ops[n]);
    assert(ops[n + 1] == e.ops[n + 1]);
    assert(0i64 ^ 1i64 == 1i64) by (bit_vector);
    assert(1i64 ^ 1i64 == 0i64) by (bit_vector);
    here(ops, o, m);
    let m1 = one_further(ops, o, m, m);
    one_further(ops, o, m, m1)
}

/// Running the code of a plain program, from any state in which its names hold
/// what they are to, comes to what the program means: its value, and what names
/// hold after it.
pub proof fn lowered_code_computes(
    c: Code,
    cx: Env,
    e: Spanned<TypedExpr>,
    env: Names,
    fin: Code,
    ops: Seq<Op>,
    o: Outside,
    m: Machine,
) -> (k: Machine)
    requires
        can_run(c, cx, e, env, fin, ops, m),
    ensures
        has_run(c, cx, e, env, fin, ops, o, m, k),
    decreases e, 1int, 0int,
{
    plain_leaves_one(c, cx, e);
    match e.item.kind {
        TypedExprKind::Unary { op, expr } => {
            plain_leaves_one(c, cx, *expr);
            a_unary_is(c, cx, e);
            let (w, d) = compile_expr_multi_code(c, cx, *expr);
            let f = unary_code(d, op, w[0]);
            assert(extends(d, f));
            within_before(d, f, fin, ops);
            let (a, after) = means(*expr, env)->0;
            let k1 = lowered_code_computes(c, cx, *expr, env, fin, ops, o, m);
            let (v, _) = means(e, env)->0;
            let k2 = a_unary_ends(c, d, op, w[0], a, v, after, fin, ops, o, k1);
            on_to(ops, o, m, k1, k2);
            k2
        },
        TypedExprKind::Binary { op, left, right } => {
            if op is And || op is Or {
                a_logical_runs(c, cx, e, env, fin, ops, o, m)
            } else {
                a_binary_runs(c, cx, e, env, fin, ops, o, m)
            }
        },
        TypedExprKind::Conditional { cond: _, true_branch: _, false_branch: _ } => {
            a_conditional_runs(c, cx, e, env, fin, ops, o, m)
        },
        TypedExprKind::Assign { name, value } => {
            plain_leaves_one(c, cx, *value);
            an_assignment_is(c, cx, e);
            let (w, d) = compile_expr_multi_code(c, cx, *value);
            let ty = value.item.ty@;
            setting_grows(d, name@, ty, w[0]);
            within_before(d, set_code(d, name@, ty, w[0]), fin, ops);
            let (v, after) = means(*value, env)->0;
            let k1 = lowered_code_computes(c, cx, *value, env, fin, ops, o, m);
            let k2 = setting_runs(d, name@, ty, w[0], v, after, fin, ops, o, k1);
            on_to(ops, o, m, k1, k2);
            k2
        },
        TypedExprKind::Block(stmts) => {
            let (init, d) = zero_word_code(c);
            assert(compile_expr_multi_code(c, cx, e) == lower_stmts_code(d, cx, stmts@, init));
            assert(extends(d, lower_stmts_upto(d, cx, stmts@, init, 0).1));
            statements_run(c, d, cx, stmts@, init, stmts@.len(), env, fin, ops, o, m)
        },
        TypedExprKind::ForLoop { var: _, iterable: _, cond: _, body: _, iter_via: _ } => {
            a_loop_runs(c, cx, e, env, fin, ops, o, m)
        },
        _ => a_literal_runs(c, cx, e, env, fin, ops, o, m),
    }
}

proof fn statements_run(
    c: Code,
    d: Code,
    cx: Env,
    stmts: Seq<Spanned<TypedExpr>>,
    init: Seq<usize>,
    n: nat,
    env: Names,
    fin: Code,
    ops: Seq<Op>,
    o: Outside,
    m: Machine,
) -> (k: Machine)
    requires
        n <= stmts.len(),
        all_plain(stmts, n),
        (init, d) == zero_word_code(c),
        all_mean(stmts, env, n) is Some,
        within(lower_stmts_upto(d, cx, stmts, init, n).1, fin, ops),
        ready(c, m),
        held(env, fin, m),
    ensures
        ({
            let (w, f) = lower_stmts_upto(d, cx, stmts, init, n);
            let (v, after) = all_mean(stmts, env, n)->0;
            reaches(ops, o, m, k) && arrived(c, f, w, fin, m, k, v, after)
        }),
    decreases stmts, 0int, n,
{
    let (w, f) = lower_stmts_upto(d, cx, stmts, init, n);
    all_leave_one(c, d, cx, stmts, init, n);
    if n == 0 {
        within_before(c, f, fin, ops);
        assert(ops[c.ops.len() as int] == f.ops[c.ops.len() as int]);
        here(ops, o, m);
        one_further(ops, o, m, m)
    } else {
        let (w0, f0) = lower_stmts_upto(d, cx, stmts, init, (n - 1) as nat);
        all_leave_one(c, d, cx, stmts, init, (n - 1) as nat);
        plain_leaves_one(f0, cx, stmts[n - 1]);
        within_before(f0, f, fin, ops);
        let k1 = statements_run(c, d, cx, stmts, init, (n - 1) as nat, env, fin, ops, o, m);
        let (_, after) = all_mean(stmts, env, (n - 1) as nat)->0;
        let k2 = lowered_code_computes(f0, cx, stmts[n - 1], after, fin, ops, o, k1);
        on_to(ops, o, m, k1, k2);
        k2
    }
}

proof fn a_binary_runs(
    c: Code,
    cx: Env,
    e: Spanned<TypedExpr>,
    env: Names,
    fin: Code,
    ops: Seq<Op>,
    o: Outside,
    m: Machine,
) -> (k: Machine)
    requires
        can_run(c, cx, e, env, fin, ops, m),
        e.item.kind matches TypedExprKind::Binary { op, left, right } && !(op is And) && !(op is Or),
    ensures
        has_run(c, cx, e, env, fin, ops, o, m, k),
    decreases e, 0int, 0int,
{
    if let TypedExprKind::Binary { op, left, right } = e.item.kind {
        plain_leaves_one(c, cx, *left);
        let (l, d) = compile_expr_multi_code(c, cx, *left);
        plain_leaves_one(d, cx, *right);
        let (r, f) = compile_expr_multi_code(d, cx, *right);
        a_binary_is(c, cx, e);
        let g = emit_code(f, binary_op(op, l[0], r[0]));
        assert(extends(f, g));
        within_before(f, g, fin, ops);
        within_before(d, f, fin, ops);
        let (a, env1) = means(*left, env)->0;
        let (b, env2) = means(*right, env1)->0;
        let k1 = lowered_code_computes(c, cx, *left, env, fin, ops, o, m);
        let k2 = lowered_code_computes(d, cx, *right, env1, fin, ops, o, k1);
        on_to(ops, o, m, k1, k2);
        assert(ops[f.ops.len() as int] == g.ops[f.ops.len() as int]);
        assert(k2.val(l[0]) == a.word());
        one_further(ops, o, m, k2)
    } else {
        m
    }
}

// ── Branches ─────────────────────────────────────────────────────────────

/// The code of `and` or `or` runs up to its right side, or past it.
proof fn a_fork_runs(
    d: Code,
    v: usize,
    both: bool,
    a: bool,
    h: Code,
    r: usize,
    ops: Seq<Op>,
    o: Outside,
    m: Machine,
) -> (k: Machine)
    requires
        ready(d, m),
        v < d.ops.len(),
        m.val(v) == flag(a),
        grows(forked_code(d, v, both), h),
        ({
            let merge = (d.ops.len() + 1) as usize;
            let full = crossed_code(h, r, merge, merge);
            starts(ops, full.ops) && full.ops.len() <= usize::MAX
        }),
    ensures
        reaches(ops, o, m, k),
        k.args.len() == 0,
        k.other.len() == 0,
        k.vars == m.vars,
        k.mem == m.mem,
        k.calls == m.calls,
        forall|i: int| 0 <= i < d.ops.len() ==> #[trigger] k.vals[i] == m.vals[i],
        a == both ==> k.at == d.ops.len() + 8,
        a != both ==> k.at == h.ops.len() + 4 && k.vals[d.ops.len() as int + 2] == flag(a),
        begins_at(ops, (d.ops.len() + 1) as usize, d.ops.len() as int + 2, h.ops.len() as int + 2),
{
    let n = d.ops.len() as int;
    let rhs = n as usize;
    let merge = (n + 1) as usize;
    let g = forked_code(d, v, both);
    let full = crossed_code(h, r, merge, merge);
    a_fork_grows(d, v, both);
    assert(full.ops.len() == h.ops.len() + 4);
    assert forall|i: int| 0 <= i < h.ops.len() implies #[trigger] ops[i] == h.ops[i] by {
        assert(full.ops[i] == h.ops[i]);
    }
    assert forall|i: int| 0 <= i < n + 8 implies #[trigger] ops[i] == g.ops[i] by {
        assert(h.ops[i] == g.ops[i]);
    }
    let s = h.ops.len() as int;
    assert(ops[s] == full.ops[s]);
    assert(ops[s + 1] == full.ops[s + 1]);
    assert(ops[s + 2] == full.ops[s + 2]);
    assert(ops[s + 3] == full.ops[s + 3]);
    assert(begins_at(ops, rhs, -1, n + 6));
    begins(ops, merge, n + 2, s + 2, g, h);
    here(ops, o, m);
    let m1 = one_further(ops, o, m, m);
    let m2 = one_further(ops, o, m, m1);
    let m3 = one_further(ops, o, m, m2);
    let m4 = one_further(ops, o, m, m3);
    let m5 = one_further(ops, o, m, m4);
    let m6 = one_further(ops, o, m, m5);
    if a == both {
        enters(ops, m5, rhs, -1, n + 6, if both { m5.args } else { m5.other });
    } else {
        enters(ops, m5, merge, n + 2, s + 2, if both { m5.other } else { m5.args });
    }
    one_further(ops, o, m, m6)
}

#[verifier::rlimit(40)]
proof fn a_logical_runs(
    c: Code,
    cx: Env,
    e: Spanned<TypedExpr>,
    env: Names,
    fin: Code,
    ops: Seq<Op>,
    o: Outside,
    m: Machine,
) -> (k: Machine)
    requires
        can_run(c, cx, e, env, fin, ops, m),
        e.item.kind matches TypedExprKind::Binary { op, left, right } && (op is And || op is Or),
    ensures
        has_run(c, cx, e, env, fin, ops, o, m, k),
    decreases e, 0int, 0int,
{
    if let TypedExprKind::Binary { op, left, right } = e.item.kind {
        plain_leaves_one(c, cx, *left);
        let (l, d) = compile_expr_multi_code(c, cx, *left);
        let both = op is And;
        let g = forked_code(d, l[0], both);
        a_fork_grows(d, l[0], both);
        plain_leaves_one(g, cx, *right);
        let (r, h) = compile_expr_multi_code(g, cx, *right);
        let merge = (d.ops.len() + 1) as usize;
        let full = crossed_code(h, r[0], merge, merge);
        a_logical_is(c, cx, e);
        assert(extends(h, full));
        within_before(h, full, fin, ops);
        within_before(g, h, fin, ops);
        within_before(d, g, fin, ops);
        let (a, env1) = means(*left, env)->0;
        let k1 = lowered_code_computes(c, cx, *left, env, fin, ops, o, m);
        let t = a->Truth_0;
        let k2 = a_fork_runs(d, l[0], both, t, h, r[0], ops, o, k1);
        on_to(ops, o, m, k1, k2);
        if t == both {
            let k3 = lowered_code_computes(g, cx, *right, env1, fin, ops, o, k2);
            on_to(ops, o, m, k2, k3);
            let s = h.ops.len() as int;
            assert(ops[s] == full.ops[s]);
            assert(ops[s + 1] == full.ops[s + 1]);
            assert(ops[s + 3] == full.ops[s + 3]);
            let k4 = a_jump_runs(ops, o, k3, r[0], merge, d.ops.len() as int + 2, s + 2);
            on_to(ops, o, m, k3, k4);
            one_further(ops, o, m, k4)
        } else {
            k2
        }
    } else {
        m
    }
}

/// Where the blocks of a conditional begin.
proof fn conditional_blocks(d: Code, v: usize, ty: ClType, h: Code, a: usize, j: Code, b: usize, ops: Seq<Op>)
    requires
        grows(opened_code(d, v, ty), h),
        ({
            let no = (d.ops.len() + 1) as usize;
            let merge = (d.ops.len() + 2) as usize;
            let i = crossed_code(h, a, merge, no);
            let full = crossed_code(j, b, merge, merge);
            grows(i, j) && starts(ops, full.ops) && full.ops.len() <= usize::MAX
        }),
    ensures
        ({
            let n = d.ops.len() as int;
            let g = opened_code(d, v, ty);
            let no = (n + 1) as usize;
            let merge = (n + 2) as usize;
            let i = crossed_code(h, a, merge, no);
            let full = crossed_code(j, b, merge, merge);
            &&& forall|x: int| 0 <= x < full.ops.len() ==> #[trigger] ops[x] == full.ops[x]
            &&& forall|x: int| 0 <= x < j.ops.len() ==> #[trigger] ops[x] == j.ops[x]
            &&& forall|x: int| 0 <= x < i.ops.len() ==> #[trigger] ops[x] == i.ops[x]
            &&& forall|x: int| 0 <= x < h.ops.len() ==> #[trigger] ops[x] == h.ops[x]
            &&& forall|x: int| 0 <= x < n + 7 ==> #[trigger] ops[x] == g.ops[x]
            &&& begins_at(ops, n as usize, -1, n + 5)
            &&& begins_at(ops, no, -1, h.ops.len() as int + 2)
            &&& begins_at(ops, merge, n + 3, j.ops.len() as int + 2)
        }),
{
    let n = d.ops.len() as int;
    let g = opened_code(d, v, ty);
    let no = (n + 1) as usize;
    let merge = (n + 2) as usize;
    let i = crossed_code(h, a, merge, no);
    let full = crossed_code(j, b, merge, merge);
    an_opening_grows(d, v, ty);
    let s = h.ops.len() as int;
    let t = j.ops.len() as int;
    assert(i.ops.len() == s + 4);
    assert(full.ops.len() == t + 4);
    assert forall|x: int| 0 <= x < t implies #[trigger] ops[x] == j.ops[x] by {
        assert(full.ops[x] == j.ops[x]);
    }
    assert forall|x: int| 0 <= x < s + 4 implies #[trigger] ops[x] == i.ops[x] by {
        assert(j.ops[x] == i.ops[x]);
    }
    assert forall|x: int| 0 <= x < s implies #[trigger] ops[x] == h.ops[x] by {
        assert(i.ops[x] == h.ops[x]);
    }
    assert forall|x: int| 0 <= x < n + 7 implies #[trigger] ops[x] == g.ops[x] by {
        assert(h.ops[x] == g.ops[x]);
    }
    assert(ops[s] == i.ops[s] && ops[s + 1] == i.ops[s + 1] && ops[s + 2] == i.ops[s + 2] && ops[s + 3] == i.ops[s + 3]);
    assert(ops[t] == full.ops[t] && ops[t + 1] == full.ops[t + 1] && ops[t + 2] == full.ops[t + 2]);
    begins(ops, no, -1, s + 2, g, h);
    assert forall|x: int| merge < x < t + 2 implies #[trigger] ops[x] != (Op::Switch { block: merge }) && (x != n + 3
        ==> !declares(ops[x], merge)) by {
        if n + 7 <= x < s {
            assert(own(h.ops[x], g.ops.len()));
        } else if s + 4 <= x < t {
            assert(own(j.ops[x], i.ops.len()));
        }
    }
}

/// A conditional runs from its condition into a branch.
proof fn an_opening_runs(
    d: Code,
    v: usize,
    ty: ClType,
    q: bool,
    s: int,
    ops: Seq<Op>,
    o: Outside,
    m: Machine,
) -> (k: Machine)
    requires
        ready(d, m),
        v < d.ops.len(),
        d.ops.len() + 7 <= usize::MAX,
        m.val(v) == flag(q),
        starts(ops, opened_code(d, v, ty).ops),
        begins_at(ops, d.ops.len() as usize, -1, d.ops.len() as int + 5),
        begins_at(ops, (d.ops.len() + 1) as usize, -1, s),
        s + 1 < ops.len(),
        ops[s + 1] == (Op::Seal { block: (d.ops.len() + 1) as usize }),
    ensures
        reaches(ops, o, m, k),
        k.at == if q {
            d.ops.len() as int + 7
        } else {
            s + 2
        },
        k.args.len() == 0,
        k.other.len() == 0,
        k.vals == m.vals,
        k.vars == m.vars,
        k.mem == m.mem,
        k.calls == m.calls,
{
    let n = d.ops.len() as int;
    let g = opened_code(d, v, ty);
    assert forall|x: int| n <= x < n + 7 implies #[trigger] ops[x] == g.ops[x] by {}
    here(ops, o, m);
    let m1 = one_further(ops, o, m, m);
    let m2 = one_further(ops, o, m, m1);
    let m3 = one_further(ops, o, m, m2);
    let m4 = one_further(ops, o, m, m3);
    let m5 = one_further(ops, o, m, m4);
    if q {
        enters(ops, m4, n as usize, -1, n + 5, m4.args);
    } else {
        enters(ops, m4, (n + 1) as usize, -1, s, m4.other);
    }
    one_further(ops, o, m, m5)
}

/// A branch runs on into what follows the conditional.
proof fn a_branch_ends(ops: Seq<Op>, o: Outside, m: Machine, v: usize, to: usize, p: int, s: int) -> (k: Machine)
    requires
        0 <= m.at,
        m.at + 1 < ops.len(),
        m.args.len() == 0,
        m.other.len() == 0,
        ops[m.at] == (Op::Arg { val: v }),
        ops[m.at + 1] == (Op::Jump { block: to }),
        begins_at(ops, to, p, s),
        p >= 0,
        s + 1 < ops.len(),
        ops[s + 1] == (Op::Seal { block: to }),
    ensures
        reaches(ops, o, m, k),
        k == (Machine { at: s + 2, vals: m.vals.insert(p, m.val(v)), args: Seq::empty(), other: Seq::empty(), ..m }),
{
    let m1 = a_jump_runs(ops, o, m, v, to, p, s);
    one_further(ops, o, m, m1)
}

#[verifier::spinoff_prover]
#[verifier::rlimit(40)]
proof fn a_conditional_runs(
    c: Code,
    cx: Env,
    e: Spanned<TypedExpr>,
    env: Names,
    fin: Code,
    ops: Seq<Op>,
    o: Outside,
    m: Machine,
) -> (k: Machine)
    requires
        can_run(c, cx, e, env, fin, ops, m),
        e.item.kind is Conditional,
    ensures
        has_run(c, cx, e, env, fin, ops, o, m, k),
    decreases e, 0int, 0int,
{
    if let TypedExprKind::Conditional { cond, true_branch, false_branch } = e.item.kind {
        let other = *false_branch->0;
        let ty = machine(e.item.ty@);
        plain_leaves_one(c, cx, *cond);
        let (t, d) = compile_expr_multi_code(c, cx, *cond);
        let n = d.ops.len() as int;
        let no = (n + 1) as usize;
        let merge = (n + 2) as usize;
        let g = opened_code(d, t[0], ty);
        an_opening_grows(d, t[0], ty);
        plain_leaves_one(g, cx, *true_branch);
        let (a, h) = compile_expr_multi_code(g, cx, *true_branch);
        let i = crossed_code(h, a[0], merge, no);
        plain_leaves_one(i, cx, other);
        let (b, j) = compile_expr_multi_code(i, cx, other);
        let full = crossed_code(j, b[0], merge, merge);
        a_conditional_is(c, cx, e);
        assert(extends(j, full));
        within_before(j, full, fin, ops);
        within_before(i, j, fin, ops);
        assert(extends(h, i));
        within_before(h, i, fin, ops);
        within_before(g, h, fin, ops);
        within_before(d, g, fin, ops);
        conditional_blocks(d, t[0], ty, h, a[0], j, b[0], ops);
        let s = h.ops.len() as int;
        let u = j.ops.len() as int;
        assert(ops[s] == i.ops[s] && ops[s + 1] == i.ops[s + 1] && ops[s + 3] == i.ops[s + 3]);
        assert(ops[u] == full.ops[u] && ops[u + 1] == full.ops[u + 1] && ops[u + 3] == full.ops[u + 3]);
        let (q, env1) = means(*cond, env)->0;
        let k1 = lowered_code_computes(c, cx, *cond, env, fin, ops, o, m);
        let k2 = an_opening_runs(d, t[0], ty, q->Truth_0, s + 2, ops, o, k1);
        on_to(ops, o, m, k1, k2);
        if q->Truth_0 {
            let k3 = lowered_code_computes(g, cx, *true_branch, env1, fin, ops, o, k2);
            on_to(ops, o, m, k2, k3);
            let k4 = a_branch_ends(ops, o, k3, a[0], merge, n + 3, u + 2);
            on_to(ops, o, m, k3, k4);
            k4
        } else {
            let k3 = lowered_code_computes(i, cx, other, env1, fin, ops, o, k2);
            on_to(ops, o, m, k2, k3);
            let k4 = a_branch_ends(ops, o, k3, b[0], merge, n + 3, u + 2);
            on_to(ops, o, m, k3, k4);
            k4
        }
    } else {
        m
    }
}

// ── Loops ────────────────────────────────────────────────────────────────

/// The code of a loop, after `d`, which left its bounds: up to its guard, up to
/// its body, after its body, and to its end.
pub ghost struct Loop {
    pub set: Code,
    pub guarded: Code,
    pub ran: Code,
    pub closed: Code,
}

pub open spec fn loop_code(d: Code, cx: Env, e: Spanned<TypedExpr>, s: usize, t: usize) -> Loop {
    match e.item.kind {
        TypedExprKind::ForLoop { var, iterable: _, cond, body, iter_via: _ } => {
            let n = d.ops.len();
            let header = (n + 4) as usize;
            let k = (n + 7) as usize;
            let set = set_code(head_code(d, s, t), var@, Ty::Int, k);
            let guarded = loop_guard_code(set, cx, cond, k, header);
            let ran = compile_expr_multi_code(guarded, cx, *body).1;
            Loop { set, guarded, ran, closed: closed_code(ran, k, header, (n + 6) as usize) }
        },
        _ => Loop { set: d, guarded: d, ran: d, closed: d },
    }
}

/// The parts of a loop's code follow one another.
proof fn loop_grows(d: Code, cx: Env, e: Spanned<TypedExpr>, s: usize, t: usize)
    requires
        plain(e),
        e.item.kind is ForLoop,
    ensures
        ({
            let l = loop_code(d, cx, e, s, t);
            let h = head_code(d, s, t);
            &&& grows(d, h)
            &&& h.ops.len() == d.ops.len() + 15
            &&& grows(h, l.set)
            &&& grows(l.set, l.guarded)
            &&& grows(h, l.guarded)
            &&& grows(l.guarded, l.ran)
            &&& grows(h, l.ran)
            &&& extends(l.ran, l.closed)
            &&& l.closed.ops.len() == l.ran.ops.len() + 6
        }),
{
    if let TypedExprKind::ForLoop { var, iterable, cond, body, iter_via } = e.item.kind {
        let n = d.ops.len();
        let header = (n + 4) as usize;
        let k = (n + 7) as usize;
        let h = head_code(d, s, t);
        let l = loop_code(d, cx, e, s, t);
        a_head_grows(d, s, t);
        setting_grows(h, var@, Ty::Int, k);
        if let Some(g) = cond {
            plain_leaves_one(emit_code(emit_code(l.set, Op::Block), Op::Block), cx, *g);
            a_guard_grows(l.set, cx, g, k, header);
        }
        grows_on(h, l.set, l.guarded);
        plain_leaves_one(l.guarded, cx, *body);
        grows_on(h, l.guarded, l.ran);
    }
}

/// Whether the machine is at the head of the loop, for the number `k`.
pub open spec fn at_head(d: Code, m: Machine, k: int) -> bool {
    &&& m.at == d.ops.len() + 11
    &&& m.vals[d.ops.len() as int + 7] == k
    &&& m.args.len() == 0
    &&& m.other.len() == 0
}

/// Where the blocks of a loop begin.
proof fn loop_blocks(d: Code, cx: Env, e: Spanned<TypedExpr>, s: usize, t: usize, fin: Code, ops: Seq<Op>)
    requires
        plain(e),
        e.item.kind is ForLoop,
        within(loop_code(d, cx, e, s, t).closed, fin, ops),
    ensures
        ({
            let n = d.ops.len() as int;
            let l = loop_code(d, cx, e, s, t);
            let h = head_code(d, s, t);
            &&& starts(ops, h.ops)
            &&& starts(ops, l.ran.ops)
            &&& starts(ops, l.closed.ops)
            &&& begins_at(ops, (n + 4) as usize, n + 7, n + 10)
            &&& begins_at(ops, (n + 5) as usize, -1, n + 13)
            &&& begins_at(ops, (n + 6) as usize, -1, l.ran.ops.len() as int + 4)
        }),
{
    let n = d.ops.len() as int;
    let l = loop_code(d, cx, e, s, t);
    let h = head_code(d, s, t);
    loop_grows(d, cx, e, s, t);
    within_before(l.closed, l.closed, fin, ops);
    within_before(l.ran, l.closed, fin, ops);
    within_before(l.ran, l.ran, fin, ops);
    within_before(h, l.ran, fin, ops);
    within_before(h, h, fin, ops);
    let r = l.ran.ops.len() as int;
    assert(ops[r] == l.closed.ops[r] && ops[r + 1] == l.closed.ops[r + 1] && ops[r + 2] == l.closed.ops[r + 2]);
    assert(ops[r + 3] == l.closed.ops[r + 3] && ops[r + 4] == l.closed.ops[r + 4]);
    begins(ops, (n + 6) as usize, -1, r + 4, h, l.ran);
}

/// The way back to the head runs, for the next number.
proof fn the_way_back_runs(d: Code, k: int, ops: Seq<Op>, o: Outside, m: Machine) -> (r: Machine)
    requires
        d.ops.len() + 15 <= m.at,
        m.at + 2 < ops.len(),
        m.at + 2 <= usize::MAX,
        m.args.len() == 0,
        m.other.len() == 0,
        m.vals[d.ops.len() as int + 7] == k,
        k < i64::MAX,
        ops[m.at] == (Op::BinaryImm { op: BinOp::Iadd, a: (d.ops.len() + 7) as usize, imm: 1 }),
        ops[m.at + 1] == (Op::Arg { val: m.at as usize }),
        ops[m.at + 2] == (Op::Jump { block: (d.ops.len() + 4) as usize }),
        begins_at(ops, (d.ops.len() + 4) as usize, d.ops.len() as int + 7, d.ops.len() as int + 10),
    ensures
        reaches(ops, o, m, r),
        at_head(d, r, k + 1),
        r.vars == m.vars,
        r.mem == m.mem,
        r.calls == m.calls,
        forall|i: int| 0 <= i < d.ops.len() ==> #[trigger] r.vals[i] == m.vals[i],
{
    let n = d.ops.len() as int;
    here(ops, o, m);
    let m1 = one_further(ops, o, m, m);
    let m2 = a_jump_runs(ops, o, m1, m.at as usize, (n + 4) as usize, n + 7, n + 10);
    on_to(ops, o, m, m1, m2);
    m2
}

/// From the head of a loop into its body, or out of it: into the body exactly
/// where the number is below the end.
proof fn the_head_runs(
    d: Code,
    s: usize,
    t: usize,
    k: int,
    end: int,
    x: int,
    ops: Seq<Op>,
    o: Outside,
    m: Machine,
) -> (r: Machine)
    requires
        at_head(d, m, k),
        t < d.ops.len(),
        m.vals[t as int] == end,
        d.ops.len() + 15 <= usize::MAX,
        starts(ops, head_code(d, s, t).ops),
        begins_at(ops, (d.ops.len() + 5) as usize, -1, d.ops.len() as int + 13),
        begins_at(ops, (d.ops.len() + 6) as usize, -1, x),
        x + 1 < ops.len(),
        ops[x + 1] == (Op::Seal { block: (d.ops.len() + 6) as usize }),
    ensures
        reaches(ops, o, m, r),
        r.at == if k < end {
            d.ops.len() as int + 15
        } else {
            x + 2
        },
        r.args.len() == 0,
        r.other.len() == 0,
        r.vars == m.vars,
        r.mem == m.mem,
        r.calls == m.calls,
        forall|i: int| 0 <= i < d.ops.len() + 11 ==> #[trigger] r.vals[i] == m.vals[i],
{
    let n = d.ops.len() as int;
    let h = head_code(d, s, t);
    a_head_grows(d, s, t);
    assert(ops[n + 11] == h.ops[n + 11] && ops[n + 12] == h.ops[n + 12] && ops[n + 14] == h.ops[n + 14]);
    here(ops, o, m);
    let m1 = one_further(ops, o, m, m);
    let m2 = one_further(ops, o, m, m1);
    if k < end {
        enters(ops, m1, (n + 5) as usize, -1, n + 13, m1.args);
    } else {
        enters(ops, m1, (n + 6) as usize, -1, x, m1.other);
    }
    one_further(ops, o, m, m2)
}

/// From what a loop's guard left into the body, or back to the head.
#[verifier::rlimit(40)]
proof fn after_the_guard(
    d: Code,
    set: Code,
    f: Code,
    v: usize,
    b: bool,
    k: int,
    ops: Seq<Op>,
    o: Outside,
    m: Machine,
) -> (r: Machine)
    requires
        d.ops.len() + 15 <= set.ops.len(),
        grows(emit_code(emit_code(set, Op::Block), Op::Block), f),
        ready(f, m),
        m.val(v) == flag(b),
        m.vals[d.ops.len() as int + 7] == k,
        k < i64::MAX,
        ({
            let full = skipped_code(
                f,
                v,
                set.ops.len() as usize,
                (set.ops.len() + 1) as usize,
                (d.ops.len() + 7) as usize,
                (d.ops.len() + 4) as usize,
            );
            starts(ops, full.ops) && full.ops.len() <= usize::MAX
        }),
        begins_at(ops, (d.ops.len() + 4) as usize, d.ops.len() as int + 7, d.ops.len() as int + 10),
    ensures
        reaches(ops, o, m, r),
        b ==> r.at == f.ops.len() + 8 && r.args.len() == 0 && r.other.len() == 0 && r.vals == m.vals,
        !b ==> at_head(d, r, k + 1),
        r.vars == m.vars,
        r.mem == m.mem,
        r.calls == m.calls,
        forall|i: int| 0 <= i < d.ops.len() ==> #[trigger] r.vals[i] == m.vals[i],
{
    let n = d.ops.len() as int;
    let run = set.ops.len() as usize;
    let skip = (set.ops.len() + 1) as usize;
    let c2 = emit_code(emit_code(set, Op::Block), Op::Block);
    let full = skipped_code(f, v, run, skip, (n + 7) as usize, (n + 4) as usize);
    let z = f.ops.len() as int;
    let x = set.ops.len() as int;
    assert(full.ops.len() == z + 8);
    assert forall|i: int| 0 <= i < z implies #[trigger] ops[i] == f.ops[i] by {
        assert(full.ops[i] == f.ops[i]);
    }
    assert(f.ops[x] == c2.ops[x] && f.ops[x + 1] == c2.ops[x + 1]);
    assert(ops[x] == f.ops[x] && ops[x + 1] == f.ops[x + 1]);
    assert(ops[z] == full.ops[z] && ops[z + 1] == full.ops[z + 1] && ops[z + 2] == full.ops[z + 2] && ops[z + 3]
        == full.ops[z + 3]);
    assert(ops[z + 4] == full.ops[z + 4] && ops[z + 5] == full.ops[z + 5] && ops[z + 6] == full.ops[z + 6] && ops[z + 7]
        == full.ops[z + 7]);
    begins(ops, run, -1, z + 6, c2, f);
    begins(ops, skip, -1, z + 1, c2, f);
    here(ops, o, m);
    let m1 = one_further(ops, o, m, m);
    if b {
        enters(ops, m, run, -1, z + 6, m.args);
        one_further(ops, o, m, m1)
    } else {
        enters(ops, m, skip, -1, z + 1, m.other);
        let m2 = one_further(ops, o, m, m1);
        let m3 = the_way_back_runs(d, k, ops, o, m2);
        on_to(ops, o, m, m2, m3);
        m3
    }
}

/// The guard of a loop runs: into the body where it is true, else back to the
/// head.
#[verifier::rlimit(40)]
proof fn the_guard_runs(
    d: Code,
    cx: Env,
    e: Spanned<TypedExpr>,
    s: usize,
    t: usize,
    g: Box<Spanned<TypedExpr>>,
    k: int,
    env: Names,
    fin: Code,
    ops: Seq<Op>,
    o: Outside,
    m: Machine,
) -> (r: Machine)
    requires
        plain(e),
        e.item.kind matches TypedExprKind::ForLoop { var, iterable, cond, body, iter_via } && cond == Some(g),
        within(loop_code(d, cx, e, s, t).closed, fin, ops),
        ready(loop_code(d, cx, e, s, t).set, m),
        m.vals[d.ops.len() as int + 7] == k,
        k < i64::MAX,
        held(env, fin, m),
        means(*g, env) matches Some((v, after)) && v is Truth,
    ensures
        ({
            let (v, after) = means(*g, env)->0;
            &&& reaches(ops, o, m, r)
            &&& if v->Truth_0 {
                ready(loop_code(d, cx, e, s, t).guarded, r) && r.vals[d.ops.len() as int + 7] == k
            } else {
                at_head(d, r, k + 1)
            }
            &&& held(after, fin, r)
            &&& r.mem == m.mem
            &&& r.calls == m.calls
            &&& forall|i: int| 0 <= i < d.ops.len() ==> #[trigger] r.vals[i] == m.vals[i]
        }),
    decreases e, 0int, 0int,
{
    let n = d.ops.len() as int;
    let l = loop_code(d, cx, e, s, t);
    let header = (n + 4) as usize;
    let kk = (n + 7) as usize;
    loop_grows(d, cx, e, s, t);
    loop_blocks(d, cx, e, s, t, fin, ops);
    within_before(l.ran, l.closed, fin, ops);
    within_before(l.guarded, l.ran, fin, ops);
    within_before(l.guarded, l.guarded, fin, ops);
    within_before(l.set, l.guarded, fin, ops);
    let c2 = emit_code(emit_code(l.set, Op::Block), Op::Block);
    plain_leaves_one(c2, cx, *g);
    a_guard_is(l.set, cx, g, kk, header);
    let (q, f) = compile_expr_multi_code(c2, cx, *g);
    let b = l.set.ops.len() as int;
    let full = l.guarded;
    let z = f.ops.len() as int;
    assert(full.ops.len() == z + 8);
    assert(extends(f, full));
    within_before(f, full, fin, ops);
    assert(extends(c2, f));
    within_before(c2, f, fin, ops);
    assert(c2.ops[b] == Op::Block && c2.ops[b + 1] == Op::Block);
    assert(f.ops[b] == c2.ops[b] && f.ops[b + 1] == c2.ops[b + 1]);
    assert(ops[b] == f.ops[b] && ops[b + 1] == f.ops[b + 1]);
    here(ops, o, m);
    let m1 = one_further(ops, o, m, m);
    let m2 = one_further(ops, o, m, m1);
    let m3 = lowered_code_computes(c2, cx, *g, env, fin, ops, o, m2);
    on_to(ops, o, m, m2, m3);
    let (v, after) = means(*g, env)->0;
    assert(m3.vals[n + 7] == m2.vals[n + 7]);
    let m4 = after_the_guard(d, l.set, f, q[0], v->Truth_0, k, ops, o, m3);
    on_to(ops, o, m, m3, m4);
    m4
}

/// The turns of a loop run, from its head to its end.
#[verifier::rlimit(40)]
proof fn turns_run(
    d: Code,
    cx: Env,
    e: Spanned<TypedExpr>,
    s: usize,
    t: usize,
    k: int,
    end: int,
    env: Names,
    fin: Code,
    ops: Seq<Op>,
    o: Outside,
    m: Machine,
) -> (r: Machine)
    requires
        plain(e),
        e.item.kind is ForLoop,
        within(loop_code(d, cx, e, s, t).closed, fin, ops),
        t < d.ops.len(),
        m.vals[t as int] == end,
        at_head(d, m, k),
        i64::MIN <= k <= i64::MAX,
        i64::MIN <= end <= i64::MAX,
        turns(e, k, end, env) is Some,
        held(env, fin, m),
    ensures
        reaches(ops, o, m, r),
        ready(loop_code(d, cx, e, s, t).closed, r),
        held(turns(e, k, end, env)->0, fin, r),
        r.mem == m.mem,
        r.calls == m.calls,
        forall|i: int| 0 <= i < d.ops.len() ==> #[trigger] r.vals[i] == m.vals[i],
    decreases
        e,
        0int,
        if k < end {
            end - k + 1
        } else {
            1
        },
{
    if let TypedExprKind::ForLoop { var, iterable, cond, body, iter_via } = e.item.kind {
        let n = d.ops.len() as int;
        let l = loop_code(d, cx, e, s, t);
        let h = head_code(d, s, t);
        let x = l.ran.ops.len() as int;
        loop_grows(d, cx, e, s, t);
        loop_blocks(d, cx, e, s, t, fin, ops);
        assert(ops[x + 5] == l.closed.ops[x + 5]);
        let m1 = the_head_runs(d, s, t, k, end, x + 4, ops, o, m);
        if k >= end {
            m1
        } else {
            within_before(l.ran, l.closed, fin, ops);
            within_before(l.guarded, l.ran, fin, ops);
            within_before(l.set, l.guarded, fin, ops);
            let v = Val::Num(k as i64);
            let env1 = env.insert(var@, v);
            let m2 = setting_runs(h, var@, Ty::Int, (n + 7) as usize, v, env, fin, ops, o, m1);
            on_to(ops, o, m, m1, m2);
            let (go, env2) = match cond {
                Some(g) => {
                    let (truth, after) = means(*g, env1)->0;
                    (truth->Truth_0, after)
                },
                None => (true, env1),
            };
            let m3 = match cond {
                Some(g) => {
                    let m3 = the_guard_runs(d, cx, e, s, t, g, k, env1, fin, ops, o, m2);
                    on_to(ops, o, m, m2, m3);
                    m3
                },
                None => m2,
            };
            let (m4, env3) = if go {
                plain_leaves_one(l.guarded, cx, *body);
                let m4 = lowered_code_computes(l.guarded, cx, *body, env2, fin, ops, o, m3);
                on_to(ops, o, m, m3, m4);
                assert(ops[x] == l.closed.ops[x] && ops[x + 1] == l.closed.ops[x + 1] && ops[x + 2] == l.closed.ops[x + 2]);
                assert(m4.vals[n + 7] == m3.vals[n + 7]);
                let m5 = the_way_back_runs(d, k, ops, o, m4);
                on_to(ops, o, m, m4, m5);
                let (_, after) = means(*body, env2)->0;
                (m5, after)
            } else {
                (m3, env2)
            };
            let r = turns_run(d, cx, e, s, t, k + 1, end, env3, fin, ops, o, m4);
            on_to(ops, o, m, m4, r);
            r
        }
    } else {
        m
    }
}

/// A loop runs from its bounds to its head.
proof fn to_the_head(d: Code, s: usize, t: usize, ops: Seq<Op>, o: Outside, m: Machine) -> (r: Machine)
    requires
        ready(d, m),
        s < d.ops.len(),
        t < d.ops.len(),
        d.ops.len() + 15 <= usize::MAX,
        starts(ops, head_code(d, s, t).ops),
        begins_at(ops, (d.ops.len() + 4) as usize, d.ops.len() as int + 7, d.ops.len() as int + 10),
    ensures
        reaches(ops, o, m, r),
        at_head(d, r, m.val(s) as int),
        r.vars == m.vars,
        r.mem == m.mem,
        r.calls == m.calls,
        forall|i: int| 0 <= i < d.ops.len() ==> #[trigger] r.vals[i] == m.vals[i],
{
    let n = d.ops.len() as int;
    let h = head_code(d, s, t);
    a_head_grows(d, s, t);
    assert forall|x: int| n <= x < n + 11 implies #[trigger] ops[x] == h.ops[x] by {}
    here(ops, o, m);
    let m1 = one_further(ops, o, m, m);
    let m2 = one_further(ops, o, m, m1);
    let m3 = one_further(ops, o, m, m2);
    let m4 = one_further(ops, o, m, m3);
    let m5 = one_further(ops, o, m, m4);
    let m6 = one_further(ops, o, m, m5);
    let m7 = one_further(ops, o, m, m6);
    let m8 = one_further(ops, o, m, m7);
    let r = a_jump_runs(ops, o, m8, s, (n + 4) as usize, n + 7, n + 10);
    on_to(ops, o, m, m8, r);
    r
}

#[verifier::rlimit(40)]
proof fn a_loop_runs(
    c: Code,
    cx: Env,
    e: Spanned<TypedExpr>,
    env: Names,
    fin: Code,
    ops: Seq<Op>,
    o: Outside,
    m: Machine,
) -> (k: Machine)
    requires
        can_run(c, cx, e, env, fin, ops, m),
        e.item.kind is ForLoop,
    ensures
        has_run(c, cx, e, env, fin, ops, o, m, k),
    decreases e, 0int, 0x1_0000_0000_0000_0002int,
{
    if let TypedExprKind::ForLoop { var, iterable, cond, body, iter_via } = e.item.kind {
        if let TypedExprKind::Range { start, end } = iterable.item.kind {
            plain_leaves_one(c, cx, *start);
            let (s, d1) = compile_expr_multi_code(c, cx, *start);
            plain_leaves_one(d1, cx, *end);
            let (t, d) = compile_expr_multi_code(d1, cx, *end);
            grows_on(c, d1, d);
            a_loop_is(c, cx, e);
            let l = loop_code(d, cx, e, s[0], t[0]);
            let h = head_code(d, s[0], t[0]);
            let f = emit_code(l.closed, Op::Iconst { ty: ClType::I64, imm: 0 });
            assert(compile_expr_multi_code(c, cx, e) == (seq![l.closed.ops.len() as usize], f));
            assert(extends(l.closed, f));
            within_before(l.closed, f, fin, ops);
            loop_grows(d, cx, e, s[0], t[0]);
            loop_blocks(d, cx, e, s[0], t[0], fin, ops);
            within_before(l.ran, l.closed, fin, ops);
            within_before(h, l.ran, fin, ops);
            within_before(d, h, fin, ops);
            within_before(d1, d, fin, ops);
            let (a, env1) = means(*start, env)->0;
            let (b, env2) = means(*end, env1)->0;
            let k1 = lowered_code_computes(c, cx, *start, env, fin, ops, o, m);
            let k2 = lowered_code_computes(d1, cx, *end, env1, fin, ops, o, k1);
            on_to(ops, o, m, k1, k2);
            assert(k2.val(s[0]) == a.word());
            let k3 = to_the_head(d, s[0], t[0], ops, o, k2);
            on_to(ops, o, m, k2, k3);
            assert(k3.vals[t[0] as int] == k2.vals[t[0] as int]);
            let k4 = turns_run(d, cx, e, s[0], t[0], a.word() as int, b.word() as int, env2, fin, ops, o, k3);
            on_to(ops, o, m, k3, k4);
            let z = l.closed.ops.len() as int;
            assert(ops[z] == f.ops[z]);
            one_further(ops, o, m, k4)
        } else {
            m
        }
    } else {
        m
    }
}

} // verus!
