//! The shape of the code that plain programs are lowered to.
use crate::emit::{machine, mark_shared_leaves_upto};
use crate::ir::{emit_code, find_var, BinOp, ClType, Code, Env, Op, Test};
use crate::layout::leaves_of;
use crate::lower::{
    bind_same_upto, bind_vars_upto, compare_of, compile_assign_code, compile_binary_code, compile_conditional_code,
    compile_expr_code, compile_expr_multi_code, compile_for_code, compile_for_loop_code, compile_for_loop_range_code,
    compile_logical_code, compile_unary_code, logical, loop_body_code, loop_guard_code, lower_stmts_code,
    lower_stmts_upto, read_vars_upto, zero_word_code, LoopOutput,
};
use crate::machine::flag;
use crate::meaning::{
    a_crossing_grows, a_fork_grows, all_plain, an_opening_grows, crossed_code, forked_code, grows, grows_by, grows_on,
    opened_code, plain, scalar, set_code, setting_grows, starts,
};
use crate::tokens::{Spanned, Token};
use crate::typed_ast::{TypedExpr, TypedExprKind};
use crate::types::Ty;
use vstd::prelude::*;

verus! {

// ── One by one ───────────────────────────────────────────────────────────

pub(crate) proof fn a_literal_is(c: Code, cx: Env, e: Spanned<TypedExpr>)
    ensures
        e.item.kind matches TypedExprKind::IntLit(n) ==> compile_expr_multi_code(c, cx, e) == (
            seq![c.ops.len() as usize],
            emit_code(c, Op::Iconst { ty: ClType::I64, imm: n }),
        ),
        e.item.kind matches TypedExprKind::BoolLit(b) ==> compile_expr_multi_code(c, cx, e) == (
            seq![c.ops.len() as usize],
            emit_code(c, Op::Iconst { ty: ClType::I8, imm: flag(b) }),
        ),
{
}

pub(crate) proof fn a_name_is(c: Code, cx: Env, e: Spanned<TypedExpr>)
    requires
        e.item.kind is Var,
        scalar(e.item.ty@),
    ensures
        e.item.kind matches TypedExprKind::Var(name) && ({
            let (w, d) = compile_expr_multi_code(c, cx, e);
            let var = match find_var(c.vars, name@) {
                Some(v) => v,
                None => 0usize,
            };
            &&& w == seq![c.ops.len() as usize]
            &&& d.ops == c.ops.push(Op::UseVar { var })
            &&& d.vars == c.vars
            &&& d.fault is None ==> c.fault is None && find_var(c.vars, name@) is Some
        }),
{
    if let TypedExprKind::Var(name) = e.item.kind {
        let ls = leaves_of(e.item.ty@, cx.defs);
        reveal_with_fuel(read_vars_upto, 2);
        reveal_with_fuel(mark_shared_leaves_upto, 2);
        assert(ls.len() == 1);
        assert(compile_expr_multi_code(c, cx, e).0 =~= seq![c.ops.len() as usize]);
    }
}

/// The operations after the operand of a sign or a `not`.
pub open spec fn unary_code(d: Code, op: Token, v: usize) -> Code {
    let at = d.ops.len() as usize;
    if op is Minus {
        emit_code(
            emit_code(d, Op::Iconst { ty: ClType::I64, imm: 0 }),
            Op::Binary { op: BinOp::Isub, a: at, b: v },
        )
    } else {
        emit_code(
            emit_code(d, Op::Iconst { ty: ClType::I8, imm: 1 }),
            Op::Binary { op: BinOp::Bxor, a: v, b: at },
        )
    }
}

pub(crate) proof fn a_unary_is(c: Code, cx: Env, e: Spanned<TypedExpr>)
    requires
        plain(e),
        e.item.kind matches TypedExprKind::Unary { op, expr } && compile_expr_multi_code(c, cx, *expr).0.len() == 1,
    ensures
        e.item.kind matches TypedExprKind::Unary { op, expr } && ({
            let (w, d) = compile_expr_multi_code(c, cx, *expr);
            compile_expr_multi_code(c, cx, e) == (seq![(d.ops.len() + 1) as usize], unary_code(d, op, w[0]))
        }),
{
    if let TypedExprKind::Unary { op, expr } = e.item.kind {
        let (w, d) = compile_expr_multi_code(c, cx, *expr);
        assert(compile_expr_code(c, cx, *expr) == (w[0], d));
        assert(compile_expr_multi_code(c, cx, e) == compile_unary_code(c, cx, e));
    }
}

/// The operation after the operands of arithmetic or a comparison.
pub open spec fn binary_op(op: Token, a: usize, b: usize) -> Op {
    match op {
        Token::Plus => Op::Binary { op: BinOp::Iadd, a, b },
        Token::Minus => Op::Binary { op: BinOp::Isub, a, b },
        Token::Star => Op::Binary { op: BinOp::Imul, a, b },
        _ => Op::Compare { test: compare_of(op)->0, a, b },
    }
}

pub(crate) proof fn a_binary_is(c: Code, cx: Env, e: Spanned<TypedExpr>)
    requires
        plain(e),
        e.item.kind matches TypedExprKind::Binary { op, left, right } && !logical(op) && ({
            let (l, d) = compile_expr_multi_code(c, cx, *left);
            l.len() == 1 && compile_expr_multi_code(d, cx, *right).0.len() == 1
        }),
    ensures
        e.item.kind matches TypedExprKind::Binary { op, left, right } && ({
            let (l, d) = compile_expr_multi_code(c, cx, *left);
            let (r, f) = compile_expr_multi_code(d, cx, *right);
            compile_expr_multi_code(c, cx, e) == (
                seq![f.ops.len() as usize],
                emit_code(f, binary_op(op, l[0], r[0])),
            )
        }),
{
    if let TypedExprKind::Binary { op, left, right } = e.item.kind {
        let (l, d) = compile_expr_multi_code(c, cx, *left);
        let (r, f) = compile_expr_multi_code(d, cx, *right);
        assert(compile_expr_code(c, cx, *left) == (l[0], d));
        assert(compile_expr_code(d, cx, *right) == (r[0], f));
        assert(compile_binary_code(c, cx, e) == (
            seq![f.ops.len() as usize],
            emit_code(f, binary_op(op, l[0], r[0])),
        ));
        assert(compile_expr_multi_code(c, cx, e) == compile_binary_code(c, cx, e));
    }
}

pub(crate) proof fn a_logical_is(c: Code, cx: Env, e: Spanned<TypedExpr>)
    requires
        plain(e),
        e.item.kind matches TypedExprKind::Binary { op, left, right } && logical(op) && ({
            let (l, d) = compile_expr_multi_code(c, cx, *left);
            l.len() == 1 && compile_expr_multi_code(forked_code(d, l[0], op is And), cx, *right).0.len() == 1
        }),
    ensures
        e.item.kind matches TypedExprKind::Binary { op, left, right } && ({
            let (l, d) = compile_expr_multi_code(c, cx, *left);
            let (r, h) = compile_expr_multi_code(forked_code(d, l[0], op is And), cx, *right);
            let merge = (d.ops.len() + 1) as usize;
            compile_expr_multi_code(c, cx, e) == (
                seq![(d.ops.len() + 2) as usize],
                crossed_code(h, r[0], merge, merge),
            )
        }),
{
    if let TypedExprKind::Binary { op, left, right } = e.item.kind {
        let (l, d) = compile_expr_multi_code(c, cx, *left);
        let g = forked_code(d, l[0], op is And);
        let (r, h) = compile_expr_multi_code(g, cx, *right);
        let merge = (d.ops.len() + 1) as usize;
        assert(compile_expr_code(c, cx, *left) == (l[0], d));
        assert(compile_expr_code(g, cx, *right) == (r[0], h));
        assert(compile_logical_code(c, cx, e) == (
            seq![(d.ops.len() + 2) as usize],
            crossed_code(h, r[0], merge, merge),
        ));
        assert(compile_binary_code(c, cx, e) == compile_logical_code(c, cx, e));
        assert(compile_expr_multi_code(c, cx, e) == compile_binary_code(c, cx, e));
    }
}

pub(crate) proof fn a_conditional_is(c: Code, cx: Env, e: Spanned<TypedExpr>)
    requires
        plain(e),
        e.item.kind matches TypedExprKind::Conditional { cond, true_branch, false_branch } && ({
            let (t, d) = compile_expr_multi_code(c, cx, *cond);
            let (a, h) = compile_expr_multi_code(opened_code(d, t[0], machine(e.item.ty@)), cx, *true_branch);
            let i = crossed_code(h, a[0], (d.ops.len() + 2) as usize, (d.ops.len() + 1) as usize);
            t.len() == 1 && a.len() == 1 && compile_expr_multi_code(i, cx, *false_branch->0).0.len() == 1
        }),
    ensures
        e.item.kind matches TypedExprKind::Conditional { cond, true_branch, false_branch } && ({
            let (t, d) = compile_expr_multi_code(c, cx, *cond);
            let (a, h) = compile_expr_multi_code(opened_code(d, t[0], machine(e.item.ty@)), cx, *true_branch);
            let merge = (d.ops.len() + 2) as usize;
            let i = crossed_code(h, a[0], merge, (d.ops.len() + 1) as usize);
            let (b, j) = compile_expr_multi_code(i, cx, *false_branch->0);
            compile_expr_multi_code(c, cx, e) == (
                seq![(d.ops.len() + 3) as usize],
                crossed_code(j, b[0], merge, merge),
            )
        }),
{
    if let TypedExprKind::Conditional { cond, true_branch, false_branch } = e.item.kind {
        let (t, d) = compile_expr_multi_code(c, cx, *cond);
        assert(compile_expr_code(c, cx, *cond) == (t[0], d));
        assert(compile_expr_multi_code(c, cx, e) == compile_conditional_code(c, cx, e));
    }
}

pub(crate) proof fn an_assignment_is(c: Code, cx: Env, e: Spanned<TypedExpr>)
    requires
        plain(e),
        e.item.kind matches TypedExprKind::Assign { name, value } && compile_expr_multi_code(c, cx, *value).0.len() == 1,
    ensures
        e.item.kind matches TypedExprKind::Assign { name, value } && ({
            let (w, d) = compile_expr_multi_code(c, cx, *value);
            compile_expr_multi_code(c, cx, e) == (w, set_code(d, name@, value.item.ty@, w[0]))
        }),
{
    if let TypedExprKind::Assign { name, value } = e.item.kind {
        let ls = leaves_of(value.item.ty@, cx.defs);
        assert(ls.len() == 1);
        reveal_with_fuel(bind_vars_upto, 2);
        assert(plain(*value));
        assert(!(value.item.kind is Function));
        let (w, d) = compile_expr_multi_code(c, cx, *value);
        assert(compile_assign_code(c, cx, name@, *value) == (w, set_code(d, name@, value.item.ty@, w[0])));
        assert(compile_expr_multi_code(c, cx, e) == compile_assign_code(c, cx, name@, *value));
    }
}

// ── Loops ────────────────────────────────────────────────────────────────

/// A loop up to where its variable is set, after code that left the bounds.
pub open spec fn head_code(d: Code, start: usize, end: usize) -> Code {
    let n = d.ops.len();
    let zero = n as usize;
    let diff = (n + 1) as usize;
    let header = (n + 4) as usize;
    let body = (n + 5) as usize;
    let exit = (n + 6) as usize;
    let k = (n + 7) as usize;
    let c = emit_code(d, Op::Iconst { ty: ClType::I64, imm: 0 });
    let c = emit_code(c, Op::Binary { op: BinOp::Isub, a: end, b: start });
    let c = emit_code(c, Op::Compare { test: Test::Less, a: diff, b: zero });
    let c = emit_code(c, Op::Select { cond: (n + 2) as usize, a: zero, b: diff });
    let c = emit_code(emit_code(emit_code(c, Op::Block), Op::Block), Op::Block);
    let c = emit_code(c, Op::BlockParam { block: header, ty: ClType::I64 });
    let c = emit_code(emit_code(c, Op::Arg { val: start }), Op::Jump { block: header });
    let c = emit_code(c, Op::Switch { block: header });
    let c = emit_code(c, Op::Compare { test: Test::Less, a: k, b: end });
    let c = emit_code(c, Op::Brif { cond: (n + 11) as usize, yes: body, no: exit });
    emit_code(emit_code(c, Op::Switch { block: body }), Op::Seal { block: body })
}

pub(crate) proof fn a_head_grows(d: Code, start: usize, end: usize)
    ensures
        grows(d, head_code(d, start, end)),
        head_code(d, start, end).ops.len() == d.ops.len() + 15,
        head_code(d, start, end).vars == d.vars,
{
}

/// The way back to the head of a loop, for the next number.
pub open spec fn back_code(d: Code, k: usize, header: usize) -> Code {
    let at = d.ops.len() as usize;
    let c = emit_code(d, Op::BinaryImm { op: BinOp::Iadd, a: k, imm: 1 });
    emit_code(emit_code(c, Op::Arg { val: at }), Op::Jump { block: header })
}

/// A loop's guard after the code that left `v`: where it fails, the way back.
pub open spec fn skipped_code(d: Code, v: usize, run: usize, skip: usize, k: usize, header: usize) -> Code {
    let c = emit_code(d, Op::Brif { cond: v, yes: run, no: skip });
    let c = emit_code(emit_code(c, Op::Switch { block: skip }), Op::Seal { block: skip });
    let c = back_code(c, k, header);
    emit_code(emit_code(c, Op::Switch { block: run }), Op::Seal { block: run })
}

/// The end of a loop.
pub open spec fn closed_code(d: Code, k: usize, header: usize, exit: usize) -> Code {
    let c = emit_code(back_code(d, k, header), Op::Seal { block: header });
    emit_code(emit_code(c, Op::Switch { block: exit }), Op::Seal { block: exit })
}

pub(crate) proof fn a_guard_is(c: Code, cx: Env, g: Box<Spanned<TypedExpr>>, k: usize, header: usize)
    requires
        compile_expr_multi_code(emit_code(emit_code(c, Op::Block), Op::Block), cx, *g).0.len() == 1,
    ensures
        ({
            let (t, d) = compile_expr_multi_code(emit_code(emit_code(c, Op::Block), Op::Block), cx, *g);
            loop_guard_code(c, cx, Some(g), k, header) == skipped_code(
                d,
                t[0],
                c.ops.len() as usize,
                (c.ops.len() + 1) as usize,
                k,
                header,
            )
        }),
{
    let c2 = emit_code(emit_code(c, Op::Block), Op::Block);
    let (t, d) = compile_expr_multi_code(c2, cx, *g);
    assert(compile_expr_code(c2, cx, *g) == (t[0], d));
}

pub(crate) proof fn a_loop_is(c: Code, cx: Env, e: Spanned<TypedExpr>)
    requires
        plain(e),
        e.item.kind matches TypedExprKind::ForLoop { var, iterable, cond, body, iter_via } && (iterable.item.kind matches TypedExprKind::Range {
            start,
            end,
        } && ({
            let (s, d1) = compile_expr_multi_code(c, cx, *start);
            s.len() == 1 && compile_expr_multi_code(d1, cx, *end).0.len() == 1
        })),
    ensures
        e.item.kind matches TypedExprKind::ForLoop { var, iterable, cond, body, iter_via } && (iterable.item.kind matches TypedExprKind::Range {
            start,
            end,
        } && ({
            let (s, d1) = compile_expr_multi_code(c, cx, *start);
            let (t, d) = compile_expr_multi_code(d1, cx, *end);
            let n = d.ops.len();
            let header = (n + 4) as usize;
            let k = (n + 7) as usize;
            let b0 = set_code(head_code(d, s[0], t[0]), var@, Ty::Int, k);
            let b1 = loop_guard_code(b0, cx, cond, k, header);
            let (w, b2) = compile_expr_multi_code(b1, cx, *body);
            let f = closed_code(b2, k, header, (n + 6) as usize);
            compile_expr_multi_code(c, cx, e) == (
                seq![f.ops.len() as usize],
                emit_code(f, Op::Iconst { ty: ClType::I64, imm: 0 }),
            )
        })),
{
    if let TypedExprKind::ForLoop { var, iterable, cond, body, iter_via } = e.item.kind {
        if let TypedExprKind::Range { start, end } = iterable.item.kind {
            let (s, d1) = compile_expr_multi_code(c, cx, *start);
            let (t, d) = compile_expr_multi_code(d1, cx, *end);
            assert(compile_expr_code(c, cx, *start) == (s[0], d1));
            assert(compile_expr_code(d1, cx, *end) == (t[0], d));
            assert(compile_expr_multi_code(c, cx, *iterable) == (seq![s[0], t[0]], d));
            let ls = leaves_of(Ty::Int, cx.defs);
            assert(ls.len() == 1);
            reveal_with_fuel(bind_same_upto, 2);
            let n = d.ops.len();
            let header = (n + 4) as usize;
            let exit = (n + 6) as usize;
            let k = (n + 7) as usize;
            let b0 = set_code(head_code(d, s[0], t[0]), var@, Ty::Int, k);
            let b1 = loop_guard_code(b0, cx, cond, k, header);
            let (w, b2) = compile_expr_multi_code(b1, cx, *body);
            let f = closed_code(b2, k, header, exit);
            assert(loop_body_code(b1, cx, *body, None, k, header, exit) == f);
            assert(compile_for_loop_range_code(c, cx, e, LoopOutput::Discard).1 == f);
            assert(compile_for_loop_code(c, cx, e, LoopOutput::Discard) == compile_for_loop_range_code(
                c,
                cx,
                e,
                LoopOutput::Discard,
            ));
            assert(compile_for_code(c, cx, e) == zero_word_code(f));
            assert(compile_expr_multi_code(c, cx, e) == compile_for_code(c, cx, e));
        }
    }
}

// ── All of them ──────────────────────────────────────────────────────────

/// Whether what an expression is lowered to leaves one word, made by its own
/// code.
pub open spec fn leaves_one(c: Code, cx: Env, e: Spanned<TypedExpr>) -> bool {
    let (w, d) = compile_expr_multi_code(c, cx, e);
    &&& w.len() == 1
    &&& grows(c, d)
    &&& d.ops.len() <= usize::MAX ==> c.ops.len() <= w[0] < d.ops.len()
}

pub(crate) proof fn a_guard_grows(c: Code, cx: Env, g: Box<Spanned<TypedExpr>>, k: usize, header: usize)
    requires
        leaves_one(emit_code(emit_code(c, Op::Block), Op::Block), cx, *g),
    ensures
        grows(c, loop_guard_code(c, cx, Some(g), k, header)),
{
    let c2 = emit_code(emit_code(c, Op::Block), Op::Block);
    grows_by(c, c, Op::Block);
    grows_by(c, emit_code(c, Op::Block), Op::Block);
    a_guard_is(c, cx, g, k, header);
    let (t, d) = compile_expr_multi_code(c2, cx, *g);
    grows_on(c, c2, d);
    let run = c.ops.len() as usize;
    let skip = (c.ops.len() + 1) as usize;
    let at = (d.ops.len() + 3) as usize;
    let e1 = emit_code(d, Op::Brif { cond: t[0], yes: run, no: skip });
    grows_by(c, d, Op::Brif { cond: t[0], yes: run, no: skip });
    let e2 = emit_code(e1, Op::Switch { block: skip });
    grows_by(c, e1, Op::Switch { block: skip });
    let e3 = emit_code(e2, Op::Seal { block: skip });
    grows_by(c, e2, Op::Seal { block: skip });
    let e4 = emit_code(e3, Op::BinaryImm { op: BinOp::Iadd, a: k, imm: 1 });
    grows_by(c, e3, Op::BinaryImm { op: BinOp::Iadd, a: k, imm: 1 });
    let e5 = emit_code(e4, Op::Arg { val: at });
    grows_by(c, e4, Op::Arg { val: at });
    let e6 = emit_code(e5, Op::Jump { block: header });
    grows_by(c, e5, Op::Jump { block: header });
    let e7 = emit_code(e6, Op::Switch { block: run });
    grows_by(c, e6, Op::Switch { block: run });
    grows_by(c, e7, Op::Seal { block: run });
}

pub(crate) proof fn a_close_grows(c: Code, d: Code, k: usize, header: usize, exit: usize)
    requires
        grows(c, d),
        d.ops.len() + 6 <= usize::MAX ==> exit >= c.ops.len(),
    ensures
        grows(c, closed_code(d, k, header, exit)),
        closed_code(d, k, header, exit).ops.len() == d.ops.len() + 6,
        closed_code(d, k, header, exit).vars == d.vars,
{
    let e1 = emit_code(d, Op::BinaryImm { op: BinOp::Iadd, a: k, imm: 1 });
    let e2 = emit_code(e1, Op::Arg { val: d.ops.len() as usize });
    let e3 = emit_code(e2, Op::Jump { block: header });
    let e4 = emit_code(e3, Op::Seal { block: header });
    let e5 = emit_code(e4, Op::Switch { block: exit });
    let e6 = emit_code(e5, Op::Seal { block: exit });
    grows_by(c, d, Op::BinaryImm { op: BinOp::Iadd, a: k, imm: 1 });
    grows_by(c, e1, Op::Arg { val: d.ops.len() as usize });
    grows_by(c, e2, Op::Jump { block: header });
    grows_by(c, e3, Op::Seal { block: header });
    if e6.ops.len() <= usize::MAX {
        grows_by(c, e4, Op::Switch { block: exit });
        grows_by(c, e5, Op::Seal { block: exit });
    } else {
        assert(starts(e6.ops, c.ops));
    }
}

/// What a plain program is lowered to leaves one word, has blocks of its own,
/// and leaves every name its variable.
pub(crate) proof fn plain_leaves_one(c: Code, cx: Env, e: Spanned<TypedExpr>)
    requires
        plain(e),
    ensures
        leaves_one(c, cx, e),
    decreases e, 1int, 0nat,
{
    match e.item.kind {
        TypedExprKind::IntLit(_) => {
            a_literal_is(c, cx, e);
        },
        TypedExprKind::BoolLit(_) => {
            a_literal_is(c, cx, e);
        },
        TypedExprKind::Var(_) => {
            a_name_is(c, cx, e);
        },
        TypedExprKind::Unary { op, expr } => {
            plain_leaves_one(c, cx, *expr);
            a_unary_is(c, cx, e);
            let (w, d) = compile_expr_multi_code(c, cx, *expr);
            unary_grows(c, d, op, w[0]);
        },
        TypedExprKind::Binary { op, left, right } => {
            plain_leaves_one(c, cx, *left);
            let (l, d) = compile_expr_multi_code(c, cx, *left);
            if logical(op) {
                let g = forked_code(d, l[0], op is And);
                a_fork_grows(d, l[0], op is And);
                plain_leaves_one(g, cx, *right);
                let (r, h) = compile_expr_multi_code(g, cx, *right);
                let merge = (d.ops.len() + 1) as usize;
                grows_on(d, g, h);
                a_crossing_grows(d, h, r[0], merge, merge);
                grows_on(c, d, crossed_code(h, r[0], merge, merge));
                a_logical_is(c, cx, e);
            } else {
                plain_leaves_one(d, cx, *right);
                let (r, f) = compile_expr_multi_code(d, cx, *right);
                grows_on(c, d, f);
                a_binary_is(c, cx, e);
                grows_by(c, f, binary_op(op, l[0], r[0]));
            }
        },
        TypedExprKind::Conditional { cond, true_branch, false_branch } => {
            conditional_leaves_one(c, cx, e);
        },
        TypedExprKind::Assign { name, value } => {
            plain_leaves_one(c, cx, *value);
            an_assignment_is(c, cx, e);
            let (w, d) = compile_expr_multi_code(c, cx, *value);
            setting_grows(d, name@, value.item.ty@, w[0]);
            grows_on(c, d, set_code(d, name@, value.item.ty@, w[0]));
        },
        TypedExprKind::Block(stmts) => {
            let (init, d) = zero_word_code(c);
            all_leave_one(c, d, cx, stmts@, init, stmts@.len());
            assert(compile_expr_multi_code(c, cx, e) == lower_stmts_code(d, cx, stmts@, init));
        },
        TypedExprKind::ForLoop { var: _, iterable: _, cond: _, body: _, iter_via: _ } => {
            loop_leaves_one(c, cx, e);
        },
        _ => {},
    }
}

pub(crate) proof fn unary_grows(c: Code, d: Code, op: Token, v: usize)
    requires
        grows(c, d),
    ensures
        grows(c, unary_code(d, op, v)),
        unary_code(d, op, v).ops.len() == d.ops.len() + 2,
{
    let e = unary_code(d, op, v);
    let mid = if op is Minus {
        Op::Iconst { ty: ClType::I64, imm: 0 }
    } else {
        Op::Iconst { ty: ClType::I8, imm: 1 }
    };
    grows_by(c, d, mid);
    grows_by(c, emit_code(d, mid), e.ops[d.ops.len() as int + 1]);
}

pub(crate) proof fn all_leave_one(
    c: Code,
    d: Code,
    cx: Env,
    stmts: Seq<Spanned<TypedExpr>>,
    init: Seq<usize>,
    n: nat,
)
    requires
        n <= stmts.len(),
        all_plain(stmts, n),
        (init, d) == zero_word_code(c),
    ensures
        ({
            let (w, f) = lower_stmts_upto(d, cx, stmts, init, n);
            &&& w.len() == 1
            &&& grows(c, f)
            &&& f.ops.len() <= usize::MAX ==> c.ops.len() <= w[0] < f.ops.len()
        }),
    decreases stmts, 0int, n,
{
    if n > 0 {
        all_leave_one(c, d, cx, stmts, init, (n - 1) as nat);
        let (w, f) = lower_stmts_upto(d, cx, stmts, init, (n - 1) as nat);
        plain_leaves_one(f, cx, stmts[n - 1]);
        grows_on(c, f, compile_expr_multi_code(f, cx, stmts[n - 1]).1);
    }
}

proof fn conditional_leaves_one(c: Code, cx: Env, e: Spanned<TypedExpr>)
    requires
        plain(e),
        e.item.kind is Conditional,
    ensures
        leaves_one(c, cx, e),
    decreases e, 0int, 0nat,
{
    if let TypedExprKind::Conditional { cond, true_branch, false_branch } = e.item.kind {
        plain_leaves_one(c, cx, *cond);
        let (t, d) = compile_expr_multi_code(c, cx, *cond);
        let no = (d.ops.len() + 1) as usize;
        let merge = (d.ops.len() + 2) as usize;
        let g = opened_code(d, t[0], machine(e.item.ty@));
        an_opening_grows(d, t[0], machine(e.item.ty@));
        plain_leaves_one(g, cx, *true_branch);
        let (a, h) = compile_expr_multi_code(g, cx, *true_branch);
        grows_on(d, g, h);
        let i = crossed_code(h, a[0], merge, no);
        a_crossing_grows(d, h, a[0], merge, no);
        plain_leaves_one(i, cx, *false_branch->0);
        let (b, j) = compile_expr_multi_code(i, cx, *false_branch->0);
        grows_on(d, i, j);
        a_crossing_grows(d, j, b[0], merge, merge);
        grows_on(c, d, crossed_code(j, b[0], merge, merge));
        a_conditional_is(c, cx, e);
    }
}

proof fn loop_leaves_one(c: Code, cx: Env, e: Spanned<TypedExpr>)
    requires
        plain(e),
        e.item.kind is ForLoop,
    ensures
        leaves_one(c, cx, e),
    decreases e, 0int, 0nat,
{
    if let TypedExprKind::ForLoop { var, iterable, cond, body, iter_via } = e.item.kind {
        if let TypedExprKind::Range { start, end } = iterable.item.kind {
            plain_leaves_one(c, cx, *start);
            let (s, d1) = compile_expr_multi_code(c, cx, *start);
            plain_leaves_one(d1, cx, *end);
            let (t, d) = compile_expr_multi_code(d1, cx, *end);
            grows_on(c, d1, d);
            a_loop_is(c, cx, e);
            let n = d.ops.len();
            let header = (n + 4) as usize;
            let exit = (n + 6) as usize;
            let k = (n + 7) as usize;
            let h = head_code(d, s[0], t[0]);
            a_head_grows(d, s[0], t[0]);
            let b0 = set_code(h, var@, Ty::Int, k);
            setting_grows(h, var@, Ty::Int, k);
            grows_on(d, h, b0);
            let b1 = loop_guard_code(b0, cx, cond, k, header);
            if let Some(g) = cond {
                plain_leaves_one(emit_code(emit_code(b0, Op::Block), Op::Block), cx, *g);
                a_guard_grows(b0, cx, g, k, header);
                grows_on(d, b0, b1);
            }
            plain_leaves_one(b1, cx, *body);
            let b2 = compile_expr_multi_code(b1, cx, *body).1;
            grows_on(d, b1, b2);
            let f = closed_code(b2, k, header, exit);
            a_close_grows(d, b2, k, header, exit);
            grows_on(c, d, f);
            grows_by(c, f, Op::Iconst { ty: ClType::I64, imm: 0 });
        }
    }
}

} // verus!
