//! What the code of a call does: the arguments are computed in order, and
//! handed over in order.
use crate::emit::coerce_value_code;
use crate::ir::{emit_code, find_name, Code, Env, Op};
use crate::layout::leaves_of;
use crate::lower::{
    builtin, call_args_code, call_args_upto, call_value_code, compile_call_code, compile_expr_code,
    compile_expr_multi_code, emit_args_upto, params_of, result_of, results_from_upto, user_call_code,
};
use crate::machine::{here, on_to, one_further, reaches, Called, Machine, Outside};
use crate::meaning::{extends, extends_on, grows, grows_on, means, plain, scalar, starts, Names};
use crate::running::{held, lowered_code_computes, ready, within, within_before};
use crate::shapes::plain_leaves_one;
use crate::tokens::Spanned;
use crate::typed_ast::{Arg, TypedExpr, TypedExprKind};
use crate::types::Ty;
use vstd::prelude::*;

verus! {

/// Whether the first `n` arguments are values of plain expressions, of the types
/// of the parameters.
pub open spec fn plain_args(args: Seq<Arg>, params: Seq<Ty>, n: nat) -> bool
    decreases n,
{
    n > 0 ==> {
        &&& plain_args(args, params, (n - 1) as nat)
        &&& args[n - 1] matches Arg::Value(a) && plain(a) && scalar(a.item.ty@) && a.item.ty@ == params[n - 1]
    }
}

/// What the first `n` arguments come to, one after the other, and what names
/// hold after them.
pub open spec fn args_mean(args: Seq<Arg>, env: Names, n: nat) -> Option<(Seq<i64>, Names)>
    decreases n,
{
    if n == 0 {
        Some((Seq::empty(), env))
    } else {
        match (args_mean(args, env, (n - 1) as nat), args[n - 1]) {
            (Some((words, env)), Arg::Value(a)) => match means(a, env) {
                Some((v, env)) => Some((words.push(v.word()), env)),
                None => None,
            },
            _ => None,
        }
    }
}

/// Whether the expression calls a function of the program, with plain arguments,
/// for a whole number.
pub open spec fn calls_plainly(e: Spanned<TypedExpr>, cx: Env, name: Seq<char>, args: Seq<Arg>) -> bool {
    e.item.kind matches TypedExprKind::Call { callable, args: given } && {
        &&& given@ == args
        &&& callable.item.kind matches TypedExprKind::Var(n) && n@ == name
        &&& name != "push"@
        &&& !builtin(name)
        &&& !cx.hosts.contains(name)
        &&& params_of(callable.item.ty@).len() == args.len() <= usize::MAX
        &&& plain_args(args, params_of(callable.item.ty@), args.len())
        &&& result_of(callable.item.ty@) is Int
    }
}

proof fn args_lowered(c: Code, cx: Env, args: Seq<Arg>, params: Seq<Ty>, n: nat)
    requires
        n <= args.len() == params.len() <= usize::MAX,
        plain_args(args, params, n),
    ensures
        ({
            let (acc, d) = call_args_upto(c, cx, args, params, n);
            &&& acc.0.len() == n
            &&& acc.1.len() == 0
            &&& grows(c, d)
            &&& d.ops.len() <= usize::MAX ==> forall|i: int| 0 <= i < n ==> #[trigger] acc.0[i] < d.ops.len()
            &&& n > 0 ==> ({
                let (before, b) = call_args_upto(c, cx, args, params, (n - 1) as nat);
                let (w, f) = compile_expr_multi_code(b, cx, args[n - 1]->Value_0);
                acc.0 == before.0.push(w[0]) && d == f
            })
        }),
    decreases n,
{
    if n > 0 {
        args_lowered(c, cx, args, params, (n - 1) as nat);
        let (before, b) = call_args_upto(c, cx, args, params, (n - 1) as nat);
        let a = args[n - 1]->Value_0;
        plain_leaves_one(b, cx, a);
        let (w, f) = compile_expr_multi_code(b, cx, a);
        assert(compile_expr_code(b, cx, a) == (w[0], f));
        assert(coerce_value_code(f, w[0], a.item.ty@, params[n - 1]) == (w[0], f));
        assert(call_value_code(b, cx, a, params, (n - 1) as usize) == (seq![w[0]], f));
        assert(before.0 + seq![w[0]] =~= before.0.push(w[0]));
        grows_on(c, b, f);
    }
}

proof fn args_run(
    c: Code,
    cx: Env,
    args: Seq<Arg>,
    params: Seq<Ty>,
    n: nat,
    env: Names,
    fin: Code,
    ops: Seq<Op>,
    o: Outside,
    m: Machine,
) -> (k: Machine)
    requires
        n <= args.len() == params.len() <= usize::MAX,
        plain_args(args, params, n),
        args_mean(args, env, n) is Some,
        within(call_args_upto(c, cx, args, params, n).1, fin, ops),
        ready(c, m),
        held(env, fin, m),
    ensures
        ({
            let (acc, d) = call_args_upto(c, cx, args, params, n);
            let (words, after) = args_mean(args, env, n)->0;
            &&& reaches(ops, o, m, k)
            &&& ready(d, k)
            &&& words.len() == n
            &&& forall|i: int| 0 <= i < n ==> k.val(#[trigger] acc.0[i]) == words[i]
            &&& held(after, fin, k)
            &&& k.mem == m.mem
            &&& k.calls == m.calls
        }),
    decreases n,
{
    args_lowered(c, cx, args, params, n);
    if n == 0 {
        here(ops, o, m);
        m
    } else {
        let (before, b) = call_args_upto(c, cx, args, params, (n - 1) as nat);
        let (acc, d) = call_args_upto(c, cx, args, params, n);
        let a = args[n - 1]->Value_0;
        args_lowered(c, cx, args, params, (n - 1) as nat);
        plain_leaves_one(b, cx, a);
        within_before(b, d, fin, ops);
        let k1 = args_run(c, cx, args, params, (n - 1) as nat, env, fin, ops, o, m);
        let (words, env1) = args_mean(args, env, (n - 1) as nat)->0;
        let k2 = lowered_code_computes(b, cx, a, env1, fin, ops, o, k1);
        on_to(ops, o, m, k1, k2);
        let (all, after) = args_mean(args, env, n)->0;
        assert forall|i: int| 0 <= i < n implies k2.val(#[trigger] acc.0[i]) == all[i] by {
            if i < n - 1 {
                assert(acc.0[i] == before.0[i]);
                assert(k1.val(before.0[i]) == words[i]);
            }
        }
        k2
    }
}

/// Putting the arguments down runs.
proof fn arguments_run(d: Code, vals: Seq<usize>, words: Seq<i64>, n: nat, ops: Seq<Op>, o: Outside, m: Machine) -> (k:
    Machine)
    requires
        n <= vals.len() == words.len() <= usize::MAX,
        ready(d, m),
        starts(ops, emit_args_upto(d, vals, n).ops),
        forall|i: int| 0 <= i < n ==> m.val(#[trigger] vals[i]) == words[i],
    ensures
        reaches(ops, o, m, k),
        k == (Machine { at: d.ops.len() as int + n, args: words.take(n as int), ..m }),
        emit_args_upto(d, vals, n).ops.len() == d.ops.len() + n,
        emit_args_upto(d, vals, n).vars == d.vars,
        extends(d, emit_args_upto(d, vals, n)),
    decreases n,
{
    if n == 0 {
        here(ops, o, m);
        assert(m.args =~= words.take(0));
        m
    } else {
        let f = emit_args_upto(d, vals, (n - 1) as nat);
        let g = emit_args_upto(d, vals, n);
        assert(g.ops.drop_last() =~= f.ops);
        assert forall|i: int| 0 <= i < f.ops.len() implies #[trigger] ops[i] == f.ops[i] by {
            assert(g.ops[i] == f.ops[i]);
        }
        let k1 = arguments_run(d, vals, words, (n - 1) as nat, ops, o, m);
        extends_on(d, f, g);
        assert(ops[f.ops.len() as int] == g.ops[f.ops.len() as int]);
        let k2 = one_further(ops, o, m, k1);
        assert(m.val(vals[n - 1]) == words[n - 1]);
        assert(k2.args =~= words.take(n as int));
        k2
    }
}

proof fn a_call_is(c: Code, cx: Env, e: Spanned<TypedExpr>, name: Seq<char>, args: Seq<Arg>)
    requires
        calls_plainly(e, cx, name, args),
        find_name(cx.funcs, name) is Some,
    ensures
        e.item.kind matches TypedExprKind::Call { callable, args: given } && ({
            let (acc, d) = call_args_code(c, cx, args, params_of(callable.item.ty@));
            let f = emit_args_upto(d, acc.0, acc.0.len());
            let called = emit_code(f, Op::Call { func: find_name(cx.funcs, name)->0 });
            compile_expr_multi_code(c, cx, e) == (
                seq![called.ops.len() as usize],
                emit_code(called, Op::Result { index: 0 }),
            )
        }),
{
    if let TypedExprKind::Call { callable, args: given } = e.item.kind {
        let params = params_of(callable.item.ty@);
        args_lowered(c, cx, args, params, args.len());
        reveal_with_fuel(results_from_upto, 2);
        assert(leaves_of(Ty::Int, cx.defs).len() == 1);
        let (acc, d) = call_args_code(c, cx, args, params);
        let f = emit_args_upto(d, acc.0, acc.0.len());
        let called = emit_code(f, Op::Call { func: find_name(cx.funcs, name)->0 });
        assert(user_call_code(c, cx, name, callable.item.ty@, args) == (
            seq![called.ops.len() as usize],
            emit_code(called, Op::Result { index: 0 }),
        ));
        assert(compile_call_code(c, cx, e) == user_call_code(c, cx, name, callable.item.ty@, args));
        assert(compile_expr_multi_code(c, cx, e) == compile_call_code(c, cx, e));
    }
}

/// A call of a function of the program computes its arguments in order, calls
/// that function once, with their words in the same order, and leaves what it
/// answers.
pub proof fn a_call_hands_its_arguments_over(
    c: Code,
    cx: Env,
    e: Spanned<TypedExpr>,
    name: Seq<char>,
    args: Seq<Arg>,
    env: Names,
    fin: Code,
    ops: Seq<Op>,
    o: Outside,
    m: Machine,
) -> (k: Machine)
    requires
        calls_plainly(e, cx, name, args),
        find_name(cx.funcs, name) is Some,
        args_mean(args, env, args.len()) is Some,
        within(compile_expr_multi_code(c, cx, e).1, fin, ops),
        ready(c, m),
        held(env, fin, m),
    ensures
        ({
            let (w, d) = compile_expr_multi_code(c, cx, e);
            let (words, after) = args_mean(args, env, args.len())->0;
            let call = Called { func: find_name(cx.funcs, name)->0, args: words };
            &&& reaches(ops, o, m, k)
            &&& ready(d, k)
            &&& k.calls == m.calls.push(call)
            &&& w.len() == 1
            &&& k.val(w[0]) == (o.answers)(k.calls)[0]
            &&& held(after, fin, k)
        }),
{
    if let TypedExprKind::Call { callable, args: given } = e.item.kind {
        let params = params_of(callable.item.ty@);
        let n = args.len();
        a_call_is(c, cx, e, name, args);
        args_lowered(c, cx, args, params, n);
        let (acc, d) = call_args_upto(c, cx, args, params, n);
        let f = emit_args_upto(d, acc.0, n);
        let called = emit_code(f, Op::Call { func: find_name(cx.funcs, name)->0 });
        let g = emit_code(called, Op::Result { index: 0 });
        emit_args_extend(d, acc.0, n);
        assert(extends(f, g));
        within_before(f, g, fin, ops);
        within_before(f, f, fin, ops);
        within_before(d, f, fin, ops);
        within_before(g, g, fin, ops);
        let k1 = args_run(c, cx, args, params, n, env, fin, ops, o, m);
        let (words, after) = args_mean(args, env, n)->0;
        let k2 = arguments_run(d, acc.0, words, n, ops, o, k1);
        on_to(ops, o, m, k1, k2);
        assert(words.take(n as int) =~= words);
        let x = f.ops.len() as int;
        assert(ops[x] == g.ops[x] && ops[x + 1] == g.ops[x + 1]);
        let k3 = one_further(ops, o, m, k2);
        one_further(ops, o, m, k3)
    } else {
        m
    }
}

proof fn emit_args_extend(d: Code, vals: Seq<usize>, n: nat)
    requires
        n <= vals.len() <= usize::MAX,
    ensures
        extends(d, emit_args_upto(d, vals, n)),
    decreases n,
{
    if n > 0 {
        emit_args_extend(d, vals, (n - 1) as nat);
        extends_on(d, emit_args_upto(d, vals, (n - 1) as nat), emit_args_upto(d, vals, n));
    }
}

} // verus!
