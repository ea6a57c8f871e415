//! What the write barrier does: a shared object is copied before it is written
//! to, and any other is not.
use crate::emit::{mark_shared_code, unshare_code};
use crate::ir::{find_name, ClType, Code, Env, Field, Op};
use crate::machine::{begins_at, enters, here, one_further, reaches, Called, Machine, Outside};
use vstd::prelude::*;

verus! {

/// Whether `ops` begins with the operations of `c`.
pub open spec fn starts_with(ops: Seq<Op>, c: Code) -> bool {
    c.ops.len() <= ops.len() && forall|i: int| 0 <= i < c.ops.len() ==> #[trigger] ops[i] == c.ops[i]
}

/// Whether the machine is about to run what comes after `c`.
pub open spec fn behind(c: Code, m: Machine) -> bool {
    m.at == c.ops.len() && m.args.len() == 0 && m.other.len() == 0
}

/// Whether the flag of the object that `val` points to says that it is shared.
pub open spec fn shared(m: Machine, val: usize) -> bool {
    m.mem[(m.val(val), Field::Shared)] != 0
}

/// What the barrier leaves in `out`, when it has run from `m` to `k`: of a
/// shared object the answer of the one call that was made, of `frog_clone` on
/// that object; otherwise the object itself, and memory as it was.
pub open spec fn guarded(cx: Env, val: usize, o: Outside, m: Machine, out: usize, k: Machine) -> bool {
    if shared(m, val) {
        let copy = Called { func: find_name(cx.funcs, "frog_clone"@)->0, args: seq![m.val(val)] };
        &&& k.calls == m.calls.push(copy)
        &&& k.val(out) == (o.answers)(k.calls)[0]
        &&& k.mem == (o.leaves)(k.calls, m.mem)
    } else {
        &&& k.calls == m.calls
        &&& k.val(out) == m.val(val)
        &&& k.mem == m.mem
    }
}

/// Running the barrier.
pub proof fn the_barrier_copies_what_is_shared(
    c: Code,
    cx: Env,
    val: usize,
    allowed: i64,
    ops: Seq<Op>,
    o: Outside,
    m: Machine,
) -> (k: Machine)
    requires
        !cx.verify,
        find_name(cx.funcs, "frog_clone"@) is Some,
        val < c.ops.len(),
        behind(c, m),
        starts_with(ops, unshare_code(c, cx, val, allowed).1),
        unshare_code(c, cx, val, allowed).1.ops.len() <= usize::MAX,
    ensures
        reaches(ops, o, m, k),
        behind(unshare_code(c, cx, val, allowed).1, k),
        guarded(cx, val, o, m, unshare_code(c, cx, val, allowed).0, k),
        k.vars == m.vars,
        forall|i: int| 0 <= i < c.ops.len() ==> #[trigger] k.vals[i] == m.vals[i],
{
    let n = c.ops.len() as int;
    let d = unshare_code(c, cx, val, allowed).1;
    let clone = find_name(cx.funcs, "frog_clone"@)->0;
    assert(d.ops.len() == n + 21);
    assert forall|i: int| n <= i < n + 21 implies #[trigger] ops[i] == d.ops[i] by {}
    let copy_bb = (n + 1) as usize;
    let keep_bb = (n + 2) as usize;
    let done_bb = (n + 3) as usize;
    let out = (n + 4) as usize;
    assert(ops[n] == (Op::Load { ty: ClType::I8, base: val, at: Field::Shared }));
    assert(ops[n + 1] == Op::Block && ops[n + 2] == Op::Block && ops[n + 3] == Op::Block);
    assert(ops[n + 4] == (Op::BlockParam { block: done_bb, ty: ClType::I64 }));
    assert(ops[n + 5] == (Op::Brif { cond: n as usize, yes: copy_bb, no: keep_bb }));
    assert(ops[n + 6] == (Op::Switch { block: keep_bb }));
    assert(ops[n + 7] == (Op::Seal { block: keep_bb }));
    assert(ops[n + 8] == (Op::Arg { val }));
    assert(ops[n + 9] == (Op::Jump { block: done_bb }));
    assert(ops[n + 10] == (Op::Switch { block: copy_bb }));
    assert(ops[n + 11] == (Op::Seal { block: copy_bb }));
    assert(ops[n + 12] == (Op::Arg { val }));
    assert(ops[n + 13] == (Op::Call { func: clone }));
    assert(ops[n + 14] == (Op::Result { index: 0 }));
    assert(ops[n + 15] == (Op::GcValue { val: (n + 14) as usize }));
    assert(ops[n + 16] == (Op::Arg { val: (n + 14) as usize }));
    assert(ops[n + 17] == (Op::Jump { block: done_bb }));
    assert(ops[n + 18] == (Op::Switch { block: done_bb }));
    assert(ops[n + 19] == (Op::Seal { block: done_bb }));
    assert(ops[n + 20] == (Op::GcValue { val: out }));
    the_barrier_runs(ops, o, m, val, clone)
}

/// The operations of the barrier, from `m.at` on, run.
proof fn the_barrier_runs(ops: Seq<Op>, o: Outside, m: Machine, val: usize, clone: usize) -> (k: Machine)
    requires
        m.args.len() == 0,
        m.other.len() == 0,
        val < m.at,
        m.at + 21 <= ops.len(),
        m.at + 21 <= usize::MAX,
        ({
            let n = m.at;
            let copy_bb = (n + 1) as usize;
            let keep_bb = (n + 2) as usize;
            let done_bb = (n + 3) as usize;
            &&& ops[n] == (Op::Load { ty: ClType::I8, base: val, at: Field::Shared })
            &&& ops[n + 1] == Op::Block && ops[n + 2] == Op::Block && ops[n + 3] == Op::Block
            &&& ops[n + 4] == (Op::BlockParam { block: done_bb, ty: ClType::I64 })
            &&& ops[n + 5] == (Op::Brif { cond: n as usize, yes: copy_bb, no: keep_bb })
            &&& ops[n + 6] == (Op::Switch { block: keep_bb })
            &&& ops[n + 7] == (Op::Seal { block: keep_bb })
            &&& ops[n + 8] == (Op::Arg { val })
            &&& ops[n + 9] == (Op::Jump { block: done_bb })
            &&& ops[n + 10] == (Op::Switch { block: copy_bb })
            &&& ops[n + 11] == (Op::Seal { block: copy_bb })
            &&& ops[n + 12] == (Op::Arg { val })
            &&& ops[n + 13] == (Op::Call { func: clone })
            &&& ops[n + 14] == (Op::Result { index: 0 })
            &&& ops[n + 15] == (Op::GcValue { val: (n + 14) as usize })
            &&& ops[n + 16] == (Op::Arg { val: (n + 14) as usize })
            &&& ops[n + 17] == (Op::Jump { block: done_bb })
            &&& ops[n + 18] == (Op::Switch { block: done_bb })
            &&& ops[n + 19] == (Op::Seal { block: done_bb })
            &&& ops[n + 20] == (Op::GcValue { val: (n + 4) as usize })
        }),
    ensures
        reaches(ops, o, m, k),
        k.at == m.at + 21,
        k.args.len() == 0,
        k.other.len() == 0,
        k.vars == m.vars,
        forall|i: int| 0 <= i < m.at ==> #[trigger] k.vals[i] == m.vals[i],
        shared(m, val) ==> {
            let copy = Called { func: clone, args: seq![m.val(val)] };
            &&& k.calls == m.calls.push(copy)
            &&& k.vals[m.at + 4] == (o.answers)(k.calls)[0]
            &&& k.mem == (o.leaves)(k.calls, m.mem)
        },
        !shared(m, val) ==> k.calls == m.calls && k.vals[m.at + 4] == m.val(val) && k.mem == m.mem,
{
    let n = m.at;
    let copy_bb = (n + 1) as usize;
    let keep_bb = (n + 2) as usize;
    let done_bb = (n + 3) as usize;
    here(ops, o, m);
    let m1 = one_further(ops, o, m, m);
    let m2 = one_further(ops, o, m, m1);
    let m3 = one_further(ops, o, m, m2);
    let m4 = one_further(ops, o, m, m3);
    let m5 = one_further(ops, o, m, m4);
    let m6 = one_further(ops, o, m, m5);
    assert(begins_at(ops, copy_bb, -1, n + 10));
    assert(begins_at(ops, keep_bb, -1, n + 6));
    assert(begins_at(ops, done_bb, n + 4, n + 18));
    assert(m5.args =~= Seq::empty());
    assert(m5.other =~= Seq::empty());
    if shared(m, val) {
        enters(ops, m5, copy_bb, -1, n + 10, m5.args);
        let a1 = one_further(ops, o, m, m6);
        let a2 = one_further(ops, o, m, a1);
        assert(a2.args =~= seq![m.val(val)]);
        let a3 = one_further(ops, o, m, a2);
        let a4 = one_further(ops, o, m, a3);
        let a5 = one_further(ops, o, m, a4);
        let a6 = one_further(ops, o, m, a5);
        enters(ops, a6, done_bb, n + 4, n + 18, a6.args);
        let a7 = one_further(ops, o, m, a6);
        let a8 = one_further(ops, o, m, a7);
        one_further(ops, o, m, a8)
    } else {
        enters(ops, m5, keep_bb, -1, n + 6, m5.other);
        let b1 = one_further(ops, o, m, m6);
        let b2 = one_further(ops, o, m, b1);
        enters(ops, b2, done_bb, n + 4, n + 18, b2.args);
        let b3 = one_further(ops, o, m, b2);
        let b4 = one_further(ops, o, m, b3);
        one_further(ops, o, m, b4)
    }
}

/// Marking an object as shared sets its flag, and nothing else in memory.
pub proof fn marking_sets_the_flag(c: Code, val: usize, ops: Seq<Op>, o: Outside, m: Machine) -> (k: Machine)
    requires
        val < c.ops.len(),
        behind(c, m),
        starts_with(ops, mark_shared_code(c, val)),
        mark_shared_code(c, val).ops.len() <= usize::MAX,
    ensures
        reaches(ops, o, m, k),
        behind(mark_shared_code(c, val), k),
        shared(k, val),
        k.mem == m.mem.insert((m.val(val), Field::Shared), 1),
        k.vars == m.vars,
        k.calls == m.calls,
        forall|i: int| 0 <= i < c.ops.len() ==> #[trigger] k.vals[i] == m.vals[i],
{
    let n = c.ops.len() as int;
    let d = mark_shared_code(c, val);
    assert(d.ops.len() == n + 2);
    assert(ops[n] == d.ops[n]);
    assert(ops[n + 1] == d.ops[n + 1]);
    here(ops, o, m);
    let m1 = one_further(ops, o, m, m);
    one_further(ops, o, m, m1)
}

/// What is written through the word that the barrier left does not show in an
/// object that was shared, as long as copies are objects of their own.
pub proof fn a_write_spares_what_is_shared(
    cx: Env,
    val: usize,
    o: Outside,
    m: Machine,
    out: usize,
    k: Machine,
    at: Field,
    word: i64,
    part: Field,
)
    requires
        shared(m, val),
        guarded(cx, val, o, m, out, k),
        (o.answers)(k.calls)[0] != m.val(val),
        (o.leaves)(k.calls, m.mem)[(m.val(val), part)] == m.mem[(m.val(val), part)],
    ensures
        k.mem.insert((k.val(out), at), word)[(m.val(val), part)] == m.mem[(m.val(val), part)],
{
}

} // verus!
