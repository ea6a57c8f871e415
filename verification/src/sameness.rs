//! What the code of `==` computes: two values of a type made of numbers, truth
//! values and structs of such are equal exactly where all their words are.
use crate::ir::{emit_code, BinOp, Code, Env, Op};
use crate::layout::{unvisited, unvisited_shrinks};
use crate::machine::{flag, here, on_to, one_further, reaches, Machine, Outside};
use crate::meaning::starts;
use crate::running::ready;
use crate::show::{eq_fields_upto, eq_value_code};
use crate::types::{find_struct, Defs, FieldView, Ty};
use vstd::prelude::*;

verus! {

/// Whether the type is made of numbers, truth values and structs of such. `seen`
/// are the structs around it.
pub open spec fn flat(ty: Ty, defs: Defs, seen: Seq<Ty>) -> bool
    decreases unvisited(defs, seen), ty, 1int, 0nat,
{
    if ty.is_struct() {
        match find_struct(defs, ty) {
            Some(fields) => if seen.contains(ty) {
                false
            } else {
                proof {
                    unvisited_shrinks(defs, seen, ty);
                }
                flat_fields(fields, defs, seen.push(ty), fields.len())
            },
            None => false,
        }
    } else {
        ty is Int || ty is Bool
    }
}

pub open spec fn flat_fields(fields: Seq<FieldView>, defs: Defs, seen: Seq<Ty>, n: nat) -> bool
    decreases unvisited(defs, seen), fields, 0int, n,
{
    n > 0 && n <= fields.len() ==> flat_fields(fields, defs, seen, (n - 1) as nat) && flat(fields[n - 1].1, defs, seen)
}

/// How many words such a value has: a number or a truth value one, a struct
/// those of its fields.
pub open spec fn width(ty: Ty, defs: Defs, seen: Seq<Ty>) -> nat
    decreases unvisited(defs, seen), ty, 1int, 0nat,
{
    if ty.is_struct() {
        match find_struct(defs, ty) {
            Some(fields) => if seen.contains(ty) {
                0
            } else {
                proof {
                    unvisited_shrinks(defs, seen, ty);
                }
                fields_width(fields, defs, seen.push(ty), fields.len())
            },
            None => 0,
        }
    } else {
        1
    }
}

pub open spec fn fields_width(fields: Seq<FieldView>, defs: Defs, seen: Seq<Ty>, n: nat) -> nat
    decreases unvisited(defs, seen), fields, 0int, n,
{
    if n > 0 && n <= fields.len() {
        fields_width(fields, defs, seen, (n - 1) as nat) + width(fields[n - 1].1, defs, seen)
    } else {
        0
    }
}

/// Whether the words from `from` to `to` hold the same.
pub open spec fn alike(m: Machine, l: Seq<usize>, r: Seq<usize>, from: int, to: int) -> bool {
    forall|i: int| from <= i < to ==> m.val(#[trigger] l[i]) == m.val(r[i])
}

/// Whether the words from `from` to `to` are there, and older than `c`'s end.
pub open spec fn present(c: Code, l: Seq<usize>, r: Seq<usize>, from: int, to: int) -> bool {
    &&& 0 <= from <= to <= l.len()
    &&& to <= r.len()
    &&& to <= usize::MAX
    &&& forall|i: int| from <= i < to ==> (#[trigger] l[i]) < c.ops.len() && r[i] < c.ops.len()
}

proof fn starts_on(a: Seq<Op>, b: Seq<Op>, c: Seq<Op>)
    requires
        starts(b, a),
        starts(c, b),
    ensures
        starts(c, a),
{
    assert forall|i: int| 0 <= i < a.len() implies #[trigger] c[i] == a[i] by {
        assert(b[i] == a[i]);
    }
}

// ── The code ─────────────────────────────────────────────────────────────

/// The code goes on after `c`, and the words after those of the value come next.
proof fn equality_goes_on(c: Code, cx: Env, ty: Ty, l: Seq<usize>, r: Seq<usize>, at: usize, seen: Seq<Ty>)
    requires
        flat(ty, cx.defs, seen),
        present(c, l, r, at as int, at + width(ty, cx.defs, seen)),
    ensures
        ({
            let ((v, next), d) = eq_value_code(c, cx, ty, l, r, at, seen);
            &&& starts(d.ops, c.ops)
            &&& next == at + width(ty, cx.defs, seen)
        }),
    decreases unvisited(cx.defs, seen), ty, 4int, 0nat,
{
    if ty.is_struct() {
        unvisited_shrinks(cx.defs, seen, ty);
        let fields = find_struct(cx.defs, ty)->0;
        fields_go_on(c, cx, fields, l, r, at, seen.push(ty), fields.len());
    }
}

proof fn fields_go_on(
    c: Code,
    cx: Env,
    fields: Seq<FieldView>,
    l: Seq<usize>,
    r: Seq<usize>,
    at: usize,
    seen: Seq<Ty>,
    n: nat,
)
    requires
        n <= fields.len(),
        flat_fields(fields, cx.defs, seen, n),
        present(c, l, r, at as int, at + fields_width(fields, cx.defs, seen, n)),
    ensures
        ({
            let ((v, next), d) = eq_fields_upto(c, cx, fields, l, r, at, seen, n);
            &&& starts(d.ops, c.ops)
            &&& next == at + fields_width(fields, cx.defs, seen, n)
            &&& v is Some <==> n > 0
        }),
    decreases unvisited(cx.defs, seen), fields, 1int, n,
{
    if n > 0 {
        fields_go_on(c, cx, fields, l, r, at, seen, (n - 1) as nat);
        let ((acc, mid), d) = eq_fields_upto(c, cx, fields, l, r, at, seen, (n - 1) as nat);
        equality_goes_on(d, cx, fields[n - 1].1, l, r, mid, seen);
        let (sub, e) = eq_value_code(d, cx, fields[n - 1].1, l, r, mid, seen);
        starts_on(c.ops, d.ops, e.ops);
        if acc is Some {
            let f = emit_code(e, Op::Binary { op: BinOp::Band, a: acc->0, b: sub.0 });
            starts_on(c.ops, e.ops, f.ops);
        }
    }
}

// ── Running it ───────────────────────────────────────────────────────────

/// Whether running from `m` came to `k` after `d`, with nothing older than `c`
/// changed, and left in `v` whether the words are alike.
pub open spec fn told(
    c: Code,
    d: Code,
    v: usize,
    l: Seq<usize>,
    r: Seq<usize>,
    from: int,
    to: int,
    m: Machine,
    k: Machine,
) -> bool {
    &&& v < d.ops.len()
    &&& k.val(v) == flag(alike(m, l, r, from, to))
    &&& kept(c, d, m, k)
}

pub open spec fn kept(c: Code, d: Code, m: Machine, k: Machine) -> bool {
    &&& ready(d, k)
    &&& k.vars == m.vars
    &&& k.mem == m.mem
    &&& k.calls == m.calls
    &&& forall|i: int| 0 <= i < c.ops.len() ==> #[trigger] k.vals[i] == m.vals[i]
}

proof fn both_flags(a: bool, b: bool)
    ensures
        flag(a) & flag(b) == flag(a && b),
{
    assert(0i64 & 0i64 == 0 && 0i64 & 1i64 == 0 && 1i64 & 0i64 == 0 && 1i64 & 1i64 == 1) by (bit_vector);
}

/// The code of `==` on two values of such a type leaves whether all their words
/// are the same.
pub proof fn values_are_equal_where_all_words_are(
    c: Code,
    cx: Env,
    ty: Ty,
    l: Seq<usize>,
    r: Seq<usize>,
    at: usize,
    seen: Seq<Ty>,
    ops: Seq<Op>,
    o: Outside,
    m: Machine,
) -> (k: Machine)
    requires
        flat(ty, cx.defs, seen),
        present(c, l, r, at as int, at + width(ty, cx.defs, seen)),
        ready(c, m),
        ({
            let d = eq_value_code(c, cx, ty, l, r, at, seen).1;
            starts(ops, d.ops) && d.ops.len() <= usize::MAX
        }),
    ensures
        ({
            let ((v, next), d) = eq_value_code(c, cx, ty, l, r, at, seen);
            &&& reaches(ops, o, m, k)
            &&& told(c, d, v, l, r, at as int, at + width(ty, cx.defs, seen), m, k)
        }),
    decreases unvisited(cx.defs, seen), ty, 4int, 0nat,
{
    let ((v, next), d) = eq_value_code(c, cx, ty, l, r, at, seen);
    let n = c.ops.len() as int;
    here(ops, o, m);
    if ty.is_struct() {
        unvisited_shrinks(cx.defs, seen, ty);
        let fields = find_struct(cx.defs, ty)->0;
        let more = seen.push(ty);
        fields_go_on(c, cx, fields, l, r, at, more, fields.len());
        let ((all, _), e) = eq_fields_upto(c, cx, fields, l, r, at, more, fields.len());
        starts_on(e.ops, d.ops, ops);
        let k = fields_are_told(c, cx, fields, l, r, at, more, fields.len(), ops, o, m);
        if all is Some {
            k
        } else {
            let z = e.ops.len() as int;
            assert(ops[z] == d.ops[z]);
            assert(alike(m, l, r, at as int, at as int));
            one_further(ops, o, m, k)
        }
    } else {
        assert(ops[n] == d.ops[n]);
        let k = one_further(ops, o, m, m);
        assert(alike(m, l, r, at as int, at + 1) <==> m.val(l[at as int]) == m.val(r[at as int]));
        k
    }
}

proof fn fields_are_told(
    c: Code,
    cx: Env,
    fields: Seq<FieldView>,
    l: Seq<usize>,
    r: Seq<usize>,
    at: usize,
    seen: Seq<Ty>,
    n: nat,
    ops: Seq<Op>,
    o: Outside,
    m: Machine,
) -> (k: Machine)
    requires
        n <= fields.len(),
        flat_fields(fields, cx.defs, seen, n),
        present(c, l, r, at as int, at + fields_width(fields, cx.defs, seen, n)),
        ready(c, m),
        ({
            let d = eq_fields_upto(c, cx, fields, l, r, at, seen, n).1;
            starts(ops, d.ops) && d.ops.len() <= usize::MAX
        }),
    ensures
        ({
            let ((v, next), d) = eq_fields_upto(c, cx, fields, l, r, at, seen, n);
            &&& reaches(ops, o, m, k)
            &&& kept(c, d, m, k)
            &&& v matches Some(w) ==> told(
                c,
                d,
                w,
                l,
                r,
                at as int,
                at + fields_width(fields, cx.defs, seen, n),
                m,
                k,
            )
        }),
    decreases unvisited(cx.defs, seen), fields, 1int, n,
{
    here(ops, o, m);
    if n == 0 {
        m
    } else {
        let ty = fields[n - 1].1;
        let ((acc, mid), d) = eq_fields_upto(c, cx, fields, l, r, at, seen, (n - 1) as nat);
        let (sub, e) = eq_value_code(d, cx, ty, l, r, mid, seen);
        let ((v, next), f) = eq_fields_upto(c, cx, fields, l, r, at, seen, n);
        fields_go_on(c, cx, fields, l, r, at, seen, (n - 1) as nat);
        equality_goes_on(d, cx, ty, l, r, mid, seen);
        starts_on(e.ops, f.ops, ops);
        starts_on(d.ops, e.ops, ops);
        let k1 = fields_are_told(c, cx, fields, l, r, at, seen, (n - 1) as nat, ops, o, m);
        let k2 = values_are_equal_where_all_words_are(d, cx, ty, l, r, mid, seen, ops, o, k1);
        on_to(ops, o, m, k1, k2);
        the_rest_is_alike(c, l, r, at as int, mid as int, next as int, m, k1);
        if acc is Some {
            let z = e.ops.len() as int;
            assert(ops[z] == f.ops[z]);
            let k3 = one_further(ops, o, m, k2);
            assert(k2.vals[acc->0 as int] == k1.vals[acc->0 as int]);
            both_flags(alike(m, l, r, at as int, mid as int), alike(m, l, r, mid as int, next as int));
            k3
        } else {
            k2
        }
    }
}

proof fn the_rest_is_alike(
    c: Code,
    l: Seq<usize>,
    r: Seq<usize>,
    from: int,
    mid: int,
    to: int,
    m: Machine,
    k: Machine,
)
    requires
        from <= mid <= to,
        present(c, l, r, from, to),
        forall|i: int| 0 <= i < c.ops.len() ==> #[trigger] k.vals[i] == m.vals[i],
    ensures
        alike(k, l, r, mid, to) == alike(m, l, r, mid, to),
        alike(m, l, r, from, to) == (alike(m, l, r, from, mid) && alike(m, l, r, mid, to)),
{
    assert forall|i: int| mid <= i < to implies k.val(#[trigger] l[i]) == m.val(l[i]) && k.val(r[i]) == m.val(r[i]) by {
        assert(from <= i < to);
        assert(l[i] < c.ops.len());
        assert(r[i] < c.ops.len());
        assert(k.vals[l[i] as int] == m.vals[l[i] as int]);
        assert(k.vals[r[i] as int] == m.vals[r[i] as int]);
    }
    if alike(m, l, r, from, mid) && alike(m, l, r, mid, to) {
        assert forall|i: int| from <= i < to implies m.val(#[trigger] l[i]) == m.val(r[i]) by {
            if i < mid {
                assert(m.val(l[i]) == m.val(r[i]));
            }
        }
    }
    if alike(k, l, r, mid, to) {
        assert forall|i: int| mid <= i < to implies m.val(#[trigger] l[i]) == m.val(r[i]) by {
            assert(k.val(l[i]) == k.val(r[i]));
        }
    }
    if alike(m, l, r, mid, to) {
        assert forall|i: int| mid <= i < to implies k.val(#[trigger] l[i]) == k.val(r[i]) by {
            assert(m.val(l[i]) == m.val(r[i]));
        }
    }
}

} // verus!
