//! Where the fields of a struct lie among its leaves.
use crate::ir::{Code, Env};
use crate::layout::{
    below, dotted, lays_out, leaves, leaves_of, member_leaves, struct_leaves, unboxed, unvisited, unvisited_shrinks,
};
use crate::lower::{field_slice_range_code, find_field_upto, in_part, start_of};
use crate::types::{find_struct, Defs, FieldView, Ty};
use vstd::prelude::*;

verus! {

/// How many leaves the first `k` fields have.
pub open spec fn leaves_before(fs: Seq<FieldView>, defs: Defs, k: int) -> nat
    decreases k,
{
    if k <= 0 {
        0
    } else {
        leaves_before(fs, defs, k - 1) + leaves_of(fs[k - 1].1, defs).len()
    }
}

/// Whether names can be told apart in a dotted path: each is there once, and
/// none holds a point.
pub open spec fn plain_names(fs: Seq<FieldView>) -> bool {
    &&& forall|i: int| 0 <= i < fs.len() ==> !(#[trigger] fs[i]).0.contains('.')
    &&& forall|i: int, j: int| 0 <= i < j < fs.len() ==> (#[trigger] fs[i]).0 != (#[trigger] fs[j]).0
}

// ── A layout does not depend on what was entered before ──────────────────

proof fn entered_less(p: Seq<Ty>, q: Seq<Ty>, t: Ty)
    requires
        forall|x: Ty| #[trigger] p.contains(x) ==> q.contains(x),
    ensures
        forall|x: Ty| #[trigger] p.push(t).contains(x) ==> q.push(t).contains(x),
{
    assert forall|x: Ty| #[trigger] p.push(t).contains(x) implies q.push(t).contains(x) by {
        let k = choose|k: int| 0 <= k < p.push(t).len() && p.push(t)[k] == x;
        if k < p.len() {
            assert(p[k] == x);
            assert(p.contains(x));
            let j = choose|j: int| 0 <= j < q.len() && q[j] == x;
            assert(q.push(t)[j] == x);
        } else {
            assert(q.push(t)[q.len() as int] == x);
        }
    }
}

proof fn same_leaves(t: Ty, defs: Defs, p: Seq<Ty>, q: Seq<Ty>)
    requires
        forall|x: Ty| #[trigger] p.contains(x) ==> q.contains(x),
        leaves(t, defs, q) is Some,
    ensures
        leaves(t, defs, p) == leaves(t, defs, q),
    decreases unvisited(defs, q), t,
{
    if t.is_struct() {
        if let Some(fs) = find_struct(defs, t) {
            unvisited_shrinks(defs, q, t);
            entered_less(p, q, t);
            same_struct_leaves(fs, defs, p.push(t), q.push(t));
        }
    } else if let Ty::Union(ms) = t {
        if unboxed(ms, defs) {
            same_member_leaves(ms, defs, p, q);
        }
    }
}

proof fn same_struct_leaves(fs: Seq<FieldView>, defs: Defs, p: Seq<Ty>, q: Seq<Ty>)
    requires
        forall|x: Ty| #[trigger] p.contains(x) ==> q.contains(x),
        struct_leaves(fs, defs, q) is Some,
    ensures
        struct_leaves(fs, defs, p) == struct_leaves(fs, defs, q),
    decreases unvisited(defs, q), fs,
{
    if fs.len() > 0 {
        same_struct_leaves(fs.drop_last(), defs, p, q);
        same_leaves(fs.last().1, defs, p, q);
    }
}

proof fn same_member_leaves(ms: Seq<Ty>, defs: Defs, p: Seq<Ty>, q: Seq<Ty>)
    requires
        forall|x: Ty| #[trigger] p.contains(x) ==> q.contains(x),
        member_leaves(ms, defs, q) is Some,
    ensures
        member_leaves(ms, defs, p) == member_leaves(ms, defs, q),
    decreases unvisited(defs, q), ms,
{
    if ms.len() > 0 {
        same_member_leaves(ms.drop_last(), defs, p, q);
        if !crate::layout::payload_less(ms.last()) {
            same_leaves(ms.last(), defs, p, q);
        }
    }
}

// ── The leaves of a struct ───────────────────────────────────────────────

pub(crate) proof fn leaves_before_grows(fs: Seq<FieldView>, defs: Defs, j: int, k: int)
    requires
        0 <= j <= k <= fs.len(),
    ensures
        leaves_before(fs, defs, j) <= leaves_before(fs, defs, k),
    decreases k - j,
{
    if j < k {
        leaves_before_grows(fs, defs, j, k - 1);
    }
}

proof fn leaves_before_front(fs: Seq<FieldView>, defs: Defs, k: int)
    requires
        0 <= k < fs.len(),
    ensures
        leaves_before(fs.drop_last(), defs, k) == leaves_before(fs, defs, k),
    decreases k,
{
    if k > 0 {
        leaves_before_front(fs, defs, k - 1);
        assert(fs.drop_last()[k - 1] == fs[k - 1]);
    }
}

/// The leaves of the fields stand one after the other.
pub(crate) proof fn fields_stand_in_order(fs: Seq<FieldView>, defs: Defs, path: Seq<Ty>)
    requires
        struct_leaves(fs, defs, path) is Some,
    ensures
        ({
            let ls = struct_leaves(fs, defs, path)->0;
            &&& ls.len() == leaves_before(fs, defs, fs.len() as int)
            &&& forall|k: int| 0 <= k < fs.len() ==> lays_out((#[trigger] fs[k]).1, defs)
            &&& forall|k: int, i: int|
                0 <= k < fs.len() && 0 <= i < leaves_of((#[trigger] fs[k]).1, defs).len()
                    ==> #[trigger] ls[leaves_before(fs, defs, k) + i] == (
                dotted(fs[k].0, leaves_of(fs[k].1, defs)[i].0), leaves_of(fs[k].1, defs)[i].1)
        }),
    decreases fs.len(),
{
    if fs.len() > 0 {
        let front = fs.drop_last();
        let n = fs.len() - 1;
        fields_stand_in_order(front, defs, path);
        let a = struct_leaves(front, defs, path)->0;
        let b = leaves(fs.last().1, defs, path)->0;
        let ls = struct_leaves(fs, defs, path)->0;
        same_leaves(fs.last().1, defs, Seq::empty(), path);
        leaves_before_front(fs, defs, n);
        assert(leaves_of(fs[n].1, defs) == b);
        assert(ls =~= a + below(fs.last().0, b));
        assert forall|k: int| 0 <= k < fs.len() implies lays_out((#[trigger] fs[k]).1, defs) by {
            if k < n {
                assert(front[k] == fs[k]);
            }
        }
        assert forall|k: int, i: int|
            0 <= k < fs.len() && 0 <= i < leaves_of((#[trigger] fs[k]).1, defs).len() implies #[trigger] ls[leaves_before(
            fs,
            defs,
            k,
        ) + i] == (dotted(fs[k].0, leaves_of(fs[k].1, defs)[i].0), leaves_of(fs[k].1, defs)[i].1) by {
            if k < n {
                assert(front[k] == fs[k]);
                leaves_before_front(fs, defs, k);
                leaves_before_grows(front, defs, k + 1, n);
                assert(a[leaves_before(front, defs, k) + i] == (
                    dotted(front[k].0, leaves_of(front[k].1, defs)[i].0),
                    leaves_of(front[k].1, defs)[i].1,
                ));
            } else {
                assert(ls[a.len() + i] == below(fs.last().0, b)[i]);
            }
        }
    }
}

/// Every leaf belongs to a field.
proof fn field_of_a_leaf(fs: Seq<FieldView>, defs: Defs, p: int) -> (k: int)
    requires
        0 <= p < leaves_before(fs, defs, fs.len() as int),
    ensures
        0 <= k < fs.len(),
        leaves_before(fs, defs, k) <= p < leaves_before(fs, defs, k + 1),
{
    field_up_to(fs, defs, p, fs.len() as int)
}

proof fn field_up_to(fs: Seq<FieldView>, defs: Defs, p: int, n: int) -> (k: int)
    requires
        0 <= n <= fs.len(),
        0 <= p < leaves_before(fs, defs, n),
    ensures
        0 <= k < n,
        leaves_before(fs, defs, k) <= p < leaves_before(fs, defs, k + 1),
    decreases n,
{
    if p < leaves_before(fs, defs, n - 1) {
        field_up_to(fs, defs, p, n - 1)
    } else {
        n - 1
    }
}

// ── Dotted paths ─────────────────────────────────────────────────────────

/// A path below the field `g` is not below another field `f`.
proof fn other_fields_stay_out(f: Seq<char>, g: Seq<char>, sub: Seq<char>, rest: Seq<char>)
    requires
        !f.contains('.'),
        !g.contains('.'),
        f != g,
    ensures
        !in_part(dotted(g, sub), dotted(f, rest)),
{
    let leaf = dotted(g, sub);
    let part = dotted(f, rest);
    if leaf == part || part.push('.').is_prefix_of(leaf) {
        let n = f.len() as int;
        assert forall|i: int| 0 <= i < n implies leaf[i] == #[trigger] f[i] by {
            assert(part[i] == f[i]);
            if leaf != part {
                assert(part.push('.')[i] == leaf.subrange(0, part.len() as int + 1)[i]);
            }
        }
        if g.len() < n {
            if sub.len() > 0 {
                assert(leaf[g.len() as int] == '.');
                assert(f[g.len() as int] == '.');
            }
            assert(false);
        } else if g.len() > n {
            assert(leaf[n] == g[n]);
            if leaf == part {
                if rest.len() > 0 {
                    assert(part[n] == '.');
                }
            } else {
                assert(part.push('.')[n] == '.');
                assert(part.push('.')[n] == leaf.subrange(0, part.len() as int + 1)[n]);
            }
            assert(g[n] == '.');
            assert(false);
        } else {
            assert forall|i: int| 0 <= i < n implies g[i] == #[trigger] f[i] by {
                assert(leaf[i] == g[i]);
            }
            assert(f =~= g);
        }
    }
}

/// A field's own leaves are in the part that it names.
proof fn own_leaves_are_in(f: Seq<char>, sub: Seq<char>)
    ensures
        in_part(dotted(f, sub), f),
{
    if sub.len() > 0 {
        assert(f.push('.') =~= dotted(f, sub).subrange(0, f.len() as int + 1));
    }
}

/// Below a field, a longer path says what its rest says of the field.
proof fn below_a_field(f: Seq<char>, sub: Seq<char>, rest: Seq<char>)
    requires
        rest.len() > 0,
    ensures
        in_part(dotted(f, sub), dotted(f, rest)) == in_part(sub, rest),
{
    let leaf = dotted(f, sub);
    let part = dotted(f, rest);
    let n = f.len() as int + 1;
    assert(part.subrange(n, part.len() as int) =~= rest);
    if sub.len() > 0 {
        assert(leaf.subrange(n, leaf.len() as int) =~= sub);
    }
    if leaf == part {
        if sub.len() == 0 {
            assert(leaf.len() < part.len());
        }
    }
    if part.push('.').is_prefix_of(leaf) {
        let m = rest.len() as int + 1;
        assert(leaf.len() >= part.len() + 1);
        assert(sub.len() >= m);
        assert forall|i: int| 0 <= i < m implies #[trigger] rest.push('.')[i] == sub.subrange(0, m)[i] by {
            assert(part.push('.')[n + i] == leaf.subrange(0, part.len() as int + 1)[n + i]);
            assert(leaf[n + i] == sub[i]);
        }
        assert(rest.push('.') =~= sub.subrange(0, m));
    }
    if rest.push('.').is_prefix_of(sub) {
        assert forall|i: int| 0 <= i < part.len() + 1 implies #[trigger] part.push('.')[i] == leaf.subrange(
            0,
            part.len() as int + 1,
        )[i] by {
            if i >= n {
                assert(rest.push('.')[i - n] == sub.subrange(0, rest.len() as int + 1)[i - n]);
            }
        }
        assert(part.push('.') =~= leaf.subrange(0, part.len() as int + 1));
    }
}

/// Where the first leaf of a part is: every leaf before it is outside.
proof fn first_is_the_start(ls: Seq<FieldView>, part: Seq<char>, i: int, s: int)
    requires
        0 <= i <= s < ls.len() <= usize::MAX,
        in_part(ls[s].0, part),
        forall|j: int| i <= j < s ==> !in_part((#[trigger] ls[j]).0, part),
    ensures
        start_of(ls, part, i) == Some(s as usize),
    decreases s - i,
{
    if i < s {
        assert(!in_part(ls[i].0, part));
        first_is_the_start(ls, part, i + 1, s);
    }
}

// ── Laws ─────────────────────────────────────────────────────────────────

/// The leaves that belong to a declared field stand together, from where the
/// fields before it end, and no others belong to it.
pub proof fn a_field_is_one_run(t: Ty, defs: Defs, fs: Seq<FieldView>, k: int)
    requires
        t.is_struct(),
        find_struct(defs, t) == Some(fs),
        lays_out(t, defs),
        plain_names(fs),
        0 <= k < fs.len(),
    ensures
        ({
            let ls = leaves_of(t, defs);
            let own = leaves_of(fs[k].1, defs);
            let s = leaves_before(fs, defs, k);
            &&& s + own.len() <= ls.len()
            &&& forall|p: int|
                0 <= p < ls.len() ==> (in_part((#[trigger] ls[p]).0, fs[k].0) <==> s <= p < s + own.len())
            &&& forall|i: int|
                0 <= i < own.len() ==> ls[s + i] == (dotted(fs[k].0, (#[trigger] own[i]).0), own[i].1)
        }),
{
    let ls = leaves_of(t, defs);
    let own = leaves_of(fs[k].1, defs);
    let s = leaves_before(fs, defs, k) as int;
    let f = fs[k].0;
    fields_stand_in_order(fs, defs, Seq::empty().push(t));
    leaves_before_grows(fs, defs, k + 1, fs.len() as int);
    assert forall|p: int| 0 <= p < ls.len() implies (in_part((#[trigger] ls[p]).0, f) <==> s <= p < s + own.len()) by {
        let j = field_of_a_leaf(fs, defs, p);
        let i = p - leaves_before(fs, defs, j);
        let sub = leaves_of(fs[j].1, defs)[i].0;
        assert(ls[leaves_before(fs, defs, j) + i].0 == dotted(fs[j].0, sub));
        if j == k {
            own_leaves_are_in(f, sub);
        } else {
            if j < k {
                leaves_before_grows(fs, defs, j + 1, k);
                assert(fs[j].0 != fs[k].0);
            } else {
                leaves_before_grows(fs, defs, k + 1, j);
                assert(fs[k].0 != fs[j].0);
            }
            other_fields_stay_out(f, fs[j].0, sub, Seq::empty());
        }
    }
    assert forall|i: int| 0 <= i < own.len() implies ls[s + i] == (dotted(f, (#[trigger] own[i]).0), own[i].1) by {
        assert(ls[leaves_before(fs, defs, k) + i] == (dotted(fs[k].0, own[i].0), own[i].1));
    }
}

proof fn found_where_it_is(c: Code, cx: Env, fs: Seq<FieldView>, k: int, n: nat)
    requires
        0 <= k < fs.len() <= usize::MAX,
        n <= fs.len(),
        plain_names(fs),
        forall|i: int| 0 <= i < fs.len() ==> lays_out((#[trigger] fs[i]).1, cx.defs),
        leaves_before(fs, cx.defs, fs.len() as int) <= usize::MAX,
    ensures
        ({
            let (acc, d) = find_field_upto(c, cx, fs, fs[k].0, 0, n);
            &&& d == c
            &&& n <= k ==> acc == (None::<usize>, leaves_before(fs, cx.defs, n as int) as usize)
            &&& n > k ==> acc == (Some(k as usize), leaves_before(fs, cx.defs, k) as usize)
        }),
    decreases n,
{
    if n > 0 {
        found_where_it_is(c, cx, fs, k, (n - 1) as nat);
        let i = n - 1;
        assert(lays_out(fs[i].1, cx.defs));
        leaves_before_grows(fs, cx.defs, n as int, fs.len() as int);
        if i < k {
            assert(fs[i].0 != fs[k].0);
        }
    }
}

/// The two ways to find a declared field agree: by its place among the fields,
/// and by the path of its leaves.
pub proof fn both_ways_find_a_field(c: Code, cx: Env, t: Ty, fs: Seq<FieldView>, k: int)
    requires
        t.is_struct(),
        find_struct(cx.defs, t) == Some(fs),
        lays_out(t, cx.defs),
        plain_names(fs),
        0 <= k < fs.len() <= usize::MAX,
        leaves_of(t, cx.defs).len() <= usize::MAX,
        leaves_of(fs[k].1, cx.defs).len() > 0,
    ensures
        ({
            let s = leaves_before(fs, cx.defs, k) as usize;
            &&& field_slice_range_code(c, cx, t, fs[k].0) == ((s, leaves_of(fs[k].1, cx.defs).len() as usize), c)
            &&& start_of(leaves_of(t, cx.defs), fs[k].0, 0) == Some(s)
        }),
{
    let ls = leaves_of(t, cx.defs);
    let s = leaves_before(fs, cx.defs, k) as int;
    fields_stand_in_order(fs, cx.defs, Seq::empty().push(t));
    a_field_is_one_run(t, cx.defs, fs, k);
    found_where_it_is(c, cx, fs, k, fs.len());
    assert(lays_out(fs[k].1, cx.defs));
    assert(in_part(ls[s].0, fs[k].0));
    first_is_the_start(ls, fs[k].0, 0, s);
}

/// A longer path names, within a field, what its rest names there: the leaves
/// are the same, moved by where the field starts.
pub proof fn a_longer_path_adds_up(t: Ty, defs: Defs, fs: Seq<FieldView>, k: int, rest: Seq<char>)
    requires
        t.is_struct(),
        find_struct(defs, t) == Some(fs),
        lays_out(t, defs),
        plain_names(fs),
        0 <= k < fs.len(),
        leaves_of(t, defs).len() <= usize::MAX,
        rest.len() > 0,
    ensures
        ({
            let ls = leaves_of(t, defs);
            let own = leaves_of(fs[k].1, defs);
            let s = leaves_before(fs, defs, k);
            let path = dotted(fs[k].0, rest);
            &&& forall|p: int|
                0 <= p < ls.len() ==> (in_part((#[trigger] ls[p]).0, path) <==> s <= p < s + own.len() && in_part(
                    own[p - s].0,
                    rest,
                ))
            &&& start_of(own, rest, 0) matches Some(a) ==> start_of(ls, path, 0) == Some((s + a) as usize)
        }),
{
    let ls = leaves_of(t, defs);
    let own = leaves_of(fs[k].1, defs);
    let s = leaves_before(fs, defs, k) as int;
    let path = dotted(fs[k].0, rest);
    fields_stand_in_order(fs, defs, Seq::empty().push(t));
    a_field_is_one_run(t, defs, fs, k);
    assert forall|p: int| 0 <= p < ls.len() implies (in_part((#[trigger] ls[p]).0, path) <==> s <= p < s + own.len()
        && in_part(own[p - s].0, rest)) by {
        let j = field_of_a_leaf(fs, defs, p);
        let i = p - leaves_before(fs, defs, j);
        let sub = leaves_of(fs[j].1, defs)[i].0;
        assert(ls[leaves_before(fs, defs, j) + i].0 == dotted(fs[j].0, sub));
        if j == k {
            below_a_field(fs[k].0, sub, rest);
        } else {
            if j < k {
                leaves_before_grows(fs, defs, j + 1, k);
                assert(fs[j].0 != fs[k].0);
            } else {
                leaves_before_grows(fs, defs, k + 1, j);
                assert(fs[k].0 != fs[j].0);
            }
            other_fields_stay_out(fs[k].0, fs[j].0, sub, rest);
        }
    }
    if let Some(a) = start_of(own, rest, 0) {
        start_is_first(own, rest, 0);
        assert(in_part(ls[s + a].0, path));
        assert forall|p: int| 0 <= p < s + a implies !in_part((#[trigger] ls[p]).0, path) by {
            if s <= p {
                assert(!in_part(own[p - s].0, rest));
            }
        }
        first_is_the_start(ls, path, 0, s + a);
    }
}

proof fn start_is_first(ls: Seq<FieldView>, part: Seq<char>, i: int)
    requires
        0 <= i,
        ls.len() <= usize::MAX,
    ensures
        start_of(ls, part, i) matches Some(s) ==> i <= s < ls.len() && in_part(ls[s as int].0, part) && forall|j: int|
            i <= j < s ==> !in_part((#[trigger] ls[j]).0, part),
    decreases ls.len() - i,
{
    if i < ls.len() && !in_part(ls[i].0, part) {
        start_is_first(ls, part, i + 1);
    }
}

} // verus!
