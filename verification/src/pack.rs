//! Placing a union member's leaves into the columns of an inline union, and
//! finding leaves and roots in flattened values.
use crate::layout::{
    columns_of, heap, is_heap_ty, lays_out, leaf_types, leaves_of, payload_less, ptr_count, scalar_count,
    union_columns, union_layout, Columns, UnionLayout,
};
use crate::types::{field_tys, field_views, type_views, type_views_index, Defs, FieldView, StructDefs, Ty, Type};
use vstd::prelude::*;
use vstd::string::StringExecFns;

verus! {

/// The leaves that one member contributes to its union; none where it has
/// nothing but its tag.
pub open spec fn member_tys(member: Ty, defs: Defs) -> Seq<Ty> {
    if payload_less(member) {
        Seq::empty()
    } else {
        field_tys(leaves_of(member, defs))
    }
}

/// Whether the member's leaves can be listed.
pub open spec fn member_lays_out(member: Ty, defs: Defs) -> bool {
    payload_less(member) || lays_out(member, defs)
}

/// The types of the leaves that one member contributes to its union.
pub fn member_leaf_types(member: &Type, structs: &StructDefs) -> (r: Vec<Type>)
    requires
        member_lays_out(member@, structs@),
    ensures
        type_views(r@) == member_tys(member@, structs@),
{
    match member {
        Type::Nil | Type::Never => {
            let out: Vec<Type> = Vec::new();
            assert(type_views(out@) =~= Seq::<Ty>::empty());
            out
        },
        _ => {
            let ls = crate::layout::struct_fields(member, structs);
            leaf_types(&ls)
        },
    }
}

/// The column of leaf `i` of a member whose leaves are `ls`, and whether the
/// tag stands in the same column.
pub open spec fn slot_of(c: Columns, ls: Seq<Ty>, i: int) -> (int, bool) {
    if heap(ls[i]) {
        let slot = c.ptr_slot(ptr_count(ls.take(i)) as int);
        (slot, slot == 0 && !c.dedicated_tag)
    } else {
        (c.scalar_slot(scalar_count(ls.take(i)) as int), false)
    }
}

/// Whether the columns have room for a member whose leaves are `ls`.
pub open spec fn hosts(c: Columns, ls: Seq<Ty>) -> bool {
    &&& ptr_count(ls) <= c.ptrs
    &&& scalar_count(ls) <= c.scalars
    &&& c.dedicated_tag || c.ptrs >= 1
}

proof fn counts_step(ls: Seq<Ty>, i: int)
    requires
        0 <= i < ls.len(),
    ensures
        ptr_count(ls.take(i)) <= i,
        ptr_count(ls.take(i + 1)) == ptr_count(ls.take(i)) + if heap(ls[i]) {
            1int
        } else {
            0int
        },
    decreases i,
{
    assert(ls.take(i + 1).drop_last() =~= ls.take(i));
    if i > 0 {
        counts_step(ls, i - 1);
    }
}

proof fn counts_grow(ls: Seq<Ty>, i: int, j: int)
    requires
        0 <= i <= j <= ls.len(),
    ensures
        ptr_count(ls.take(i)) <= ptr_count(ls.take(j)) <= ptr_count(ls.take(i)) + (j - i),
        ptr_count(ls.take(j)) <= j,
    decreases j - i,
{
    if i < j {
        counts_grow(ls, i, j - 1);
        counts_step(ls, j - 1);
    } else if j > 0 {
        counts_step(ls, j - 1);
    }
}

/// The leaves of a member occupy different columns of its union: each
/// pointer one of the pointer columns, each scalar one of the scalar columns.
pub proof fn slots_are_apart(c: Columns, ls: Seq<Ty>)
    requires
        hosts(c, ls),
    ensures
        forall|i: int|
            0 <= i < ls.len() ==> if heap(ls[i]) {
                0 <= (#[trigger] slot_of(c, ls, i)).0 < c.ptr_end()
            } else {
                c.ptr_end() <= slot_of(c, ls, i).0 < c.width()
            },
        forall|i: int, j: int|
            0 <= i < j < ls.len() ==> (#[trigger] slot_of(c, ls, i)).0 != (#[trigger] slot_of(c, ls, j)).0,
{
    assert(ls.take(ls.len() as int) =~= ls);
    assert forall|i: int| 0 <= i < ls.len() implies if heap(ls[i]) {
        0 <= (#[trigger] slot_of(c, ls, i)).0 < c.ptr_end()
    } else {
        c.ptr_end() <= slot_of(c, ls, i).0 < c.width()
    } by {
        counts_step(ls, i);
        counts_grow(ls, i + 1, ls.len() as int);
    }
    assert forall|i: int, j: int| 0 <= i < j < ls.len() implies (#[trigger] slot_of(c, ls, i)).0 != (
    #[trigger] slot_of(c, ls, j)).0 by {
        counts_step(ls, i);
        counts_step(ls, j);
        counts_grow(ls, i + 1, j);
        counts_grow(ls, j + 1, ls.len() as int);
        counts_grow(ls, i + 1, ls.len() as int);
    }
}

/// The columns of an inline union have room for each of its members.
pub proof fn union_hosts_its_members(members: Seq<Seq<Ty>>, m: int)
    requires
        0 <= m < members.len(),
    ensures
        hosts(columns_of(members), members[m]),
{
    max_covers(members, m);
}

proof fn max_covers(members: Seq<Seq<Ty>>, m: int)
    requires
        0 <= m < members.len(),
    ensures
        ptr_count(members[m]) <= crate::layout::max_ptrs(members),
        scalar_count(members[m]) <= crate::layout::max_scalars(members),
    decreases members.len(),
{
    if m < members.len() - 1 {
        max_covers(members.drop_last(), m);
        assert(members.drop_last()[m] == members[m]);
    }
}

/// For each leaf, in order, its column in the enclosing inline union, and
/// whether that column's low bits also hold the tag.
pub fn leaf_slot_map(ls: &Vec<Type>, layout: &UnionLayout) -> (r: Vec<(usize, bool)>)
    requires
        layout@.ptr_end() + scalar_count(type_views(ls@)) <= usize::MAX,
    ensures
        r.len() == type_views(ls@).len(),
        forall|i: int|
            0 <= i < r.len() ==> (#[trigger] r@[i]).0 == slot_of(layout@, type_views(ls@), i).0 && r@[i].1 == slot_of(
                layout@,
                type_views(ls@),
                i,
            ).1,
{
    let ghost ts = type_views(ls@);
    proof {
        type_views_index(ls@);
    }
    let mut out: Vec<(usize, bool)> = Vec::new();
    let mut p: usize = 0;
    let mut s: usize = 0;
    let mut i: usize = 0;
    while i < ls.len()
        invariant
            i <= ls.len() == ts.len(),
            out.len() == i,
            p + s == i,
            p == ptr_count(ts.take(i as int)),
            layout@.ptr_end() + scalar_count(ts) <= usize::MAX,
            forall|k: int| 0 <= k < ls.len() ==> #[trigger] ts[k] == ls@[k]@,
            forall|k: int|
                0 <= k < i ==> (#[trigger] out@[k]).0 == slot_of(layout@, ts, k).0 && out@[k].1 == slot_of(
                    layout@,
                    ts,
                    k,
                ).1,
        decreases ls.len() - i,
    {
        proof {
            counts_step(ts, i as int);
            counts_grow(ts, i + 1, ts.len() as int);
            assert(ts.take(ts.len() as int) =~= ts);
            assert(ts.take(i as int).len() == i);
        }
        if is_heap_ty(&ls[i]) {
            let slot: usize = layout.ptr_slot(p);
            out.push((slot, slot == 0 && layout.tag_shares_slot0()));
            p = p + 1;
        } else {
            out.push((layout.scalar_slot(s), false));
            s = s + 1;
        }
        i = i + 1;
    }
    out
}

/// For each leaf of `member`, in order, its column in the enclosing inline
/// union, and whether that column's low bits also hold the tag.
pub fn member_slot_map(member: &Type, layout: &UnionLayout, structs: &StructDefs) -> (r: Vec<(usize, bool)>)
    requires
        member_lays_out(member@, structs@),
        layout@.ptr_end() + scalar_count(member_tys(member@, structs@)) <= usize::MAX,
    ensures
        r.len() == member_tys(member@, structs@).len(),
        forall|i: int|
            0 <= i < r.len() ==> (#[trigger] r@[i]).0 == slot_of(layout@, member_tys(member@, structs@), i).0 && r@[i].1
                == slot_of(layout@, member_tys(member@, structs@), i).1,
{
    let ls = member_leaf_types(member, structs);
    leaf_slot_map(&ls, layout)
}

/// The word that holds `w` together with the tag.
pub open spec fn tagged(w: i64, tag: i64) -> i64 {
    w | tag
}

/// The columns of a member whose leaves are `ls` and have the values `vals`.
pub open spec fn packs(c: Columns, ls: Seq<Ty>, tag: i64, vals: Seq<i64>, out: Seq<i64>) -> bool {
    &&& out.len() == c.width()
    &&& forall|i: int|
        0 <= i < ls.len() ==> out[(#[trigger] slot_of(c, ls, i)).0] == if slot_of(c, ls, i).1 {
            tagged(vals[i], tag)
        } else {
            vals[i]
        }
    &&& forall|k: int|
        0 <= k < c.width() && (forall|i: int| 0 <= i < ls.len() ==> (#[trigger] slot_of(c, ls, i)).0 != k)
            ==> #[trigger] out[k] == if k == 0 {
            tag
        } else {
            0i64
        }
}

/// The words of an inline union that holds a member with the leaves `ls` and
/// the words `leaf_vals`. The tag stands in column 0, in the spare bits of a
/// pointer where the member has one there; a column that the member does not
/// use holds zero.
pub fn pack_leaves(layout: &UnionLayout, leafs: &Vec<Type>, tag: u32, leaf_vals: &Vec<i64>) -> (r: Vec<i64>)
    requires
        layout@.width() <= usize::MAX,
        hosts(layout@, type_views(leafs@)),
        leaf_vals.len() == type_views(leafs@).len(),
    ensures
        packs(layout@, type_views(leafs@), tag as i64, leaf_vals@, r@),
{
    let ghost c = layout@;
    let ghost ls = type_views(leafs@);
    proof {
        slots_are_apart(c, ls);
        assert(ls.take(ls.len() as int) =~= ls);
    }
    let map = leaf_slot_map(leafs, layout);
    let width: usize = layout.width();
    let mut slots: Vec<i64> = Vec::new();
    let mut k: usize = 0;
    while k < width
        invariant
            k <= width,
            slots.len() == k,
            forall|j: int| 0 <= j < k ==> #[trigger] slots@[j] == if j == 0 {
                tag as i64
            } else {
                0i64
            },
        decreases width - k,
    {
        slots.push(if k == 0 { tag as i64 } else { 0 });
        k = k + 1;
    }
    let mut i: usize = 0;
    while i < map.len()
        invariant
            i <= map.len() == ls.len(),
            leaf_vals.len() == ls.len(),
            slots.len() == width == c.width(),
            hosts(c, ls),
            forall|j: int|
                0 <= j < map.len() ==> (#[trigger] map@[j]).0 == slot_of(c, ls, j).0 && map@[j].1 == slot_of(c, ls, j).1,
            forall|j: int| 0 <= j < ls.len() ==> 0 <= (#[trigger] slot_of(c, ls, j)).0 < c.width(),
            forall|j: int, h: int|
                0 <= j < h < ls.len() ==> (#[trigger] slot_of(c, ls, j)).0 != (#[trigger] slot_of(c, ls, h)).0,
            forall|j: int|
                0 <= j < i ==> slots@[(#[trigger] slot_of(c, ls, j)).0] == if slot_of(c, ls, j).1 {
                    tagged(leaf_vals@[j], tag as i64)
                } else {
                    leaf_vals@[j]
                },
            forall|k: int|
                0 <= k < width && (forall|j: int| 0 <= j < i ==> (#[trigger] slot_of(c, ls, j)).0 != k)
                    ==> #[trigger] slots@[k] == if k == 0 {
                    tag as i64
                } else {
                    0i64
                },
        decreases map.len() - i,
    {
        let (slot, shares_tag) = map[i];
        let w: i64 = if shares_tag { leaf_vals[i] | (tag as i64) } else { leaf_vals[i] };
        let ghost before = slots@;
        assert(slot == slot_of(c, ls, i as int).0);
        slots[slot] = w;
        proof {
            assert forall|j: int| 0 <= j < i + 1 implies slots@[(#[trigger] slot_of(c, ls, j)).0] == if slot_of(
                c,
                ls,
                j,
            ).1 {
                tagged(leaf_vals@[j], tag as i64)
            } else {
                leaf_vals@[j]
            } by {
                if j < i {
                    assert(slot_of(c, ls, j).0 != slot_of(c, ls, i as int).0);
                }
            }
            assert forall|k: int|
                0 <= k < width && (forall|j: int| 0 <= j < i + 1 ==> (#[trigger] slot_of(c, ls, j)).0 != k) implies (
            #[trigger] slots@[k]) == if k == 0 {
                tag as i64
            } else {
                0i64
            } by {
                assert(slot_of(c, ls, i as int).0 != k);
                assert(slots@[k] == before[k]);
            }
        }
        i = i + 1;
    }
    slots
}

/// The words of an inline union that holds the member of type `member_ty`
/// with the leaf words `leaf_vals`.
pub fn pack_union_member_runtime(
    members: &Vec<Type>,
    member_ty: &Type,
    tag: u32,
    leaf_vals: &Vec<i64>,
    structs: &StructDefs,
) -> (r: Vec<i64>)
    requires
        union_columns(type_views(members@), structs@) is Some,
        member_lays_out(member_ty@, structs@),
        hosts(union_columns(type_views(members@), structs@)->0, member_tys(member_ty@, structs@)),
        leaf_vals.len() == member_tys(member_ty@, structs@).len(),
    ensures
        packs(
            union_columns(type_views(members@), structs@)->0,
            member_tys(member_ty@, structs@),
            tag as i64,
            leaf_vals@,
            r@,
        ),
{
    let layout = union_layout(members, structs);
    let ls = member_leaf_types(member_ty, structs);
    pack_leaves(&layout, &ls, tag, leaf_vals)
}

/// The words of a member's leaves, read back from the columns: where the tag
/// shares a column, its three bits are masked off.
pub open spec fn unpacked(c: Columns, ls: Seq<Ty>, slots: Seq<i64>) -> Seq<i64> {
    Seq::new(
        ls.len(),
        |i: int|
            if slot_of(c, ls, i).1 {
                slots[slot_of(c, ls, i).0] & !7i64
            } else {
                slots[slot_of(c, ls, i).0]
            },
    )
}

/// The inverse of `pack_leaves`.
pub fn unpack_leaves(layout: &UnionLayout, leafs: &Vec<Type>, slots: &[i64]) -> (r: Vec<i64>)
    requires
        layout@.width() <= usize::MAX,
        hosts(layout@, type_views(leafs@)),
        slots.len() == layout@.width(),
    ensures
        r@ == unpacked(layout@, type_views(leafs@), slots@),
{
    let ghost c = layout@;
    let ghost ls = type_views(leafs@);
    proof {
        slots_are_apart(c, ls);
        assert(ls.take(ls.len() as int) =~= ls);
    }
    let map = leaf_slot_map(leafs, layout);
    let mut out: Vec<i64> = Vec::new();
    let mut i: usize = 0;
    while i < map.len()
        invariant
            i <= map.len() == ls.len(),
            slots.len() == c.width(),
            out@ =~= unpacked(c, ls, slots@).take(i as int),
            forall|j: int|
                0 <= j < map.len() ==> (#[trigger] map@[j]).0 == slot_of(c, ls, j).0 && map@[j].1 == slot_of(c, ls, j).1,
            forall|j: int| 0 <= j < ls.len() ==> 0 <= (#[trigger] slot_of(c, ls, j)).0 < c.width(),
        decreases map.len() - i,
    {
        let (slot, shares_tag) = map[i];
        assert(slot == slot_of(c, ls, i as int).0);
        out.push(if shares_tag { slots[slot] & !7i64 } else { slots[slot] });
        i = i + 1;
    }
    out
}

/// The inverse of `pack_union_member_runtime`.
pub fn unpack_union_member_runtime(
    members: &Vec<Type>,
    member_ty: &Type,
    slots: &Vec<i64>,
    structs: &StructDefs,
) -> (r: Vec<i64>)
    requires
        union_columns(type_views(members@), structs@) is Some,
        member_lays_out(member_ty@, structs@),
        hosts(union_columns(type_views(members@), structs@)->0, member_tys(member_ty@, structs@)),
        slots.len() == union_columns(type_views(members@), structs@)->0.width(),
    ensures
        r@ == unpacked(
            union_columns(type_views(members@), structs@)->0,
            member_tys(member_ty@, structs@),
            slots@,
        ),
{
    let layout = union_layout(members, structs);
    let ls = member_leaf_types(member_ty, structs);
    unpack_leaves(&layout, &ls, slots.as_slice())
}

/// A member that was packed is read back unchanged, whatever the tag from 1
/// to 6, as long as the words in pointer leaves are pointers: their low three
/// bits are clear.
pub proof fn unpack_undoes_pack(c: Columns, ls: Seq<Ty>, tag: i64, vals: Seq<i64>, slots: Seq<i64>)
    requires
        hosts(c, ls),
        vals.len() == ls.len(),
        0 < tag < 7,
        forall|i: int| 0 <= i < ls.len() && heap(#[trigger] ls[i]) ==> vals[i] & 7 == 0,
        packs(c, ls, tag, vals, slots),
    ensures
        unpacked(c, ls, slots) == vals,
{
    assert forall|i: int| 0 <= i < ls.len() implies unpacked(c, ls, slots)[i] == vals[i] by {
        let s = slot_of(c, ls, i);
        if s.1 {
            let w = vals[i];
            assert(heap(ls[i]));
            assert((w | tag) & !7i64 == w) by (bit_vector)
                requires
                    w & 7 == 0,
                    0 < tag < 7,
            ;
        }
    }
    assert(unpacked(c, ls, slots) =~= vals);
}

/// The tag of a packed member stands in the low three bits of column 0, next
/// to a pointer or alone.
pub proof fn tag_is_in_column_zero(c: Columns, ls: Seq<Ty>, tag: i64, vals: Seq<i64>, slots: Seq<i64>)
    requires
        hosts(c, ls),
        vals.len() == ls.len(),
        0 < tag < 7,
        forall|i: int| 0 <= i < ls.len() && heap(#[trigger] ls[i]) ==> vals[i] & 7 == 0,
        packs(c, ls, tag, vals, slots),
    ensures
        slots[0] & 7 == tag,
{
    slots_are_apart(c, ls);
    if exists|i: int| 0 <= i < ls.len() && (#[trigger] slot_of(c, ls, i)).0 == 0 {
        let i = choose|i: int| 0 <= i < ls.len() && (#[trigger] slot_of(c, ls, i)).0 == 0;
        let w = vals[i];
        assert(heap(ls[i]));
        assert(slots[slot_of(c, ls, i).0] == tagged(w, tag));
        assert((w | tag) & 7 == tag) by (bit_vector)
            requires
                w & 7 == 0,
                0 < tag < 7,
        ;
    } else {
        assert(slots[0] == tag);
        assert(tag & 7 == tag) by (bit_vector)
            requires
                0 < tag < 7,
        ;
    }
}


// ── Roots and masks ──────────────────────────────────────────────────────

/// The scan mask of a run of leaves: bit `i` is set where the collector reads
/// leaf `i`.
pub open spec fn mask(ls: Seq<Ty>) -> i64
    decreases ls.len(),
{
    if ls.len() == 0 {
        0
    } else if heap(ls.last()) {
        mask(ls.drop_last()) | (1i64 << ((ls.len() - 1) as u64))
    } else {
        mask(ls.drop_last())
    }
}

/// The scan mask of a run of leaves. A scalar leaf is never marked: a raw
/// integer could be mistaken for an address.
pub fn gc_mask(leafs: &Vec<Type>) -> (r: i64)
    requires
        leafs.len() <= 64,
    ensures
        r == mask(type_views(leafs@)),
{
    let ghost ts = type_views(leafs@);
    proof {
        type_views_index(leafs@);
    }
    let mut out: i64 = 0;
    let mut i: usize = 0;
    while i < leafs.len()
        invariant
            i <= leafs.len() == ts.len(),
            leafs.len() <= 64,
            forall|k: int| 0 <= k < leafs.len() ==> #[trigger] ts[k] == leafs@[k]@,
            out == mask(ts.take(i as int)),
        decreases leafs.len() - i,
    {
        proof {
            assert(ts.take(i + 1).drop_last() =~= ts.take(i as int));
        }
        if is_heap_ty(&leafs[i]) {
            out = out | (1i64 << (i as u64));
        }
        i = i + 1;
    }
    assert(ts.take(i as int) =~= ts);
    out
}

proof fn mask_bits(ls: Seq<Ty>, i: u64)
    requires
        ls.len() <= 64,
        i < 64,
    ensures
        (mask(ls) >> i) & 1 == if i < ls.len() && heap(ls[i as int]) {
            1i64
        } else {
            0i64
        },
    decreases ls.len(),
{
    if ls.len() == 0 {
        assert((0i64 >> i) & 1 == 0) by (bit_vector);
    } else {
        mask_bits(ls.drop_last(), i);
        let m = mask(ls.drop_last());
        let k = (ls.len() - 1) as u64;
        assert(((m | (1i64 << k)) >> i) & 1 == if i == k {
            1i64
        } else {
            (m >> i) & 1
        }) by (bit_vector)
            requires
                i < 64,
                k < 64,
        ;
        if i < k {
            assert(ls.drop_last()[i as int] == ls[i as int]);
        }
    }
}

/// Bit `i` of a scan mask is set exactly where leaf `i` is one that the
/// collector reads.
pub proof fn mask_marks_exactly_the_heap_leaves(ls: Seq<Ty>, i: u64)
    requires
        ls.len() <= 64,
        i < 64,
    ensures
        ((mask(ls) >> i) & 1 == 1) <==> (i < ls.len() && heap(ls[i as int])),
{
    mask_bits(ls, i);
}

/// The values among `vals` whose leaf is one that the collector reads.
pub open spec fn roots(vals: Seq<i64>, ls: Seq<FieldView>) -> Seq<i64>
    decreases vals.len(),
{
    if vals.len() == 0 || ls.len() == 0 {
        Seq::empty()
    } else if heap(ls[0].1) {
        seq![vals[0]] + roots(vals.skip(1), ls.skip(1))
    } else {
        roots(vals.skip(1), ls.skip(1))
    }
}

/// The words among `vals` that the collector has to be told of. `vals` and
/// `leaf_tys` are aligned; surplus entries of either are ignored.
pub fn heap_roots_in_leaves(vals: &[i64], leaf_tys: &[(String, Type)]) -> (r: Vec<i64>)
    ensures
        r@ == roots(vals@, field_views(leaf_tys@)),
{
    let ghost ls = field_views(leaf_tys@);
    let mut out: Vec<i64> = Vec::new();
    let mut i: usize = 0;
    proof {
        assert(vals@.skip(0) =~= vals@);
        assert(ls.skip(0) =~= ls);
        assert(out@ + roots(vals@, ls) =~= roots(vals@, ls));
    }
    while i < leaf_tys.len() && i < vals.len()
        invariant
            i <= leaf_tys.len() == ls.len(),
            i <= vals.len(),
            ls == field_views(leaf_tys@),
            out@ + roots(vals@.skip(i as int), ls.skip(i as int)) == roots(vals@, ls),
        decreases vals.len() - i,
    {
        proof {
            assert(vals@.skip(i as int).skip(1) =~= vals@.skip(i + 1));
            assert(ls.skip(i as int).skip(1) =~= ls.skip(i + 1));
        }
        let ghost before = out@;
        if is_heap_ty(&leaf_tys[i].1) {
            out.push(vals[i]);
            assert(before + (seq![vals@[i as int]] + roots(vals@.skip(i + 1), ls.skip(i + 1))) =~= out@ + roots(
                vals@.skip(i + 1),
                ls.skip(i + 1),
            ));
        }
        i = i + 1;
    }
    assert(out@ + roots(vals@.skip(i as int), ls.skip(i as int)) =~= out@);
    out
}

/// The leaves of a run of bindings that are laid out back to back.
pub open spec fn binding_leaves(bindings: Seq<FieldView>, defs: Defs) -> Seq<Ty>
    decreases bindings.len(),
{
    if bindings.len() == 0 {
        Seq::empty()
    } else {
        binding_leaves(bindings.drop_last(), defs) + field_tys(leaves_of(bindings.last().1, defs))
    }
}

/// The positions among these leaves that the collector reads, in order.
pub open spec fn heap_positions(ls: Seq<Ty>) -> Seq<int>
    decreases ls.len(),
{
    if ls.len() == 0 {
        Seq::empty()
    } else if heap(ls.last()) {
        heap_positions(ls.drop_last()).push(ls.len() - 1)
    } else {
        heap_positions(ls.drop_last())
    }
}

proof fn heap_positions_append(a: Seq<Ty>, t: Ty)
    ensures
        heap_positions(a.push(t)) == if heap(t) {
            heap_positions(a).push(a.len() as int)
        } else {
            heap_positions(a)
        },
{
    assert(a.push(t).drop_last() =~= a);
}

/// Which slots of the buffer that these bindings are written to back to back
/// are ones that the collector reads.
pub fn gc_slots_of_bindings(bindings: &[(String, Type)], structs: &StructDefs) -> (r: Vec<usize>)
    requires
        forall|i: int| 0 <= i < bindings@.len() ==> lays_out((#[trigger] bindings@[i]).1@, structs@),
        binding_leaves(field_views(bindings@), structs@).len() <= usize::MAX,
    ensures
        r@.map_values(|p: usize| p as int) == heap_positions(binding_leaves(field_views(bindings@), structs@)),
{
    let ghost bs = field_views(bindings@);
    let ghost all = binding_leaves(bs, structs@);
    let mut out: Vec<usize> = Vec::new();
    let mut cursor: usize = 0;
    let mut i: usize = 0;
    let ghost mut done: Seq<Ty> = Seq::empty();
    assert(out@.map_values(|p: usize| p as int) =~= Seq::<int>::empty());
    while i < bindings.len()
        invariant
            i <= bindings.len() == bs.len(),
            bs == field_views(bindings@),
            all == binding_leaves(bs, structs@),
            all.len() <= usize::MAX,
            forall|k: int| 0 <= k < bindings@.len() ==> lays_out((#[trigger] bindings@[k]).1@, structs@),
            done == binding_leaves(bs.take(i as int), structs@),
            cursor == done.len(),
            out@.map_values(|p: usize| p as int) == heap_positions(done),
        decreases bindings.len() - i,
    {
        let leafs = crate::layout::struct_fields(&bindings[i].1, structs);
        let ghost ls = field_tys(field_views(leafs@));
        let ghost start = done;
        proof {
            assert(bs.take(i + 1).drop_last() =~= bs.take(i as int));
            assert(bs.take(i + 1).last() == bs[i as int]);
            binding_leaves_prefix(bs, i + 1, structs@);
        }
        let mut j: usize = 0;
        assert(start + ls.take(0) =~= start);
        while j < leafs.len()
            invariant
                j <= leafs.len() == ls.len(),
                ls == field_tys(field_views(leafs@)),
                done == start + ls.take(j as int),
                cursor == done.len(),
                start.len() + ls.len() <= usize::MAX,
                out@.map_values(|p: usize| p as int) == heap_positions(done),
            decreases leafs.len() - j,
        {
            proof {
                heap_positions_append(done, ls[j as int]);
                assert(start + ls.take(j + 1) =~= done.push(ls[j as int]));
            }
            let ghost before = out@;
            if is_heap_ty(&leafs[j].1) {
                out.push(cursor);
                assert(out@.map_values(|p: usize| p as int) =~= before.map_values(|p: usize| p as int).push(
                    cursor as int,
                ));
            }
            proof {
                done = done.push(ls[j as int]);
            }
            cursor = cursor + 1;
            j = j + 1;
        }
        assert(ls.take(j as int) =~= ls);
        i = i + 1;
    }
    assert(bs.take(i as int) =~= bs);
    out
}

proof fn binding_leaves_prefix(bs: Seq<FieldView>, n: int, defs: Defs)
    requires
        0 <= n <= bs.len(),
    ensures
        binding_leaves(bs.take(n), defs).len() <= binding_leaves(bs, defs).len(),
    decreases bs.len(),
{
    if n < bs.len() {
        binding_leaves_prefix(bs.drop_last(), n, defs);
        assert(bs.drop_last().take(n) =~= bs.take(n));
    } else {
        assert(bs.take(n) =~= bs);
    }
}

} // verus!
