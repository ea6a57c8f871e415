//! Printing and comparing values: code that follows the static type.
use crate::emit::{
    declare_gc_leaves, declare_gc_leaves_code, emit_tag_test, emit_tag_test_code, from_i64_repr, from_i64_repr_code,
    iconst, iconst_code, list_slot_addr, list_slot_addr_code, list_stride, list_stride_code, min_len, min_nat,
    read_variant_slots, read_variant_slots_code, to_i64_repr, to_i64_repr_code,
};
use crate::ir::{
    at, at_code, byte_len, emit, emit_code, fail, fail_code, invoke, invoke_code, leaf_list, leaves_code, put,
    put_code, slice, slice_code, str_addr, str_addr_code, text_bytes, BinOp, Builder, ClType, Code, Conv, Ctx, Env,
    Fault, Field, Op, Test,
};
use crate::layout::{
    leaf_types, payload_less, ptr_count_bound, try_union_layout, type_views_push, unboxed, union_columns,
    union_is_inline, unvisited, unvisited_shrinks,
};
use crate::pack::{member_lays_out, member_leaf_types, member_slot_map, member_tys, slot_of};
use crate::text::{decimal, decimal_of, same_text};
use crate::types::{
    field_tys, field_views, find_members, find_struct, struct_ty, type_views, type_views_index, FieldView, Ty, Type,
    UnionDef, UnionView,
};
use vstd::prelude::*;
use vstd::string::StringExecFns;

verus! {

// ── Columns ──────────────────────────────────────────────────────────────

/// The column of each leaf of a member, and whether the tag shares it.
pub open spec fn slot_map_code(c: Code, cx: Env, members: Seq<Ty>, member: Ty) -> (Seq<(usize, bool)>, Code) {
    let ls = member_tys(member, cx.defs);
    match union_columns(members, cx.defs) {
        Some(cols) => if member_lays_out(member, cx.defs) && cols.ptr_end() + ls.len() <= usize::MAX {
            (Seq::new(ls.len(), |i: int| (slot_of(cols, ls, i).0 as usize, slot_of(cols, ls, i).1)), c)
        } else {
            (Seq::empty(), fail_code(c, Fault::NoLayout))
        },
        None => (Seq::empty(), fail_code(c, Fault::NoLayout)),
    }
}

pub(crate) fn slot_map(b: &mut Builder, cx: &Ctx, members: &Vec<Type>, member: &Type) -> (r: Vec<(usize, bool)>)
    ensures
        (r@, final(b)@) == slot_map_code(old(b)@, cx@, type_views(members@), member@),
{
    let none: Vec<(usize, bool)> = Vec::new();
    match try_union_layout(members, cx.structs) {
        Some(layout) => {
            let ok = match member {
                Type::Nil | Type::Never => true,
                _ => crate::layout::flatten(member, cx.structs).is_some(),
            };
            if ok {
                let ls = member_leaf_types(member, cx.structs);
                proof {
                    type_views_index(ls@);
                    ptr_count_bound(type_views(ls@));
                }
                if layout.ptr_end() <= usize::MAX - ls.len() {
                    let map = member_slot_map(member, &layout, cx.structs);
                    proof {
                        assert(map@ =~= slot_map_code(b@, cx@, type_views(members@), member@).0);
                    }
                    return map;
                }
            }
        },
        None => {},
    }
    fail(b, Fault::NoLayout);
    assert(none@ =~= Seq::<(usize, bool)>::empty());
    none
}

/// The types of a member's leaves.
pub open spec fn member_words_code(c: Code, cx: Env, member: Ty) -> (Seq<Ty>, Code) {
    if member_lays_out(member, cx.defs) {
        (member_tys(member, cx.defs), c)
    } else {
        (Seq::empty(), fail_code(c, Fault::NoLayout))
    }
}

pub(crate) fn member_words(b: &mut Builder, cx: &Ctx, member: &Type) -> (r: Vec<Type>)
    ensures
        (type_views(r@), final(b)@) == member_words_code(old(b)@, cx@, member@),
{
    let ok = match member {
        Type::Nil | Type::Never => true,
        _ => crate::layout::flatten(member, cx.structs).is_some(),
    };
    if ok {
        member_leaf_types(member, cx.structs)
    } else {
        fail(b, Fault::NoLayout);
        let none: Vec<Type> = Vec::new();
        assert(type_views(none@) =~= Seq::<Ty>::empty());
        none
    }
}

/// How many columns the inline union of these members has.
pub open spec fn union_width_code(c: Code, cx: Env, members: Seq<Ty>) -> (usize, Code) {
    match union_columns(members, cx.defs) {
        Some(cols) => (cols.width() as usize, c),
        None => (0, fail_code(c, Fault::NoLayout)),
    }
}

pub(crate) fn union_width(b: &mut Builder, cx: &Ctx, members: &Vec<Type>) -> (r: usize)
    ensures
        (r, final(b)@) == union_width_code(old(b)@, cx@, type_views(members@)),
{
    match try_union_layout(members, cx.structs) {
        Some(layout) => layout.width(),
        None => {
            fail(b, Fault::NoLayout);
            0
        },
    }
}

pub(crate) fn copy_vals(v: &Vec<usize>) -> (r: Vec<usize>)
    ensures
        r@ == v@,
{
    let mut out: Vec<usize> = Vec::new();
    let mut i: usize = 0;
    while i < v.len()
        invariant
            i <= v.len(),
            out@ =~= v@.take(i as int),
        decreases v.len() - i,
    {
        out.push(v[i]);
        i = i + 1;
    }
    assert(v@.take(i as int) =~= v@);
    out
}

/// `s` with another value at position `k`, where it has one.
pub open spec fn update_in(s: Seq<usize>, k: usize, v: usize) -> Seq<usize> {
    if k < s.len() {
        s.update(k as int, v)
    } else {
        s
    }
}

fn updated(s: Vec<usize>, k: usize, v: usize) -> (r: Vec<usize>)
    ensures
        r@ == update_in(s@, k, v),
{
    let mut out = s;
    if k < out.len() {
        out[k] = v;
    }
    out
}

/// Whether a leaf stands in column 0.
pub open spec fn slot_zero_used(map: Seq<(usize, bool)>) -> bool {
    exists|i: int| 0 <= i < map.len() && (#[trigger] map[i]).0 == 0
}

fn has_slot_zero(map: &Vec<(usize, bool)>) -> (r: bool)
    ensures
        r == slot_zero_used(map@),
{
    let mut i: usize = 0;
    while i < map.len()
        invariant
            i <= map.len(),
            forall|k: int| 0 <= k < i ==> (#[trigger] map@[k]).0 != 0,
        decreases map.len() - i,
    {
        if map[i].0 == 0 {
            assert(map@[i as int].0 == 0);
            return true;
        }
        i = i + 1;
    }
    false
}

/// Columns that hold nothing but the tag.
pub open spec fn blank_columns(width: usize, tag: usize, zero: usize) -> Seq<usize> {
    Seq::new(
        width as nat,
        |k: int|
            if k == 0 {
                tag
            } else {
                zero
            },
    )
}

fn empty_columns(width: usize, tag: usize, zero: usize) -> (r: Vec<usize>)
    ensures
        r@ == blank_columns(width, tag, zero),
{
    let mut out: Vec<usize> = Vec::new();
    let mut k: usize = 0;
    while k < width
        invariant
            k <= width,
            out@ =~= blank_columns(width, tag, zero).take(k as int),
        decreases width - k,
    {
        out.push(if k == 0 { tag } else { zero });
        k = k + 1;
    }
    assert(blank_columns(width, tag, zero).take(k as int) =~= blank_columns(width, tag, zero));
    out
}

// ── Types under way ──────────────────────────────────────────────────────

/// The position `n` further on.
pub open spec fn beyond(k: usize, n: usize) -> usize {
    if k <= usize::MAX - n {
        (k + n) as usize
    } else {
        usize::MAX
    }
}

pub(crate) fn past(k: usize, n: usize) -> (r: usize)
    ensures
        r == beyond(k, n),
{
    if k <= usize::MAX - n {
        k + n
    } else {
        usize::MAX
    }
}

/// Whether the variant carries nothing but its tag.
pub open spec fn unit_variant(def: UnionView, tag: u32) -> bool {
    def.common.len() == 0 && tag < def.variants.len() && def.variants[tag as int].1.len() == 0
}

fn target_is_unit(def: &UnionDef, tag: u32) -> (r: bool)
    ensures
        r == unit_variant(def@, tag),
{
    def.common.len() == 0 && (tag as usize) < def.variants.len() && def.variants[tag as usize].1.len() == 0
}

/// Whether some variant carries nothing but its tag.
pub open spec fn has_unit_variant(def: UnionView) -> bool {
    def.common.len() == 0 && exists|i: int| 0 <= i < def.variants.len() && (#[trigger] def.variants[i]).1.len() == 0
}

fn any_unit(def: &UnionDef) -> (r: bool)
    ensures
        r == has_unit_variant(def@),
{
    if def.common.len() != 0 {
        return false;
    }
    let mut i: usize = 0;
    while i < def.variants.len()
        invariant
            i <= def.variants.len() == def@.variants.len(),
            def@.common.len() == 0,
            forall|k: int| 0 <= k < i ==> (#[trigger] def@.variants[k]).1.len() != 0,
        decreases def.variants.len() - i,
    {
        assert(def@.variants[i as int].1.len() == def.variants@[i as int].1@.len());
        if def.variants[i].1.len() == 0 {
            return true;
        }
        i = i + 1;
    }
    false
}

pub open spec fn nil_member(members: Seq<Ty>, index: usize) -> bool {
    index < members.len() && members[index as int] is Nil
}

fn member_is_nil(members: &Vec<Type>, index: usize) -> (r: bool)
    ensures
        r == nil_member(type_views(members@), index),
{
    proof {
        type_views_index(members@);
    }
    index < members.len() && is_nil(&members[index])
}

pub open spec fn has_nil(members: Seq<Ty>) -> bool {
    members.contains(Ty::Nil)
}

pub(crate) fn any_nil(members: &Vec<Type>) -> (r: bool)
    ensures
        r == has_nil(type_views(members@)),
{
    contains_type(members, &Type::Nil)
}

pub(crate) fn is_nil(ty: &Type) -> (r: bool)
    ensures
        r == ty@ is Nil,
{
    match ty {
        Type::Nil => true,
        _ => false,
    }
}

pub(crate) fn is_payload_less(ty: &Type) -> (r: bool)
    ensures
        r == payload_less(ty@),
{
    match ty {
        Type::Nil | Type::Never => true,
        _ => false,
    }
}

/// Whether a value of this type is one machine word that is no pointer.
pub open spec fn scalar(ty: Ty) -> bool {
    ty is Int || ty is Float || ty is Bool
}

fn is_scalar(ty: &Type) -> (r: bool)
    ensures
        r == scalar(ty@),
{
    match ty {
        Type::Int | Type::Float | Type::Bool => true,
        _ => false,
    }
}

pub(crate) fn contains_type(types: &Vec<Type>, ty: &Type) -> (r: bool)
    ensures
        r == type_views(types@).contains(ty@),
{
    proof {
        type_views_index(types@);
    }
    let mut i: usize = 0;
    while i < types.len()
        invariant
            i <= types.len() == type_views(types@).len(),
            forall|k: int| 0 <= k < types.len() ==> #[trigger] type_views(types@)[k] == types@[k]@,
            forall|k: int| 0 <= k < i ==> #[trigger] type_views(types@)[k] != ty@,
        decreases types.len() - i,
    {
        if types[i].same(ty) {
            assert(type_views(types@)[i as int] == ty@);
            return true;
        }
        i = i + 1;
    }
    false
}

fn with_type(types: &Vec<Type>, ty: &Type) -> (r: Vec<Type>)
    ensures
        type_views(r@) == type_views(types@).push(ty@),
{
    let mut out = crate::types::clone_types(types);
    let t = ty.dup();
    proof {
        type_views_push(out@, t);
    }
    out.push(t);
    out
}

fn contains_union(types: &Vec<Type>, members: &Vec<Type>) -> (r: bool)
    ensures
        r == type_views(types@).contains(Ty::Union(type_views(members@))),
{
    contains_type(types, &Type::Union(crate::types::clone_types(members)))
}

fn with_union(types: &Vec<Type>, members: &Vec<Type>) -> (r: Vec<Type>)
    ensures
        type_views(r@) == type_views(types@).push(Ty::Union(type_views(members@))),
{
    with_type(types, &Type::Union(crate::types::clone_types(members)))
}

fn struct_head(ty: &Type) -> (r: String)
    requires
        ty@.is_struct(),
    ensures
        r@ == ty@->Named_0.push('('),
{
    let mut out = ty.as_struct_name().unwrap().clone();
    out.push('(');
    out
}

/// Whether fields are named by their positions.
pub open spec fn positional(fs: Seq<FieldView>) -> bool {
    forall|i: int| 0 <= i < fs.len() ==> (#[trigger] fs[i]).0 == decimal(i as nat)
}

/// Whether fields were declared by position rather than by name.
pub fn is_positional_fields(fs: &Vec<(String, Type)>) -> (r: bool)
    ensures
        r == positional(field_views(fs@)),
{
    let ghost v = field_views(fs@);
    let mut i: usize = 0;
    while i < fs.len()
        invariant
            i <= fs.len() == v.len(),
            v == field_views(fs@),
            forall|k: int| 0 <= k < i ==> (#[trigger] v[k]).0 == decimal(k as nat),
        decreases fs.len() - i,
    {
        let d = decimal_of(i);
        assert(v[i as int].0 == fs@[i as int].0@);
        if !same_text(fs[i].0.as_str(), d.as_str()) {
            return false;
        }
        i = i + 1;
    }
    true
}

fn field_label(name: &String) -> (r: String)
    ensures
        r@ == name@.push('='),
{
    let mut out = name.clone();
    out.push('=');
    out
}

pub open spec fn opt_union(d: Option<&UnionDef>) -> Option<UnionView> {
    match d {
        Some(x) => Some(x@),
        None => None,
    }
}

/// The nominal union whose declared order tags this one: a boxed union that
/// has a name.
pub open spec fn nominal(members: Seq<Ty>, inlined: bool, unions: Seq<UnionView>) -> Option<UnionView> {
    if inlined {
        None
    } else {
        find_members(unions, members)
    }
}

fn nominal_of<'a>(members: &Vec<Type>, inlined: bool, cx: &'a Ctx) -> (r: Option<&'a UnionDef>)
    ensures
        opt_union(r) == nominal(type_views(members@), inlined, cx@.unions),
{
    if inlined {
        None
    } else {
        cx.unions.resolve(members)
    }
}

/// The struct type of a nominal union's variant.
pub open spec fn variant_struct(union_name: Seq<char>, variant: Seq<char>) -> Ty {
    struct_ty(union_name.push('.') + variant)
}

pub(crate) fn variant_struct_type(union_name: &str, variant: &str) -> (r: Type)
    ensures
        r@ == variant_struct(union_name@, variant@),
{
    let mut name = crate::text::owned(union_name);
    name.push('.');
    name.append(variant);
    Type::strukt(name)
}

pub open spec fn variant_ty(def: UnionView, i: int) -> Ty {
    variant_struct(def.name, def.variants[i].0)
}

fn variant_type(def: &UnionDef, i: usize) -> (r: Type)
    requires
        i < def.variants.len(),
    ensures
        r@ == variant_ty(def@, i as int),
{
    variant_struct_type(def.name.as_str(), def.variants[i].0.as_str())
}

/// The position of a type among others.
pub open spec fn index_of_type(ts: Seq<Ty>, t: Ty) -> Option<usize> {
    if ts.contains(t) {
        Some(ts.index_of_first(t)->0 as usize)
    } else {
        None
    }
}

pub(crate) fn find_type(types: &Vec<Type>, ty: &Type) -> (r: Option<usize>)
    ensures
        r == index_of_type(type_views(types@), ty@),
{
    let ghost ts = type_views(types@);
    proof {
        type_views_index(types@);
    }
    let mut i: usize = 0;
    while i < types.len()
        invariant
            i <= types.len() == ts.len(),
            ts == type_views(types@),
            forall|k: int| 0 <= k < types.len() ==> #[trigger] ts[k] == types@[k]@,
            forall|k: int| 0 <= k < i ==> #[trigger] ts[k] != ty@,
        decreases types.len() - i,
    {
        if types[i].same(ty) {
            proof {
                assert(ts[i as int] == ty@);
                ts.index_of_first_ensures(ty@);
            }
            return Some(i);
        }
        i = i + 1;
    }
    None
}

// ── Emission ─────────────────────────────────────────────────────────────

pub open spec fn nominal_cases_upto(c: Code, members: Seq<Ty>, def: UnionView, n: nat) -> (Seq<(usize, u32)>, Code)
    decreases n,
{
    if n == 0 {
        (Seq::<(usize, u32)>::empty(), c)
    } else {
        let (out, c) = nominal_cases_upto(c, members, def, (n - 1) as nat);
        let i = (n - 1) as usize;
        let (entry, c) = match index_of_type(members, variant_ty(def, i as int)) {
            Some(k) => {
                ((k, i as u32), c)
            },
            None => {
                let c = fail_code(c, Fault::UnknownVariant);
                ((0, i as u32), c)
            },
        };
        let out = out.push(entry);
        (out, c)
    }
}

/// The members of a nominal union in the order in which its variants are declared.
pub open spec fn nominal_cases_code(c: Code, members: Seq<Ty>, def: UnionView) -> (Seq<(usize, u32)>, Code) {
    nominal_cases_upto(c, members, def, def.variants.len())
}

pub(crate) fn nominal_cases(b: &mut Builder, members: &Vec<Type>, def: &UnionDef) -> (r: Vec<(usize, u32)>)
    ensures
        (r@, final(b)@) == nominal_cases_code(old(b)@, type_views(members@), def@),
{
    proof {
        type_views_index(members@);
    }
    let total: usize = def.variants.len();
    let mut out = Vec::new();
    let mut i: usize = 0;
    while i < total
        invariant
            i <= total,
            total == def@.variants.len(),
            type_views(members@).len() == members.len(),
            forall|k: int| 0 <= k < members.len() ==> #[trigger] type_views(members@)[k] == members@[k]@,
            (out@, b@) == nominal_cases_upto(old(b)@, type_views(members@), def@, i as nat),
        decreases total - i,
    {
        let entry = match find_type(members, &variant_type(def, i)) {
            Some(k) => {
                (k, i as u32)
            },
            None => {
                fail(b, Fault::UnknownVariant);
                (0, i as u32)
            },
        };
        out.push(entry);
        i = i + 1;
    }
    out
}

pub open spec fn plain_cases_upto(c: Code, members: Seq<Ty>, n: nat) -> (Seq<(usize, u32)>, Code)
    decreases n,
{
    if n == 0 {
        (Seq::<(usize, u32)>::empty(), c)
    } else {
        let (out, c) = plain_cases_upto(c, members, (n - 1) as nat);
        let i = (n - 1) as usize;
        let out = out.push((i, i as u32));
        (out, c)
    }
}

/// The members in their own order.
pub open spec fn plain_cases_code(c: Code, members: Seq<Ty>) -> (Seq<(usize, u32)>, Code) {
    plain_cases_upto(c, members, members.len())
}

pub(crate) fn plain_cases(b: &mut Builder, members: &Vec<Type>) -> (r: Vec<(usize, u32)>)
    ensures
        (r@, final(b)@) == plain_cases_code(old(b)@, type_views(members@)),
{
    proof {
        type_views_index(members@);
    }
    let total: usize = members.len();
    let mut out = Vec::new();
    let mut i: usize = 0;
    while i < total
        invariant
            i <= total,
            total == type_views(members@).len(),
            type_views(members@).len() == members.len(),
            forall|k: int| 0 <= k < members.len() ==> #[trigger] type_views(members@)[k] == members@[k]@,
            (out@, b@) == plain_cases_upto(old(b)@, type_views(members@), i as nat),
        decreases total - i,
    {
        out.push((i, i as u32));
        i = i + 1;
    }
    out
}

/// The members of a union, each with the tag that tells it apart at run time. A
/// boxed nominal union is tagged by the order in which its variants are
/// declared, every other union by the order of its members.
pub open spec fn dispatch_cases_code(c: Code, cx: Env, members: Seq<Ty>, inlined: bool) -> (Seq<(usize, u32)>, Code) {
    match nominal(members, inlined, cx.unions) {
        Some(def) => {
            nominal_cases_code(c, members, def)
        },
        None => {
            plain_cases_code(c, members)
        },
    }
}

pub(crate) fn dispatch_cases(b: &mut Builder, cx: &Ctx, members: &Vec<Type>, inlined: bool) -> (r: Vec<(usize, u32)>)
    ensures
        (r@, final(b)@) == dispatch_cases_code(old(b)@, cx@, type_views(members@), inlined),
{
    match nominal_of(members, inlined, cx) {
        Some(def) => {
            nominal_cases(b, members, def)
        },
        None => {
            plain_cases(b, members)
        },
    }
}

/// Tests at run time whether an inline union holds the member at this position:
/// its tag stands in the low bits of column 0.
pub open spec fn inline_tag_test_code(c: Code, slots: Seq<usize>, tag: u32) -> (usize, Code) {
    let (first, c) = at_code(c, slots, 0);
    let (tag_bits, c) = put_code(c, Op::BinaryImm { op: BinOp::Band, a: first, imm: 7 });
    put_code(c, Op::CompareImm { test: Test::Equal, a: tag_bits, imm: (tag + 1) as i64 })
}

pub(crate) fn inline_tag_test(b: &mut Builder, slots: &Vec<usize>, tag: u32) -> (r: usize)
    ensures
        (r, final(b)@) == inline_tag_test_code(old(b)@, slots@, tag),
{
    let first: usize = at(b, slots, 0);
    let tag_bits: usize = put(b, Op::BinaryImm { op: BinOp::Band, a: first, imm: 7 });
    put(b, Op::CompareImm { test: Test::Equal, a: tag_bits, imm: tag as i64 + 1 })
}

pub open spec fn unpack_words_upto(
    c: Code,
    map: Seq<(usize, bool)>,
    tys: Seq<Ty>,
    slots: Seq<usize>,
    n: nat,
) -> (Seq<usize>, Code)
    decreases n,
{
    if n == 0 {
        (Seq::<usize>::empty(), c)
    } else {
        let (out, c) = unpack_words_upto(c, map, tys, slots, (n - 1) as nat);
        let i = (n - 1) as usize;
        let (held, c) = at_code(c, slots, map[i as int].0);
        let (w, c) = if map[i as int].1 {
            let (plain, c) = put_code(c, Op::BinaryImm { op: BinOp::Band, a: held, imm: -8i64 });
            let c = emit_code(c, Op::GcValue { val: plain });
            (plain, c)
        } else {
            (held, c)
        };
        let (v, c) = from_i64_repr_code(c, tys[i as int], w);
        let out = out.push(v);
        (out, c)
    }
}

/// The words of a member, taken from the columns. Where the tag shares a column
/// it is masked off, which makes a new root.
pub open spec fn unpack_words_code(
    c: Code,
    map: Seq<(usize, bool)>,
    tys: Seq<Ty>,
    slots: Seq<usize>,
) -> (Seq<usize>, Code) {
    unpack_words_upto(c, map, tys, slots, min_nat(map.len(), tys.len()))
}

pub(crate) fn unpack_words(
    b: &mut Builder,
    map: &Vec<(usize, bool)>,
    tys: &Vec<Type>,
    slots: &Vec<usize>,
) -> (r: Vec<usize>)
    ensures
        (r@, final(b)@) == unpack_words_code(old(b)@, map@, type_views(tys@), slots@),
{
    proof {
        type_views_index(tys@);
    }
    let total: usize = min_len(map.len(), tys.len());
    let mut out = Vec::new();
    let mut i: usize = 0;
    while i < total
        invariant
            i <= total,
            total == min_nat(map@.len(), type_views(tys@).len()),
            type_views(tys@).len() == tys.len(),
            forall|k: int| 0 <= k < tys.len() ==> #[trigger] type_views(tys@)[k] == tys@[k]@,
            (out@, b@) == unpack_words_upto(old(b)@, map@, type_views(tys@), slots@, i as nat),
        decreases total - i,
    {
        let held: usize = at(b, slots, map[i].0);
        let w = if map[i].1 {
            let plain: usize = put(b, Op::BinaryImm { op: BinOp::Band, a: held, imm: -8 });
            emit(b, Op::GcValue { val: plain });
            plain
        } else {
            held
        };
        let v: usize = from_i64_repr(b, &tys[i], w);
        out.push(v);
        i = i + 1;
    }
    out
}

/// The leaves of a member that an inline union is known to hold.
pub open spec fn unpack_union_member_code(
    c: Code,
    cx: Env,
    members: Seq<Ty>,
    member: Ty,
    slots: Seq<usize>,
) -> (Seq<usize>, Code) {
    let (map, c) = slot_map_code(c, cx, members, member);
    let (tys, c) = member_words_code(c, cx, member);
    unpack_words_code(c, map, tys, slots)
}

pub(crate) fn unpack_union_member(
    b: &mut Builder,
    cx: &Ctx,
    members: &Vec<Type>,
    member: &Type,
    slots: &Vec<usize>,
) -> (r: Vec<usize>)
    ensures
        (r@, final(b)@) == unpack_union_member_code(old(b)@, cx@, type_views(members@), member@, slots@),
{
    let map = slot_map(b, cx, members, member);
    let tys = member_words(b, cx, member);
    unpack_words(b, &map, &tys, slots)
}

pub open spec fn pack_words_upto(
    c: Code,
    map: Seq<(usize, bool)>,
    tys: Seq<Ty>,
    vals: Seq<usize>,
    tag: u32,
    n: nat,
) -> (Seq<usize>, Code)
    decreases n,
{
    if n == 0 {
        (Seq::<usize>::empty(), c)
    } else {
        let (out, c) = pack_words_upto(c, map, tys, vals, tag, (n - 1) as nat);
        let i = (n - 1) as usize;
        let (own, c) = at_code(c, vals, i);
        let (wire, c) = to_i64_repr_code(c, tys[i as int], own);
        let (w, c) = if map[i as int].1 {
            let (both, c) = put_code(c, Op::BinaryImm { op: BinOp::Bor, a: wire, imm: tag as i64 });
            let c = emit_code(c, Op::GcValue { val: both });
            (both, c)
        } else {
            (wire, c)
        };
        let out = out.push(w);
        (out, c)
    }
}

/// The words of a member as they stand in the columns. Where the tag shares a
/// column it is added, which makes a new root.
pub open spec fn pack_words_code(
    c: Code,
    map: Seq<(usize, bool)>,
    tys: Seq<Ty>,
    vals: Seq<usize>,
    tag: u32,
) -> (Seq<usize>, Code) {
    pack_words_upto(c, map, tys, vals, tag, min_nat(map.len(), tys.len()))
}

pub(crate) fn pack_words(
    b: &mut Builder,
    map: &Vec<(usize, bool)>,
    tys: &Vec<Type>,
    vals: &Vec<usize>,
    tag: u32,
) -> (r: Vec<usize>)
    ensures
        (r@, final(b)@) == pack_words_code(old(b)@, map@, type_views(tys@), vals@, tag),
{
    proof {
        type_views_index(tys@);
    }
    let total: usize = min_len(map.len(), tys.len());
    let mut out = Vec::new();
    let mut i: usize = 0;
    while i < total
        invariant
            i <= total,
            total == min_nat(map@.len(), type_views(tys@).len()),
            type_views(tys@).len() == tys.len(),
            forall|k: int| 0 <= k < tys.len() ==> #[trigger] type_views(tys@)[k] == tys@[k]@,
            (out@, b@) == pack_words_upto(old(b)@, map@, type_views(tys@), vals@, tag, i as nat),
        decreases total - i,
    {
        let own: usize = at(b, vals, i);
        let wire: usize = to_i64_repr(b, &tys[i], own);
        let w = if map[i].1 {
            let both: usize = put(b, Op::BinaryImm { op: BinOp::Bor, a: wire, imm: tag as i64 });
            emit(b, Op::GcValue { val: both });
            both
        } else {
            wire
        };
        out.push(w);
        i = i + 1;
    }
    out
}

pub open spec fn place_words_upto(
    c: Code,
    map: Seq<(usize, bool)>,
    words: Seq<usize>,
    empty: Seq<usize>,
    n: nat,
) -> (Seq<usize>, Code)
    decreases n,
{
    if n == 0 {
        (empty, c)
    } else {
        let (out, c) = place_words_upto(c, map, words, empty, (n - 1) as nat);
        let i = (n - 1) as usize;
        let out = update_in(out, map[i as int].0, words[i as int]);
        (out, c)
    }
}

/// Each word in its column.
pub open spec fn place_words_code(
    c: Code,
    map: Seq<(usize, bool)>,
    words: Seq<usize>,
    empty: Seq<usize>,
) -> (Seq<usize>, Code) {
    place_words_upto(c, map, words, empty, min_nat(map.len(), words.len()))
}

pub(crate) fn place_words(
    b: &mut Builder,
    map: &Vec<(usize, bool)>,
    words: &Vec<usize>,
    empty: &Vec<usize>,
) -> (r: Vec<usize>)
    ensures
        (r@, final(b)@) == place_words_code(old(b)@, map@, words@, empty@),
{
    let total: usize = min_len(map.len(), words.len());
    let mut out = copy_vals(empty);
    let mut i: usize = 0;
    while i < total
        invariant
            i <= total,
            total == min_nat(map@.len(), words@.len()),
            (out@, b@) == place_words_upto(old(b)@, map@, words@, empty@, i as nat),
        decreases total - i,
    {
        out = updated(out, map[i].0, words[i]);
        i = i + 1;
    }
    out
}

/// The columns of an inline union that holds this member. The tag stands alone
/// in column 0 where no pointer does, and every column that the member does not
/// use is zero.
pub open spec fn pack_union_member_code(
    c: Code,
    cx: Env,
    members: Seq<Ty>,
    member: Ty,
    tag: u32,
    vals: Seq<usize>,
) -> (Seq<usize>, Code) {
    let (map, c) = slot_map_code(c, cx, members, member);
    let (tys, c) = member_words_code(c, cx, member);
    let (width, c) = union_width_code(c, cx, members);
    let (words, c) = pack_words_code(c, map, tys, vals, tag);
    let (tag_val, c) = if slot_zero_used(map) {
        (0usize, c)
    } else {
        iconst_code(c, ClType::I64, tag as i64)
    };
    let (zero, c) = iconst_code(c, ClType::I64, 0);
    let empty = blank_columns(width, tag_val, zero);
    place_words_code(c, map, words, empty)
}

pub(crate) fn pack_union_member(
    b: &mut Builder,
    cx: &Ctx,
    members: &Vec<Type>,
    member: &Type,
    tag: u32,
    vals: &Vec<usize>,
) -> (r: Vec<usize>)
    ensures
        (r@, final(b)@) == pack_union_member_code(old(b)@, cx@, type_views(members@), member@, tag, vals@),
{
    let map = slot_map(b, cx, members, member);
    let tys = member_words(b, cx, member);
    let width: usize = union_width(b, cx, members);
    let words = pack_words(b, &map, &tys, vals, tag);
    let tag_val = if has_slot_zero(&map) {
        0usize
    } else {
        iconst(b, ClType::I64, tag as i64)
    };
    let zero: usize = iconst(b, ClType::I64, 0);
    let empty = empty_columns(width, tag_val, zero);
    place_words(b, &map, &words, &empty)
}

/// Prints a fixed text.
pub open spec fn print_fragment_code(c: Code, cx: Env, text: Seq<char>) -> Code {
    let (data, c) = str_addr_code(c, text);
    let (len, c) = iconst_code(c, ClType::I64, byte_len(text));
    let c = emit_code(c, Op::Arg { val: data });
    let c = emit_code(c, Op::Arg { val: len });
    let c = invoke_code(c, cx, "frog_bytes_print"@);
    c
}

pub(crate) fn print_fragment(b: &mut Builder, cx: &Ctx, text: &str)
    ensures
        final(b)@ == print_fragment_code(old(b)@, cx@, text@),
{
    let data: usize = str_addr(b, text);
    let len: usize = iconst(b, ClType::I64, text_bytes(text));
    emit(b, Op::Arg { val: data });
    emit(b, Op::Arg { val: len });
    invoke(b, cx, "frog_bytes_print");
}

pub open spec fn load_words_upto(c: Code, list: usize, base: usize, ls: Seq<FieldView>, n: nat) -> (Seq<usize>, Code)
    decreases n,
{
    if n == 0 {
        (Seq::<usize>::empty(), c)
    } else {
        let (out, c) = load_words_upto(c, list, base, ls, (n - 1) as nat);
        let i = (n - 1) as usize;
        let (slot, c) = put_code(c, Op::BinaryImm { op: BinOp::Iadd, a: base, imm: i as i64 });
        let (addr, c) = list_slot_addr_code(c, list, slot);
        let (raw_word, c) = put_code(c, Op::Load { ty: ClType::I64, base: addr, at: Field::Word(0) });
        let (v, c) = from_i64_repr_code(c, ls[i as int].1, raw_word);
        let out = out.push(v);
        (out, c)
    }
}

/// The words of the element that starts at word `base` of a list.
pub open spec fn load_words_code(c: Code, list: usize, base: usize, ls: Seq<FieldView>) -> (Seq<usize>, Code) {
    load_words_upto(c, list, base, ls, ls.len())
}

pub(crate) fn load_words(b: &mut Builder, list: usize, base: usize, ls: &Vec<(String, Type)>) -> (r: Vec<usize>)
    ensures
        (r@, final(b)@) == load_words_code(old(b)@, list, base, field_views(ls@)),
{
    let total: usize = ls.len();
    let mut out = Vec::new();
    let mut i: usize = 0;
    while i < total
        invariant
            i <= total,
            total == field_views(ls@).len(),
            (out@, b@) == load_words_upto(old(b)@, list, base, field_views(ls@), i as nat),
        decreases total - i,
    {
        let slot: usize = put(b, Op::BinaryImm { op: BinOp::Iadd, a: base, imm: i as i64 });
        let addr: usize = list_slot_addr(b, list, slot);
        let raw_word: usize = put(b, Op::Load { ty: ClType::I64, base: addr, at: Field::Word(0) });
        let v: usize = from_i64_repr(b, &ls[i].1, raw_word);
        out.push(v);
        i = i + 1;
    }
    out
}

/// A call of one argument and one result.
pub open spec fn call_one_code(c: Code, cx: Env, name: Seq<char>, a: usize) -> (usize, Code) {
    let c = emit_code(c, Op::Arg { val: a });
    let c = invoke_code(c, cx, name);
    put_code(c, Op::Result { index: 0 })
}

pub(crate) fn call_one(b: &mut Builder, cx: &Ctx, name: &str, a: usize) -> (r: usize)
    ensures
        (r, final(b)@) == call_one_code(old(b)@, cx@, name@, a),
{
    emit(b, Op::Arg { val: a });
    invoke(b, cx, name);
    put(b, Op::Result { index: 0 })
}

/// A call of two arguments and one result.
pub open spec fn call_two_code(c: Code, cx: Env, name: Seq<char>, a: usize, b2: usize) -> (usize, Code) {
    let c = emit_code(c, Op::Arg { val: a });
    let c = emit_code(c, Op::Arg { val: b2 });
    let c = invoke_code(c, cx, name);
    put_code(c, Op::Result { index: 0 })
}

pub(crate) fn call_two(b: &mut Builder, cx: &Ctx, name: &str, a: usize, b2: usize) -> (r: usize)
    ensures
        (r, final(b)@) == call_two_code(old(b)@, cx@, name@, a, b2),
{
    emit(b, Op::Arg { val: a });
    emit(b, Op::Arg { val: b2 });
    invoke(b, cx, name);
    put(b, Op::Result { index: 0 })
}

/// Prints one word by a function of the run-time library.
pub open spec fn print_scalar_code(
    c: Code,
    cx: Env,
    name: Seq<char>,
    vals: Seq<usize>,
    cursor: usize,
) -> (usize, Code) {
    let (v, c) = at_code(c, vals, cursor);
    let c = emit_code(c, Op::Arg { val: v });
    let c = invoke_code(c, cx, name);
    (beyond(cursor, 1), c)
}

pub(crate) fn print_scalar(b: &mut Builder, cx: &Ctx, name: &str, vals: &Vec<usize>, cursor: usize) -> (r: usize)
    ensures
        (r, final(b)@) == print_scalar_code(old(b)@, cx@, name@, vals@, cursor),
{
    let v: usize = at(b, vals, cursor);
    emit(b, Op::Arg { val: v });
    invoke(b, cx, name);
    past(cursor, 1)
}

/// Tests at run time whether a boxed nominal union holds the variant `tag`.
pub open spec fn is_variant_test_code(c: Code, val: usize, def: UnionView, tag: u32) -> (usize, Code) {
    emit_tag_test_code(c, val, unit_variant(def, tag), has_unit_variant(def), tag)
}

pub(crate) fn is_variant_test(b: &mut Builder, val: usize, def: &UnionDef, tag: u32) -> (r: usize)
    ensures
        (r, final(b)@) == is_variant_test_code(old(b)@, val, def@, tag),
{
    emit_tag_test(b, val, target_is_unit(def, tag), any_unit(def), tag)
}

/// Tests at run time whether a union holds the member `tag`: by its columns, by
/// its declared variants or by its boxed tag.
pub open spec fn union_tag_test_code(
    c: Code,
    members: Seq<Ty>,
    index: usize,
    tag: u32,
    vals: Seq<usize>,
    inlined: bool,
    def: Option<UnionView>,
) -> (usize, Code) {
    if inlined {
        inline_tag_test_code(c, vals, tag)
    } else {
        let (v, c) = at_code(c, vals, 0);
        match def {
            Some(d) => {
                is_variant_test_code(c, v, d, tag)
            },
            None => {
                emit_tag_test_code(c, v, nil_member(members, index), has_nil(members), tag)
            },
        }
    }
}

pub(crate) fn union_tag_test(
    b: &mut Builder,
    members: &Vec<Type>,
    index: usize,
    tag: u32,
    vals: &Vec<usize>,
    inlined: bool,
    def: Option<&UnionDef>,
) -> (r: usize)
    ensures
        (r, final(b)@) == union_tag_test_code(old(b)@, type_views(members@), index, tag, vals@, inlined, opt_union(def)),
{
    if inlined {
        inline_tag_test(b, vals, tag)
    } else {
        let v: usize = at(b, vals, 0);
        match def {
            Some(d) => {
                is_variant_test(b, v, d, tag)
            },
            None => {
                emit_tag_test(b, v, member_is_nil(members, index), any_nil(members), tag)
            },
        }
    }
}

/// The leaves of the member that a union is known to hold. A member without payload has a dummy word.
pub open spec fn unpack_union_slots_code(
    c: Code,
    cx: Env,
    members: Seq<Ty>,
    member: Ty,
    slots: Seq<usize>,
    inlined: bool,
) -> (Seq<usize>, Code) {
    if inlined {
        if payload_less(member) {
            let (zero, c) = iconst_code(c, ClType::I64, 0);
            (seq![zero], c)
        } else {
            unpack_union_member_code(c, cx, members, member, slots)
        }
    } else if member is Nil {
        let (zero, c) = iconst_code(c, ClType::I64, 0);
        (seq![zero], c)
    } else if scalar(member) {
        let (first, c) = at_code(c, slots, 0);
        let (v, c) = from_i64_repr_code(c, member, first);
        (seq![v], c)
    } else {
        let (ls, c) = leaves_code(c, cx, member);
        let tys = field_tys(ls);
        let (first, c) = at_code(c, slots, 0);
        read_variant_slots_code(c, first, 0, tys)
    }
}

pub(crate) fn unpack_union_slots(
    b: &mut Builder,
    cx: &Ctx,
    members: &Vec<Type>,
    member: &Type,
    slots: &Vec<usize>,
    inlined: bool,
) -> (r: Vec<usize>)
    ensures
        (r@, final(b)@) == unpack_union_slots_code(old(b)@, cx@, type_views(members@), member@, slots@, inlined),
{
    if inlined {
        if is_payload_less(member) {
            let zero: usize = iconst(b, ClType::I64, 0);
            vec![zero]
        } else {
            unpack_union_member(b, cx, members, member, slots)
        }
    } else if is_nil(member) {
        let zero: usize = iconst(b, ClType::I64, 0);
        vec![zero]
    } else if is_scalar(member) {
        let first: usize = at(b, slots, 0);
        let v: usize = from_i64_repr(b, member, first);
        vec![v]
    } else {
        let ls = leaf_list(b, cx, member);
        let tys = leaf_types(&ls);
        let first: usize = at(b, slots, 0);
        read_variant_slots(b, first, 0, &tys)
    }
}

/// Prints a list, element by element.
pub open spec fn print_list_code(c: Code, cx: Env, elem: Ty, list: usize, seen: Seq<Ty>) -> Code
    decreases unvisited(cx.defs, seen), elem, 5int, 0int,
 {
    let c = print_fragment_code(c, cx, "["@);
    let (ls, c) = leaves_code(c, cx, elem);
    let (len, c) = call_one_code(c, cx, "frog_list_len"@, list);
    let (stride, c) = list_stride_code(c, list);
    let (header_bb, c) = put_code(c, Op::Block);
    let (body_bb, c) = put_code(c, Op::Block);
    let (exit_bb, c) = put_code(c, Op::Block);
    let (k, c) = put_code(c, Op::BlockParam { block: header_bb, ty: ClType::I64 });
    let (zero, c) = iconst_code(c, ClType::I64, 0);
    let c = emit_code(c, Op::Arg { val: zero });
    let c = emit_code(c, Op::Jump { block: header_bb });
    let c = emit_code(c, Op::Switch { block: header_bb });
    let (in_range, c) = put_code(c, Op::Compare { test: Test::Less, a: k, b: len });
    let c = emit_code(c, Op::Brif { cond: in_range, yes: body_bb, no: exit_bb });
    let c = emit_code(c, Op::Switch { block: body_bb });
    let c = emit_code(c, Op::Seal { block: body_bb });
    let (sep_bb, c) = put_code(c, Op::Block);
    let (elem_bb, c) = put_code(c, Op::Block);
    let (is_first, c) = put_code(c, Op::CompareImm { test: Test::Equal, a: k, imm: 0 });
    let c = emit_code(c, Op::Brif { cond: is_first, yes: elem_bb, no: sep_bb });
    let c = emit_code(c, Op::Switch { block: sep_bb });
    let c = emit_code(c, Op::Seal { block: sep_bb });
    let c = print_fragment_code(c, cx, ", "@);
    let c = emit_code(c, Op::Jump { block: elem_bb });
    let c = emit_code(c, Op::Switch { block: elem_bb });
    let c = emit_code(c, Op::Seal { block: elem_bb });
    let (base, c) = put_code(c, Op::Binary { op: BinOp::Imul, a: k, b: stride });
    let (vals, c) = load_words_code(c, list, base, ls);
    let tys = field_tys(ls);
    let c = declare_gc_leaves_code(c, vals, tys);
    let (_, c) = print_value_code(c, cx, elem, vals, 0, seen);
    let (next, c) = put_code(c, Op::BinaryImm { op: BinOp::Iadd, a: k, imm: 1 });
    let c = emit_code(c, Op::Arg { val: next });
    let c = emit_code(c, Op::Jump { block: header_bb });
    let c = emit_code(c, Op::Seal { block: header_bb });
    let c = emit_code(c, Op::Switch { block: exit_bb });
    let c = emit_code(c, Op::Seal { block: exit_bb });
    let c = print_fragment_code(c, cx, "]"@);
    c
}

pub(crate) fn print_list(b: &mut Builder, cx: &Ctx, elem: &Type, list: usize, seen: &Vec<Type>)
    ensures
        final(b)@ == print_list_code(old(b)@, cx@, elem@, list, type_views(seen@)),
    decreases unvisited(cx.structs@, type_views(seen@)), elem, 5int, 0int,
{
    print_fragment(b, cx, "[");
    let ls = leaf_list(b, cx, elem);
    let len: usize = call_one(b, cx, "frog_list_len", list);
    let stride: usize = list_stride(b, list);
    let header_bb: usize = put(b, Op::Block);
    let body_bb: usize = put(b, Op::Block);
    let exit_bb: usize = put(b, Op::Block);
    let k: usize = put(b, Op::BlockParam { block: header_bb, ty: ClType::I64 });
    let zero: usize = iconst(b, ClType::I64, 0);
    emit(b, Op::Arg { val: zero });
    emit(b, Op::Jump { block: header_bb });
    emit(b, Op::Switch { block: header_bb });
    let in_range: usize = put(b, Op::Compare { test: Test::Less, a: k, b: len });
    emit(b, Op::Brif { cond: in_range, yes: body_bb, no: exit_bb });
    emit(b, Op::Switch { block: body_bb });
    emit(b, Op::Seal { block: body_bb });
    let sep_bb: usize = put(b, Op::Block);
    let elem_bb: usize = put(b, Op::Block);
    let is_first: usize = put(b, Op::CompareImm { test: Test::Equal, a: k, imm: 0 });
    emit(b, Op::Brif { cond: is_first, yes: elem_bb, no: sep_bb });
    emit(b, Op::Switch { block: sep_bb });
    emit(b, Op::Seal { block: sep_bb });
    print_fragment(b, cx, ", ");
    emit(b, Op::Jump { block: elem_bb });
    emit(b, Op::Switch { block: elem_bb });
    emit(b, Op::Seal { block: elem_bb });
    let base: usize = put(b, Op::Binary { op: BinOp::Imul, a: k, b: stride });
    let vals = load_words(b, list, base, &ls);
    let tys = leaf_types(&ls);
    declare_gc_leaves(b, &vals, &tys);
    let _ = print_value(b, cx, elem, &vals, 0, seen);
    let next: usize = put(b, Op::BinaryImm { op: BinOp::Iadd, a: k, imm: 1 });
    emit(b, Op::Arg { val: next });
    emit(b, Op::Jump { block: header_bb });
    emit(b, Op::Seal { block: header_bb });
    emit(b, Op::Switch { block: exit_bb });
    emit(b, Op::Seal { block: exit_bb });
    print_fragment(b, cx, "]");
}

/// Prints one value from the word at `cursor` on, and returns where the next
/// one starts. `seen` are the types that are being printed.
pub open spec fn print_value_code(
    c: Code,
    cx: Env,
    ty: Ty,
    vals: Seq<usize>,
    cursor: usize,
    seen: Seq<Ty>,
) -> (usize, Code)
    decreases unvisited(cx.defs, seen), ty, 4int, 0int,
 {
    if ty.is_range() {
        let elem = ty.elem();
        let (mid, c) = print_value_code(c, cx, elem, vals, cursor, seen);
        let c = print_fragment_code(c, cx, ".."@);
        print_value_code(c, cx, elem, vals, mid, seen)
    } else if ty.is_struct() {
        match find_struct(cx.defs, ty) {
            None => {
                let c = fail_code(c, Fault::UnknownField);
                (cursor, c)
            },
            Some(fields) => {
                if seen.contains(ty) {
                    let c = fail_code(c, Fault::RecursiveType);
                    (cursor, c)
                } else {
                    proof {
                        unvisited_shrinks(cx.defs, seen, ty);
                    }
                    let more = seen.push(ty);
                    let head = ty->Named_0.push('(');
                    let c = print_fragment_code(c, cx, head);
                    let (end, c) = print_fields_code(c, cx, fields, vals, cursor, more);
                    let c = print_fragment_code(c, cx, ")"@);
                    (end, c)
                }
            },
        }
    } else if ty.is_list() {
        let elem = ty.elem();
        let (list, c) = at_code(c, vals, cursor);
        let c = print_list_code(c, cx, elem, list, seen);
        (beyond(cursor, 1), c)
    } else {
        match ty {
            Ty::Union(ms) => {
                let (ls, c) = leaves_code(c, cx, ty);
                let (part, c) = slice_code(c, vals, cursor, ls.len() as usize);
                let c = print_union_code(c, cx, ms, part, seen);
                (beyond(cursor, ls.len() as usize), c)
            },
            Ty::Str => {
                print_scalar_code(c, cx, "frog_str_repr_print"@, vals, cursor)
            },
            Ty::Nil => {
                let c = print_fragment_code(c, cx, "none"@);
                (beyond(cursor, 1), c)
            },
            Ty::Int => {
                print_scalar_code(c, cx, "frog_int_print"@, vals, cursor)
            },
            Ty::Float => {
                print_scalar_code(c, cx, "frog_float_print"@, vals, cursor)
            },
            Ty::Bool => {
                print_scalar_code(c, cx, "frog_bool_print"@, vals, cursor)
            },
            Ty::TypeVar(_) => {
                let c = print_fragment_code(c, cx, "<?>"@);
                (beyond(cursor, 1), c)
            },
            _ => {
                let c = fail_code(c, Fault::UnsupportedType);
                (cursor, c)
            },
        }
    }
}

#[verifier::rlimit(60)]
#[verifier::spinoff_prover]
pub(crate) fn print_value(
    b: &mut Builder,
    cx: &Ctx,
    ty: &Type,
    vals: &Vec<usize>,
    cursor: usize,
    seen: &Vec<Type>,
) -> (r: usize)
    ensures
        (r, final(b)@) == print_value_code(old(b)@, cx@, ty@, vals@, cursor, type_views(seen@)),
    decreases unvisited(cx.structs@, type_views(seen@)), ty, 4int, 0int,
{
    if ty.is_range() {
        let elem = ty.as_range_elem().unwrap();
        let mid: usize = print_value(b, cx, elem, vals, cursor, seen);
        print_fragment(b, cx, "..");
        print_value(b, cx, elem, vals, mid, seen)
    } else if ty.is_struct() {
        match cx.structs.get(ty) {
            None => {
                fail(b, Fault::UnknownField);
                cursor
            },
            Some(fields) => {
                if contains_type(seen, ty) {
                    fail(b, Fault::RecursiveType);
                    cursor
                } else {
                    proof {
                        unvisited_shrinks(cx.structs@, type_views(seen@), ty@);
                    }
                    let more = with_type(seen, ty);
                    let head = struct_head(ty);
                    print_fragment(b, cx, head.as_str());
                    let end: usize = print_fields(b, cx, fields, vals, cursor, &more);
                    print_fragment(b, cx, ")");
                    end
                }
            },
        }
    } else if ty.is_list() {
        let elem = ty.as_list_elem().unwrap();
        let list: usize = at(b, vals, cursor);
        print_list(b, cx, elem, list, seen);
        past(cursor, 1)
    } else {
        match ty {
            Type::Union(ms) => {
                let ls = leaf_list(b, cx, ty);
                let part = slice(b, vals, cursor, ls.len());
                print_union(b, cx, ms, &part, seen);
                past(cursor, ls.len())
            },
            Type::Str => {
                print_scalar(b, cx, "frog_str_repr_print", vals, cursor)
            },
            Type::Nil => {
                print_fragment(b, cx, "none");
                past(cursor, 1)
            },
            Type::Int => {
                print_scalar(b, cx, "frog_int_print", vals, cursor)
            },
            Type::Float => {
                print_scalar(b, cx, "frog_float_print", vals, cursor)
            },
            Type::Bool => {
                print_scalar(b, cx, "frog_bool_print", vals, cursor)
            },
            Type::TypeVar { id: _ } => {
                print_fragment(b, cx, "<?>");
                past(cursor, 1)
            },
            _ => {
                fail(b, Fault::UnsupportedType);
                cursor
            },
        }
    }
}

pub open spec fn print_fields_upto(
    c: Code,
    cx: Env,
    fields: Seq<FieldView>,
    vals: Seq<usize>,
    cursor: usize,
    seen: Seq<Ty>,
    n: nat,
) -> (usize, Code)
    decreases unvisited(cx.defs, seen), fields, 1int, n,
{
    if n == 0 || n > fields.len() {
        (cursor, c)
    } else {
        let (at_word, c) = print_fields_upto(c, cx, fields, vals, cursor, seen, (n - 1) as nat);
        let i = (n - 1) as usize;
        let c = if i != 0 {
            let c = print_fragment_code(c, cx, ", "@);
            c
        } else {
            c
        };
        let c = if !positional(fields) {
            let label = fields[i as int].0.push('=');
            let c = print_fragment_code(c, cx, label);
            c
        } else {
            c
        };
        let (at_word, c) = print_value_code(c, cx, fields[n - 1].1, vals, at_word, seen);
        (at_word, c)
    }
}

/// Prints the fields of a struct, with their names unless they were declared by position.
pub open spec fn print_fields_code(
    c: Code,
    cx: Env,
    fields: Seq<FieldView>,
    vals: Seq<usize>,
    cursor: usize,
    seen: Seq<Ty>,
) -> (usize, Code)
    decreases unvisited(cx.defs, seen), fields, 2int, 0int,
 {
    print_fields_upto(c, cx, fields, vals, cursor, seen, fields.len())
}

pub(crate) fn print_fields(
    b: &mut Builder,
    cx: &Ctx,
    fields: &Vec<(String, Type)>,
    vals: &Vec<usize>,
    cursor: usize,
    seen: &Vec<Type>,
) -> (r: usize)
    ensures
        (r, final(b)@) == print_fields_code(old(b)@, cx@, field_views(fields@), vals@, cursor, type_views(seen@)),
    decreases unvisited(cx.structs@, type_views(seen@)), fields, 2int, 0int,
{
    proof {
        type_views_index(seen@);
    }
    let total: usize = fields.len();
    let mut at_word: usize = cursor;
    let mut i: usize = 0;
    while i < total
        invariant
            i <= total,
            total == field_views(fields@).len(),
            type_views(seen@).len() == seen.len(),
            forall|k: int| 0 <= k < seen.len() ==> #[trigger] type_views(seen@)[k] == seen@[k]@,
            (at_word, b@) == print_fields_upto(old(b)@, cx@, field_views(fields@), vals@, cursor, type_views(seen@), i as nat),
        decreases total - i,
    {
        if i != 0 {
            print_fragment(b, cx, ", ");
        }
        if !is_positional_fields(fields) {
            let label = field_label(&fields[i].0);
            print_fragment(b, cx, label.as_str());
        }
        at_word = print_value(b, cx, &fields[i].1, vals, at_word, seen);
        i = i + 1;
    }
    at_word
}

/// Prints the member that a union holds, found out at run time.
pub open spec fn print_union_code(c: Code, cx: Env, members: Seq<Ty>, vals: Seq<usize>, seen: Seq<Ty>) -> Code
    decreases unvisited(cx.defs, seen), members, 6int, 0int,
 {
    if seen.contains(Ty::Union(members)) {
        let c = fail_code(c, Fault::RecursiveType);
        c
    } else {
        proof {
            unvisited_shrinks(cx.defs, seen, Ty::Union(members));
        }
        let more = seen.push(Ty::Union(members));
        let inlined = unboxed(members, cx.defs);
        let (cases, c) = dispatch_cases_code(c, cx, members, inlined);
        let (merge_bb, c) = put_code(c, Op::Block);
        let c = if cases.len() == 0 {
            let c = fail_code(c, Fault::Arity);
            c
        } else {
            c
        };
        let c = print_cases_code(c, cx, members, vals, cases, inlined, merge_bb, more);
        let c = emit_code(c, Op::Switch { block: merge_bb });
        let c = emit_code(c, Op::Seal { block: merge_bb });
        c
    }
}

pub(crate) fn print_union(b: &mut Builder, cx: &Ctx, members: &Vec<Type>, vals: &Vec<usize>, seen: &Vec<Type>)
    ensures
        final(b)@ == print_union_code(old(b)@, cx@, type_views(members@), vals@, type_views(seen@)),
    decreases unvisited(cx.structs@, type_views(seen@)), members, 6int, 0int,
{
    if contains_union(seen, members) {
        fail(b, Fault::RecursiveType);
    } else {
        proof {
            unvisited_shrinks(cx.structs@, type_views(seen@), Ty::Union(type_views(members@)));
        }
        let more = with_union(seen, members);
        let inlined = union_is_inline(members, cx.structs);
        let cases = dispatch_cases(b, cx, members, inlined);
        let merge_bb: usize = put(b, Op::Block);
        if cases.len() == 0 {
            fail(b, Fault::Arity);
        }
        print_cases(b, cx, members, vals, &cases, inlined, merge_bb, &more);
        emit(b, Op::Switch { block: merge_bb });
        emit(b, Op::Seal { block: merge_bb });
    }
}

pub open spec fn print_cases_upto(
    c: Code,
    cx: Env,
    members: Seq<Ty>,
    vals: Seq<usize>,
    cases: Seq<(usize, u32)>,
    inlined: bool,
    merge_bb: usize,
    seen: Seq<Ty>,
    n: nat,
) -> Code
    decreases unvisited(cx.defs, seen), members, 2int, n,
{
    if n == 0 || n > cases.len() {
        c
    } else {
        let c = print_cases_upto(c, cx, members, vals, cases, inlined, merge_bb, seen, (n - 1) as nat);
        let i = (n - 1) as usize;
        let index = cases[i as int].0;
        let tag = cases[i as int].1;
        let (body_bb, c) = put_code(c, Op::Block);
        let is_last = i == cases.len() - 1;
        let (cont_bb, c) = if is_last {
            let c = emit_code(c, Op::Jump { block: body_bb });
            (0usize, c)
        } else {
            let (next_bb, c) = put_code(c, Op::Block);
            let (test, c) = union_tag_test_code(c, members, index, tag, vals, inlined, nominal(members, inlined, cx.unions));
            let c = emit_code(c, Op::Brif { cond: test, yes: body_bb, no: next_bb });
            (next_bb, c)
        };
        let c = emit_code(c, Op::Switch { block: body_bb });
        let c = emit_code(c, Op::Seal { block: body_bb });
        let c = print_member_code(c, cx, members, index, vals, inlined, seen);
        let c = emit_code(c, Op::Jump { block: merge_bb });
        let c = if !is_last {
            let c = emit_code(c, Op::Switch { block: cont_bb });
            let c = emit_code(c, Op::Seal { block: cont_bb });
            c
        } else {
            c
        };
        c
    }
}

/// One test for each member but the last, which is all that is left then.
pub open spec fn print_cases_code(
    c: Code,
    cx: Env,
    members: Seq<Ty>,
    vals: Seq<usize>,
    cases: Seq<(usize, u32)>,
    inlined: bool,
    merge_bb: usize,
    seen: Seq<Ty>,
) -> Code
    decreases unvisited(cx.defs, seen), members, 3int, 0int,
 {
    print_cases_upto(c, cx, members, vals, cases, inlined, merge_bb, seen, cases.len())
}

pub(crate) fn print_cases(
    b: &mut Builder,
    cx: &Ctx,
    members: &Vec<Type>,
    vals: &Vec<usize>,
    cases: &Vec<(usize, u32)>,
    inlined: bool,
    merge_bb: usize,
    seen: &Vec<Type>,
)
    ensures
        final(b)@ == print_cases_code(old(b)@, cx@, type_views(members@), vals@, cases@, inlined, merge_bb, type_views(seen@)),
    decreases unvisited(cx.structs@, type_views(seen@)), members, 3int, 0int,
{
    proof {
        type_views_index(members@);
        type_views_index(seen@);
    }
    let total: usize = cases.len();
    let mut i: usize = 0;
    while i < total
        invariant
            i <= total,
            total == cases@.len(),
            type_views(members@).len() == members.len(),
            forall|k: int| 0 <= k < members.len() ==> #[trigger] type_views(members@)[k] == members@[k]@,
            type_views(seen@).len() == seen.len(),
            forall|k: int| 0 <= k < seen.len() ==> #[trigger] type_views(seen@)[k] == seen@[k]@,
            b@ == print_cases_upto(old(b)@, cx@, type_views(members@), vals@, cases@, inlined, merge_bb, type_views(seen@), i as nat),
        decreases total - i,
    {
        let index: usize = cases[i].0;
        let tag: u32 = cases[i].1;
        let body_bb: usize = put(b, Op::Block);
        let is_last = i == cases.len() - 1;
        let cont_bb = if is_last {
            emit(b, Op::Jump { block: body_bb });
            0usize
        } else {
            let next_bb: usize = put(b, Op::Block);
            let test: usize = union_tag_test(b, members, index, tag, vals, inlined, nominal_of(members, inlined, cx));
            emit(b, Op::Brif { cond: test, yes: body_bb, no: next_bb });
            next_bb
        };
        emit(b, Op::Switch { block: body_bb });
        emit(b, Op::Seal { block: body_bb });
        print_member(b, cx, members, index, vals, inlined, seen);
        emit(b, Op::Jump { block: merge_bb });
        if !is_last {
            emit(b, Op::Switch { block: cont_bb });
            emit(b, Op::Seal { block: cont_bb });
        }
        i = i + 1;
    }
}

/// Prints the member that a union is known to hold.
pub open spec fn print_member_code(
    c: Code,
    cx: Env,
    members: Seq<Ty>,
    index: usize,
    slots: Seq<usize>,
    inlined: bool,
    seen: Seq<Ty>,
) -> Code
    decreases unvisited(cx.defs, seen), members, 1int, 0int,
 {
    if index < members.len() {
        let (vals, c) = unpack_union_slots_code(c, cx, members, members[index as int], slots, inlined);
        let (_, c) = print_value_code(c, cx, members[index as int], vals, 0, seen);
        c
    } else {
        let c = fail_code(c, Fault::UnknownVariant);
        c
    }
}

pub(crate) fn print_member(
    b: &mut Builder,
    cx: &Ctx,
    members: &Vec<Type>,
    index: usize,
    slots: &Vec<usize>,
    inlined: bool,
    seen: &Vec<Type>,
)
    ensures
        final(b)@ == print_member_code(old(b)@, cx@, type_views(members@), index, slots@, inlined, type_views(seen@)),
    decreases unvisited(cx.structs@, type_views(seen@)), members, 1int, 0int,
{
    proof {
        type_views_index(members@);
        type_views_index(seen@);
    }
    if index < members.len() {
        let vals = unpack_union_slots(b, cx, members, &members[index], slots, inlined);
        let _ = print_value(b, cx, &members[index], &vals, 0, seen);
    } else {
        fail(b, Fault::UnknownVariant);
    }
}

pub open spec fn load_both_upto(
    c: Code,
    left: usize,
    right: usize,
    lbase: usize,
    rbase: usize,
    ls: Seq<FieldView>,
    n: nat,
) -> ((Seq<usize>, Seq<usize>), Code)
    decreases n,
{
    if n == 0 {
        ((Seq::<usize>::empty(), Seq::<usize>::empty()), c)
    } else {
        let (out, c) = load_both_upto(c, left, right, lbase, rbase, ls, (n - 1) as nat);
        let i = (n - 1) as usize;
        let (lslot, c) = put_code(c, Op::BinaryImm { op: BinOp::Iadd, a: lbase, imm: i as i64 });
        let (laddr, c) = list_slot_addr_code(c, left, lslot);
        let (lraw, c) = put_code(c, Op::Load { ty: ClType::I64, base: laddr, at: Field::Word(0) });
        let (lv, c) = from_i64_repr_code(c, ls[i as int].1, lraw);
        let (rslot, c) = put_code(c, Op::BinaryImm { op: BinOp::Iadd, a: rbase, imm: i as i64 });
        let (raddr, c) = list_slot_addr_code(c, right, rslot);
        let (rraw, c) = put_code(c, Op::Load { ty: ClType::I64, base: raddr, at: Field::Word(0) });
        let (rv, c) = from_i64_repr_code(c, ls[i as int].1, rraw);
        let out = (out.0.push(lv), out.1);
        let out = (out.0, out.1.push(rv));
        (out, c)
    }
}

/// The words of two elements, one of each list.
pub open spec fn load_both_code(
    c: Code,
    left: usize,
    right: usize,
    lbase: usize,
    rbase: usize,
    ls: Seq<FieldView>,
) -> ((Seq<usize>, Seq<usize>), Code) {
    load_both_upto(c, left, right, lbase, rbase, ls, ls.len())
}

pub(crate) fn load_both(
    b: &mut Builder,
    left: usize,
    right: usize,
    lbase: usize,
    rbase: usize,
    ls: &Vec<(String, Type)>,
) -> (r: (Vec<usize>, Vec<usize>))
    ensures
        ((r.0@, r.1@), final(b)@) == load_both_code(old(b)@, left, right, lbase, rbase, field_views(ls@)),
{
    let total: usize = ls.len();
    let mut out = (Vec::new(), Vec::new());
    let mut i: usize = 0;
    while i < total
        invariant
            i <= total,
            total == field_views(ls@).len(),
            ((out.0@, out.1@), b@) == load_both_upto(old(b)@, left, right, lbase, rbase, field_views(ls@), i as nat),
        decreases total - i,
    {
        let lslot: usize = put(b, Op::BinaryImm { op: BinOp::Iadd, a: lbase, imm: i as i64 });
        let laddr: usize = list_slot_addr(b, left, lslot);
        let lraw: usize = put(b, Op::Load { ty: ClType::I64, base: laddr, at: Field::Word(0) });
        let lv: usize = from_i64_repr(b, &ls[i].1, lraw);
        let rslot: usize = put(b, Op::BinaryImm { op: BinOp::Iadd, a: rbase, imm: i as i64 });
        let raddr: usize = list_slot_addr(b, right, rslot);
        let rraw: usize = put(b, Op::Load { ty: ClType::I64, base: raddr, at: Field::Word(0) });
        let rv: usize = from_i64_repr(b, &ls[i].1, rraw);
        out.0.push(lv);
        out.1.push(rv);
        i = i + 1;
    }
    out
}

/// Whether two lists are equal: of one length, and element by element, up to the first difference.
pub open spec fn eq_list_code(c: Code, cx: Env, elem: Ty, lv: usize, rv: usize, seen: Seq<Ty>) -> (usize, Code)
    decreases unvisited(cx.defs, seen), elem, 5int, 0int,
 {
    let (ls, c) = leaves_code(c, cx, elem);
    let (l_len, c) = call_one_code(c, cx, "frog_list_len"@, lv);
    let (r_len, c) = call_one_code(c, cx, "frog_list_len"@, rv);
    let (merge_bb, c) = put_code(c, Op::Block);
    let (out, c) = put_code(c, Op::BlockParam { block: merge_bb, ty: ClType::I8 });
    let (loop_bb, c) = put_code(c, Op::Block);
    let (header_bb, c) = put_code(c, Op::Block);
    let (body_bb, c) = put_code(c, Op::Block);
    let (k, c) = put_code(c, Op::BlockParam { block: header_bb, ty: ClType::I64 });
    let (same_len, c) = put_code(c, Op::Compare { test: Test::Equal, a: l_len, b: r_len });
    let (no, c) = iconst_code(c, ClType::I8, 0);
    let c = emit_code(c, Op::ElseArg { val: no });
    let c = emit_code(c, Op::Brif { cond: same_len, yes: loop_bb, no: merge_bb });
    let c = emit_code(c, Op::Switch { block: loop_bb });
    let c = emit_code(c, Op::Seal { block: loop_bb });
    let (l_stride, c) = list_stride_code(c, lv);
    let (r_stride, c) = list_stride_code(c, rv);
    let (zero, c) = iconst_code(c, ClType::I64, 0);
    let c = emit_code(c, Op::Arg { val: zero });
    let c = emit_code(c, Op::Jump { block: header_bb });
    let c = emit_code(c, Op::Switch { block: header_bb });
    let (in_range, c) = put_code(c, Op::Compare { test: Test::Less, a: k, b: l_len });
    let (yes, c) = iconst_code(c, ClType::I8, 1);
    let c = emit_code(c, Op::ElseArg { val: yes });
    let c = emit_code(c, Op::Brif { cond: in_range, yes: body_bb, no: merge_bb });
    let c = emit_code(c, Op::Switch { block: body_bb });
    let c = emit_code(c, Op::Seal { block: body_bb });
    let (l_base, c) = put_code(c, Op::Binary { op: BinOp::Imul, a: k, b: l_stride });
    let (r_base, c) = put_code(c, Op::Binary { op: BinOp::Imul, a: k, b: r_stride });
    let (words, c) = load_both_code(c, lv, rv, l_base, r_base, ls);
    let tys = field_tys(ls);
    let c = declare_gc_leaves_code(c, words.0, tys);
    let c = declare_gc_leaves_code(c, words.1, tys);
    let (eq, c) = eq_value_code(c, cx, elem, words.0, words.1, 0, seen);
    let (next, c) = put_code(c, Op::BinaryImm { op: BinOp::Iadd, a: k, imm: 1 });
    let (no2, c) = iconst_code(c, ClType::I8, 0);
    let c = emit_code(c, Op::Arg { val: next });
    let c = emit_code(c, Op::ElseArg { val: no2 });
    let c = emit_code(c, Op::Brif { cond: eq.0, yes: header_bb, no: merge_bb });
    let c = emit_code(c, Op::Seal { block: header_bb });
    let c = emit_code(c, Op::Switch { block: merge_bb });
    let c = emit_code(c, Op::Seal { block: merge_bb });
    (out, c)
}

pub(crate) fn eq_list(b: &mut Builder, cx: &Ctx, elem: &Type, lv: usize, rv: usize, seen: &Vec<Type>) -> (r: usize)
    ensures
        (r, final(b)@) == eq_list_code(old(b)@, cx@, elem@, lv, rv, type_views(seen@)),
    decreases unvisited(cx.structs@, type_views(seen@)), elem, 5int, 0int,
{
    let ls = leaf_list(b, cx, elem);
    let l_len: usize = call_one(b, cx, "frog_list_len", lv);
    let r_len: usize = call_one(b, cx, "frog_list_len", rv);
    let merge_bb: usize = put(b, Op::Block);
    let out: usize = put(b, Op::BlockParam { block: merge_bb, ty: ClType::I8 });
    let loop_bb: usize = put(b, Op::Block);
    let header_bb: usize = put(b, Op::Block);
    let body_bb: usize = put(b, Op::Block);
    let k: usize = put(b, Op::BlockParam { block: header_bb, ty: ClType::I64 });
    let same_len: usize = put(b, Op::Compare { test: Test::Equal, a: l_len, b: r_len });
    let no: usize = iconst(b, ClType::I8, 0);
    emit(b, Op::ElseArg { val: no });
    emit(b, Op::Brif { cond: same_len, yes: loop_bb, no: merge_bb });
    emit(b, Op::Switch { block: loop_bb });
    emit(b, Op::Seal { block: loop_bb });
    let l_stride: usize = list_stride(b, lv);
    let r_stride: usize = list_stride(b, rv);
    let zero: usize = iconst(b, ClType::I64, 0);
    emit(b, Op::Arg { val: zero });
    emit(b, Op::Jump { block: header_bb });
    emit(b, Op::Switch { block: header_bb });
    let in_range: usize = put(b, Op::Compare { test: Test::Less, a: k, b: l_len });
    let yes: usize = iconst(b, ClType::I8, 1);
    emit(b, Op::ElseArg { val: yes });
    emit(b, Op::Brif { cond: in_range, yes: body_bb, no: merge_bb });
    emit(b, Op::Switch { block: body_bb });
    emit(b, Op::Seal { block: body_bb });
    let l_base: usize = put(b, Op::Binary { op: BinOp::Imul, a: k, b: l_stride });
    let r_base: usize = put(b, Op::Binary { op: BinOp::Imul, a: k, b: r_stride });
    let words = load_both(b, lv, rv, l_base, r_base, &ls);
    let tys = leaf_types(&ls);
    declare_gc_leaves(b, &words.0, &tys);
    declare_gc_leaves(b, &words.1, &tys);
    let eq = eq_value(b, cx, elem, &words.0, &words.1, 0, seen);
    let next: usize = put(b, Op::BinaryImm { op: BinOp::Iadd, a: k, imm: 1 });
    let no2: usize = iconst(b, ClType::I8, 0);
    emit(b, Op::Arg { val: next });
    emit(b, Op::ElseArg { val: no2 });
    emit(b, Op::Brif { cond: eq.0, yes: header_bb, no: merge_bb });
    emit(b, Op::Seal { block: header_bb });
    emit(b, Op::Switch { block: merge_bb });
    emit(b, Op::Seal { block: merge_bb });
    out
}

/// Whether a list has an element equal to `needle`, up to the first that is.
pub open spec fn list_contains_code(
    c: Code,
    cx: Env,
    elem: Ty,
    needle: Seq<usize>,
    haystack: usize,
    seen: Seq<Ty>,
) -> (usize, Code) {
    let (ls, c) = leaves_code(c, cx, elem);
    let (len, c) = call_one_code(c, cx, "frog_list_len"@, haystack);
    let (merge_bb, c) = put_code(c, Op::Block);
    let (out, c) = put_code(c, Op::BlockParam { block: merge_bb, ty: ClType::I8 });
    let (header_bb, c) = put_code(c, Op::Block);
    let (body_bb, c) = put_code(c, Op::Block);
    let (k, c) = put_code(c, Op::BlockParam { block: header_bb, ty: ClType::I64 });
    let (stride, c) = list_stride_code(c, haystack);
    let (zero, c) = iconst_code(c, ClType::I64, 0);
    let c = emit_code(c, Op::Arg { val: zero });
    let c = emit_code(c, Op::Jump { block: header_bb });
    let c = emit_code(c, Op::Switch { block: header_bb });
    let (in_range, c) = put_code(c, Op::Compare { test: Test::Less, a: k, b: len });
    let (no, c) = iconst_code(c, ClType::I8, 0);
    let c = emit_code(c, Op::ElseArg { val: no });
    let c = emit_code(c, Op::Brif { cond: in_range, yes: body_bb, no: merge_bb });
    let c = emit_code(c, Op::Switch { block: body_bb });
    let c = emit_code(c, Op::Seal { block: body_bb });
    let (base, c) = put_code(c, Op::Binary { op: BinOp::Imul, a: k, b: stride });
    let (vals, c) = load_words_code(c, haystack, base, ls);
    let tys = field_tys(ls);
    let c = declare_gc_leaves_code(c, vals, tys);
    let (eq, c) = eq_value_code(c, cx, elem, needle, vals, 0, seen);
    let (next, c) = put_code(c, Op::BinaryImm { op: BinOp::Iadd, a: k, imm: 1 });
    let (yes, c) = iconst_code(c, ClType::I8, 1);
    let c = emit_code(c, Op::Arg { val: yes });
    let c = emit_code(c, Op::ElseArg { val: next });
    let c = emit_code(c, Op::Brif { cond: eq.0, yes: merge_bb, no: header_bb });
    let c = emit_code(c, Op::Seal { block: header_bb });
    let c = emit_code(c, Op::Switch { block: merge_bb });
    let c = emit_code(c, Op::Seal { block: merge_bb });
    (out, c)
}

pub(crate) fn list_contains(
    b: &mut Builder,
    cx: &Ctx,
    elem: &Type,
    needle: &Vec<usize>,
    haystack: usize,
    seen: &Vec<Type>,
) -> (r: usize)
    ensures
        (r, final(b)@) == list_contains_code(old(b)@, cx@, elem@, needle@, haystack, type_views(seen@)),
{
    let ls = leaf_list(b, cx, elem);
    let len: usize = call_one(b, cx, "frog_list_len", haystack);
    let merge_bb: usize = put(b, Op::Block);
    let out: usize = put(b, Op::BlockParam { block: merge_bb, ty: ClType::I8 });
    let header_bb: usize = put(b, Op::Block);
    let body_bb: usize = put(b, Op::Block);
    let k: usize = put(b, Op::BlockParam { block: header_bb, ty: ClType::I64 });
    let stride: usize = list_stride(b, haystack);
    let zero: usize = iconst(b, ClType::I64, 0);
    emit(b, Op::Arg { val: zero });
    emit(b, Op::Jump { block: header_bb });
    emit(b, Op::Switch { block: header_bb });
    let in_range: usize = put(b, Op::Compare { test: Test::Less, a: k, b: len });
    let no: usize = iconst(b, ClType::I8, 0);
    emit(b, Op::ElseArg { val: no });
    emit(b, Op::Brif { cond: in_range, yes: body_bb, no: merge_bb });
    emit(b, Op::Switch { block: body_bb });
    emit(b, Op::Seal { block: body_bb });
    let base: usize = put(b, Op::Binary { op: BinOp::Imul, a: k, b: stride });
    let vals = load_words(b, haystack, base, &ls);
    let tys = leaf_types(&ls);
    declare_gc_leaves(b, &vals, &tys);
    let eq = eq_value(b, cx, elem, needle, &vals, 0, seen);
    let next: usize = put(b, Op::BinaryImm { op: BinOp::Iadd, a: k, imm: 1 });
    let yes: usize = iconst(b, ClType::I8, 1);
    emit(b, Op::Arg { val: yes });
    emit(b, Op::ElseArg { val: next });
    emit(b, Op::Brif { cond: eq.0, yes: merge_bb, no: header_bb });
    emit(b, Op::Seal { block: header_bb });
    emit(b, Op::Switch { block: merge_bb });
    emit(b, Op::Seal { block: merge_bb });
    out
}

/// Whether two values are equal, from the words at `cursor` on, and where the next ones start.
pub open spec fn eq_value_code(
    c: Code,
    cx: Env,
    ty: Ty,
    l: Seq<usize>,
    r2: Seq<usize>,
    cursor: usize,
    seen: Seq<Ty>,
) -> ((usize, usize), Code)
    decreases unvisited(cx.defs, seen), ty, 4int, 0int,
 {
    if ty.is_struct() {
        match find_struct(cx.defs, ty) {
            None => {
                let c = fail_code(c, Fault::UnknownField);
                ((0, cursor), c)
            },
            Some(fields) => {
                if seen.contains(ty) {
                    let c = fail_code(c, Fault::RecursiveType);
                    ((0, cursor), c)
                } else {
                    proof {
                        unvisited_shrinks(cx.defs, seen, ty);
                    }
                    let more = seen.push(ty);
                    let (all, c) = eq_fields_code(c, cx, fields, l, r2, cursor, more);
                    match all.0 {
                        Some(v) => {
                            ((v, all.1), c)
                        },
                        None => {
                            let (yes, c) = iconst_code(c, ClType::I8, 1);
                            ((yes, all.1), c)
                        },
                    }
                }
            },
        }
    } else if ty.is_list() {
        let elem = ty.elem();
        let (lv, c) = at_code(c, l, cursor);
        let (rv, c) = at_code(c, r2, cursor);
        let (eq, c) = eq_list_code(c, cx, elem, lv, rv, seen);
        ((eq, beyond(cursor, 1)), c)
    } else {
        match ty {
            Ty::Str => {
                let (lv, c) = at_code(c, l, cursor);
                let (rv, c) = at_code(c, r2, cursor);
                let (res, c) = call_two_code(c, cx, "frog_str_eq"@, lv, rv);
                let (eq, c) = put_code(c, Op::Convert { op: Conv::Low8, a: res });
                ((eq, beyond(cursor, 1)), c)
            },
            Ty::Int => {
                let (lv, c) = at_code(c, l, cursor);
                let (rv, c) = at_code(c, r2, cursor);
                let (eq, c) = put_code(c, Op::Compare { test: Test::Equal, a: lv, b: rv });
                ((eq, beyond(cursor, 1)), c)
            },
            Ty::Bool => {
                let (lv, c) = at_code(c, l, cursor);
                let (rv, c) = at_code(c, r2, cursor);
                let (eq, c) = put_code(c, Op::Compare { test: Test::Equal, a: lv, b: rv });
                ((eq, beyond(cursor, 1)), c)
            },
            Ty::Float => {
                let (lv, c) = at_code(c, l, cursor);
                let (rv, c) = at_code(c, r2, cursor);
                let (eq, c) = put_code(c, Op::FloatCompare { test: Test::Equal, a: lv, b: rv });
                ((eq, beyond(cursor, 1)), c)
            },
            Ty::TypeVar(_) => {
                let (yes, c) = iconst_code(c, ClType::I8, 1);
                ((yes, beyond(cursor, 1)), c)
            },
            Ty::Nil => {
                let (yes, c) = iconst_code(c, ClType::I8, 1);
                ((yes, beyond(cursor, 1)), c)
            },
            Ty::Union(ms) => {
                let (ls, c) = leaves_code(c, cx, ty);
                let (lpart, c) = slice_code(c, l, cursor, ls.len() as usize);
                let (rpart, c) = slice_code(c, r2, cursor, ls.len() as usize);
                let (eq, c) = eq_union_code(c, cx, ms, lpart, rpart, seen);
                ((eq, beyond(cursor, ls.len() as usize)), c)
            },
            _ => {
                let c = fail_code(c, Fault::UnsupportedType);
                ((0, cursor), c)
            },
        }
    }
}

#[verifier::rlimit(60)]
#[verifier::spinoff_prover]
pub(crate) fn eq_value(
    b: &mut Builder,
    cx: &Ctx,
    ty: &Type,
    l: &Vec<usize>,
    r2: &Vec<usize>,
    cursor: usize,
    seen: &Vec<Type>,
) -> (r: (usize, usize))
    ensures
        (r, final(b)@) == eq_value_code(old(b)@, cx@, ty@, l@, r2@, cursor, type_views(seen@)),
    decreases unvisited(cx.structs@, type_views(seen@)), ty, 4int, 0int,
{
    if ty.is_struct() {
        match cx.structs.get(ty) {
            None => {
                fail(b, Fault::UnknownField);
                (0, cursor)
            },
            Some(fields) => {
                if contains_type(seen, ty) {
                    fail(b, Fault::RecursiveType);
                    (0, cursor)
                } else {
                    proof {
                        unvisited_shrinks(cx.structs@, type_views(seen@), ty@);
                    }
                    let more = with_type(seen, ty);
                    let all = eq_fields(b, cx, fields, l, r2, cursor, &more);
                    match all.0 {
                        Some(v) => {
                            (v, all.1)
                        },
                        None => {
                            let yes: usize = iconst(b, ClType::I8, 1);
                            (yes, all.1)
                        },
                    }
                }
            },
        }
    } else if ty.is_list() {
        let elem = ty.as_list_elem().unwrap();
        let lv: usize = at(b, l, cursor);
        let rv: usize = at(b, r2, cursor);
        let eq: usize = eq_list(b, cx, elem, lv, rv, seen);
        (eq, past(cursor, 1))
    } else {
        match ty {
            Type::Str => {
                let lv: usize = at(b, l, cursor);
                let rv: usize = at(b, r2, cursor);
                let res: usize = call_two(b, cx, "frog_str_eq", lv, rv);
                let eq: usize = put(b, Op::Convert { op: Conv::Low8, a: res });
                (eq, past(cursor, 1))
            },
            Type::Int => {
                let lv: usize = at(b, l, cursor);
                let rv: usize = at(b, r2, cursor);
                let eq: usize = put(b, Op::Compare { test: Test::Equal, a: lv, b: rv });
                (eq, past(cursor, 1))
            },
            Type::Bool => {
                let lv: usize = at(b, l, cursor);
                let rv: usize = at(b, r2, cursor);
                let eq: usize = put(b, Op::Compare { test: Test::Equal, a: lv, b: rv });
                (eq, past(cursor, 1))
            },
            Type::Float => {
                let lv: usize = at(b, l, cursor);
                let rv: usize = at(b, r2, cursor);
                let eq: usize = put(b, Op::FloatCompare { test: Test::Equal, a: lv, b: rv });
                (eq, past(cursor, 1))
            },
            Type::TypeVar { id: _ } => {
                let yes: usize = iconst(b, ClType::I8, 1);
                (yes, past(cursor, 1))
            },
            Type::Nil => {
                let yes: usize = iconst(b, ClType::I8, 1);
                (yes, past(cursor, 1))
            },
            Type::Union(ms) => {
                let ls = leaf_list(b, cx, ty);
                let lpart = slice(b, l, cursor, ls.len());
                let rpart = slice(b, r2, cursor, ls.len());
                let eq: usize = eq_union(b, cx, ms, &lpart, &rpart, seen);
                (eq, past(cursor, ls.len()))
            },
            _ => {
                fail(b, Fault::UnsupportedType);
                (0, cursor)
            },
        }
    }
}

pub open spec fn eq_fields_upto(
    c: Code,
    cx: Env,
    fields: Seq<FieldView>,
    l: Seq<usize>,
    r2: Seq<usize>,
    cursor: usize,
    seen: Seq<Ty>,
    n: nat,
) -> ((Option<usize>, usize), Code)
    decreases unvisited(cx.defs, seen), fields, 1int, n,
{
    if n == 0 || n > fields.len() {
        ((None::<usize>, cursor), c)
    } else {
        let (acc, c) = eq_fields_upto(c, cx, fields, l, r2, cursor, seen, (n - 1) as nat);
        let i = (n - 1) as usize;
        let (sub, c) = eq_value_code(c, cx, fields[n - 1].1, l, r2, acc.1, seen);
        let (both, c) = match acc.0 {
            None => {
                (sub.0, c)
            },
            Some(prev) => {
                put_code(c, Op::Binary { op: BinOp::Band, a: prev, b: sub.0 })
            },
        };
        let acc = (Some(both), sub.1);
        (acc, c)
    }
}

/// Whether all fields are equal.
pub open spec fn eq_fields_code(
    c: Code,
    cx: Env,
    fields: Seq<FieldView>,
    l: Seq<usize>,
    r2: Seq<usize>,
    cursor: usize,
    seen: Seq<Ty>,
) -> ((Option<usize>, usize), Code)
    decreases unvisited(cx.defs, seen), fields, 2int, 0int,
 {
    eq_fields_upto(c, cx, fields, l, r2, cursor, seen, fields.len())
}

pub(crate) fn eq_fields(
    b: &mut Builder,
    cx: &Ctx,
    fields: &Vec<(String, Type)>,
    l: &Vec<usize>,
    r2: &Vec<usize>,
    cursor: usize,
    seen: &Vec<Type>,
) -> (r: (Option<usize>, usize))
    ensures
        (r, final(b)@) == eq_fields_code(old(b)@, cx@, field_views(fields@), l@, r2@, cursor, type_views(seen@)),
    decreases unvisited(cx.structs@, type_views(seen@)), fields, 2int, 0int,
{
    proof {
        type_views_index(seen@);
    }
    let total: usize = fields.len();
    let mut acc = (None, cursor);
    let mut i: usize = 0;
    while i < total
        invariant
            i <= total,
            total == field_views(fields@).len(),
            type_views(seen@).len() == seen.len(),
            forall|k: int| 0 <= k < seen.len() ==> #[trigger] type_views(seen@)[k] == seen@[k]@,
            (acc, b@) == eq_fields_upto(old(b)@, cx@, field_views(fields@), l@, r2@, cursor, type_views(seen@), i as nat),
        decreases total - i,
    {
        let sub = eq_value(b, cx, &fields[i].1, l, r2, acc.1, seen);
        let both = match acc.0 {
            None => {
                sub.0
            },
            Some(prev) => {
                put(b, Op::Binary { op: BinOp::Band, a: prev, b: sub.0 })
            },
        };
        acc = (Some(both), sub.1);
        i = i + 1;
    }
    acc
}

/// Whether two unions hold the same member, and equal ones.
pub open spec fn eq_union_code(
    c: Code,
    cx: Env,
    members: Seq<Ty>,
    l: Seq<usize>,
    r2: Seq<usize>,
    seen: Seq<Ty>,
) -> (usize, Code)
    decreases unvisited(cx.defs, seen), members, 6int, 0int,
 {
    if seen.contains(Ty::Union(members)) {
        let c = fail_code(c, Fault::RecursiveType);
        (0usize, c)
    } else {
        proof {
            unvisited_shrinks(cx.defs, seen, Ty::Union(members));
        }
        let more = seen.push(Ty::Union(members));
        let inlined = unboxed(members, cx.defs);
        let (cases, c) = dispatch_cases_code(c, cx, members, inlined);
        let (merge_bb, c) = put_code(c, Op::Block);
        let (out, c) = put_code(c, Op::BlockParam { block: merge_bb, ty: ClType::I8 });
        let c = if cases.len() == 0 {
            let c = fail_code(c, Fault::Arity);
            c
        } else {
            c
        };
        let c = eq_cases_code(c, cx, members, l, r2, cases, inlined, merge_bb, more);
        let c = emit_code(c, Op::Switch { block: merge_bb });
        let c = emit_code(c, Op::Seal { block: merge_bb });
        (out, c)
    }
}

pub(crate) fn eq_union(
    b: &mut Builder,
    cx: &Ctx,
    members: &Vec<Type>,
    l: &Vec<usize>,
    r2: &Vec<usize>,
    seen: &Vec<Type>,
) -> (r: usize)
    ensures
        (r, final(b)@) == eq_union_code(old(b)@, cx@, type_views(members@), l@, r2@, type_views(seen@)),
    decreases unvisited(cx.structs@, type_views(seen@)), members, 6int, 0int,
{
    if contains_union(seen, members) {
        fail(b, Fault::RecursiveType);
        0usize
    } else {
        proof {
            unvisited_shrinks(cx.structs@, type_views(seen@), Ty::Union(type_views(members@)));
        }
        let more = with_union(seen, members);
        let inlined = union_is_inline(members, cx.structs);
        let cases = dispatch_cases(b, cx, members, inlined);
        let merge_bb: usize = put(b, Op::Block);
        let out: usize = put(b, Op::BlockParam { block: merge_bb, ty: ClType::I8 });
        if cases.len() == 0 {
            fail(b, Fault::Arity);
        }
        eq_cases(b, cx, members, l, r2, &cases, inlined, merge_bb, &more);
        emit(b, Op::Switch { block: merge_bb });
        emit(b, Op::Seal { block: merge_bb });
        out
    }
}

pub open spec fn eq_cases_upto(
    c: Code,
    cx: Env,
    members: Seq<Ty>,
    l: Seq<usize>,
    r2: Seq<usize>,
    cases: Seq<(usize, u32)>,
    inlined: bool,
    merge_bb: usize,
    seen: Seq<Ty>,
    n: nat,
) -> Code
    decreases unvisited(cx.defs, seen), members, 2int, n,
{
    if n == 0 || n > cases.len() {
        c
    } else {
        let c = eq_cases_upto(c, cx, members, l, r2, cases, inlined, merge_bb, seen, (n - 1) as nat);
        let i = (n - 1) as usize;
        let index = cases[i as int].0;
        let tag = cases[i as int].1;
        let (body_bb, c) = put_code(c, Op::Block);
        let is_last = i == cases.len() - 1;
        let (cont_bb, c) = if is_last {
            let c = emit_code(c, Op::Jump { block: body_bb });
            (0usize, c)
        } else {
            let (next_bb, c) = put_code(c, Op::Block);
            let (test, c) = union_tag_test_code(c, members, index, tag, l, inlined, nominal(members, inlined, cx.unions));
            let c = emit_code(c, Op::Brif { cond: test, yes: body_bb, no: next_bb });
            (next_bb, c)
        };
        let c = emit_code(c, Op::Switch { block: body_bb });
        let c = emit_code(c, Op::Seal { block: body_bb });
        let (same_bb, c) = put_code(c, Op::Block);
        let (r_match, c) = union_tag_test_code(c, members, index, tag, r2, inlined, nominal(members, inlined, cx.unions));
        let (no, c) = iconst_code(c, ClType::I8, 0);
        let c = emit_code(c, Op::ElseArg { val: no });
        let c = emit_code(c, Op::Brif { cond: r_match, yes: same_bb, no: merge_bb });
        let c = emit_code(c, Op::Switch { block: same_bb });
        let c = emit_code(c, Op::Seal { block: same_bb });
        let (eq, c) = eq_member_code(c, cx, members, index, l, r2, inlined, seen);
        let c = emit_code(c, Op::Arg { val: eq });
        let c = emit_code(c, Op::Jump { block: merge_bb });
        let c = if !is_last {
            let c = emit_code(c, Op::Switch { block: cont_bb });
            let c = emit_code(c, Op::Seal { block: cont_bb });
            c
        } else {
            c
        };
        c
    }
}

/// Finds the member that the left one holds, and asks whether the right one holds the same.
pub open spec fn eq_cases_code(
    c: Code,
    cx: Env,
    members: Seq<Ty>,
    l: Seq<usize>,
    r2: Seq<usize>,
    cases: Seq<(usize, u32)>,
    inlined: bool,
    merge_bb: usize,
    seen: Seq<Ty>,
) -> Code
    decreases unvisited(cx.defs, seen), members, 3int, 0int,
 {
    eq_cases_upto(c, cx, members, l, r2, cases, inlined, merge_bb, seen, cases.len())
}

pub(crate) fn eq_cases(
    b: &mut Builder,
    cx: &Ctx,
    members: &Vec<Type>,
    l: &Vec<usize>,
    r2: &Vec<usize>,
    cases: &Vec<(usize, u32)>,
    inlined: bool,
    merge_bb: usize,
    seen: &Vec<Type>,
)
    ensures
        final(b)@ == eq_cases_code(old(b)@, cx@, type_views(members@), l@, r2@, cases@, inlined, merge_bb, type_views(seen@)),
    decreases unvisited(cx.structs@, type_views(seen@)), members, 3int, 0int,
{
    proof {
        type_views_index(members@);
        type_views_index(seen@);
    }
    let total: usize = cases.len();
    let mut i: usize = 0;
    while i < total
        invariant
            i <= total,
            total == cases@.len(),
            type_views(members@).len() == members.len(),
            forall|k: int| 0 <= k < members.len() ==> #[trigger] type_views(members@)[k] == members@[k]@,
            type_views(seen@).len() == seen.len(),
            forall|k: int| 0 <= k < seen.len() ==> #[trigger] type_views(seen@)[k] == seen@[k]@,
            b@ == eq_cases_upto(old(b)@, cx@, type_views(members@), l@, r2@, cases@, inlined, merge_bb, type_views(seen@), i as nat),
        decreases total - i,
    {
        let index: usize = cases[i].0;
        let tag: u32 = cases[i].1;
        let body_bb: usize = put(b, Op::Block);
        let is_last = i == cases.len() - 1;
        let cont_bb = if is_last {
            emit(b, Op::Jump { block: body_bb });
            0usize
        } else {
            let next_bb: usize = put(b, Op::Block);
            let test: usize = union_tag_test(b, members, index, tag, l, inlined, nominal_of(members, inlined, cx));
            emit(b, Op::Brif { cond: test, yes: body_bb, no: next_bb });
            next_bb
        };
        emit(b, Op::Switch { block: body_bb });
        emit(b, Op::Seal { block: body_bb });
        let same_bb: usize = put(b, Op::Block);
        let r_match: usize = union_tag_test(b, members, index, tag, r2, inlined, nominal_of(members, inlined, cx));
        let no: usize = iconst(b, ClType::I8, 0);
        emit(b, Op::ElseArg { val: no });
        emit(b, Op::Brif { cond: r_match, yes: same_bb, no: merge_bb });
        emit(b, Op::Switch { block: same_bb });
        emit(b, Op::Seal { block: same_bb });
        let eq: usize = eq_member(b, cx, members, index, l, r2, inlined, seen);
        emit(b, Op::Arg { val: eq });
        emit(b, Op::Jump { block: merge_bb });
        if !is_last {
            emit(b, Op::Switch { block: cont_bb });
            emit(b, Op::Seal { block: cont_bb });
        }
        i = i + 1;
    }
}

/// Whether the member that both unions are known to hold is equal in both.
pub open spec fn eq_member_code(
    c: Code,
    cx: Env,
    members: Seq<Ty>,
    index: usize,
    l: Seq<usize>,
    r2: Seq<usize>,
    inlined: bool,
    seen: Seq<Ty>,
) -> (usize, Code)
    decreases unvisited(cx.defs, seen), members, 1int, 0int,
 {
    if index < members.len() {
        let (lvals, c) = unpack_union_slots_code(c, cx, members, members[index as int], l, inlined);
        let (rvals, c) = unpack_union_slots_code(c, cx, members, members[index as int], r2, inlined);
        let (eq, c) = eq_value_code(c, cx, members[index as int], lvals, rvals, 0, seen);
        (eq.0, c)
    } else {
        let c = fail_code(c, Fault::UnknownVariant);
        (0usize, c)
    }
}

pub(crate) fn eq_member(
    b: &mut Builder,
    cx: &Ctx,
    members: &Vec<Type>,
    index: usize,
    l: &Vec<usize>,
    r2: &Vec<usize>,
    inlined: bool,
    seen: &Vec<Type>,
) -> (r: usize)
    ensures
        (r, final(b)@) == eq_member_code(old(b)@, cx@, type_views(members@), index, l@, r2@, inlined, type_views(seen@)),
    decreases unvisited(cx.structs@, type_views(seen@)), members, 1int, 0int,
{
    proof {
        type_views_index(members@);
        type_views_index(seen@);
    }
    if index < members.len() {
        let lvals = unpack_union_slots(b, cx, members, &members[index], l, inlined);
        let rvals = unpack_union_slots(b, cx, members, &members[index], r2, inlined);
        let eq = eq_value(b, cx, &members[index], &lvals, &rvals, 0, seen);
        eq.0
    } else {
        fail(b, Fault::UnknownVariant);
        0usize
    }
}

} // verus!
