//! Emitting the operations that values in memory need.
use crate::ir::{
    at, emit, emit_code, fail, fail_code, find_var, invoke, invoke_code, leaf_list, leaves_code, lookup_var, name_var,
    name_var_code, one, put, put_code, BinOp, Builder, ClType, Code, Conv, Ctx, Env, Fault, Field, Op, Test,
};
use crate::layout::{heap, is_heap_ty};
use crate::pack::{gc_mask, mask};
use crate::types::{field_views, type_views, type_views_index, FieldView, Ty, Type};
use vstd::prelude::*;

verus! {

/// The word of an immediate: a member that is nothing but its tag.
pub open spec fn immediate(tag: u32) -> i64 {
    ((tag as i64) << 3u32) | 7i64
}

/// The word of an immediate: a member that is nothing but its tag. Its low
/// three bits are set, which no pointer's are.
pub(crate) fn immediate_variant(tag: u32) -> (r: i64)
    ensures
        r == immediate(tag),
{
    ((tag as i64) << 3u32) | 7i64
}

/// The machine type of a word of this type.
pub open spec fn machine(ty: Ty) -> ClType {
    match ty {
        Ty::Bool => ClType::I8,
        Ty::Float => ClType::F64,
        _ => ClType::I64,
    }
}

/// The machine type of a word of this type.
pub(crate) fn cl_type(ty: &Type) -> (r: ClType)
    ensures
        r == machine(ty@),
{
    match ty {
        Type::Bool => ClType::I8,
        Type::Float => ClType::F64,
        _ => ClType::I64,
    }
}

pub(crate) fn is_bool(ty: &Type) -> (r: bool)
    ensures
        r == ty@ is Bool,
{
    match ty {
        Type::Bool => true,
        _ => false,
    }
}

pub(crate) fn is_int(ty: &Type) -> (r: bool)
    ensures
        r == ty@ is Int,
{
    match ty {
        Type::Int => true,
        _ => false,
    }
}

pub(crate) fn is_float(ty: &Type) -> (r: bool)
    ensures
        r == ty@ is Float,
{
    match ty {
        Type::Float => true,
        _ => false,
    }
}

fn is_i64(ty: ClType) -> (r: bool)
    ensures
        r == (ty == ClType::I64),
{
    match ty {
        ClType::I64 => true,
        _ => false,
    }
}

/// The smaller of two lengths.
pub open spec fn min_nat(a: nat, b: nat) -> nat {
    if a < b {
        a
    } else {
        b
    }
}

pub(crate) fn min_len(a: usize, b: usize) -> (r: usize)
    ensures
        r == min_nat(a as nat, b as nat),
{
    if a < b {
        a
    } else {
        b
    }
}

/// The constant that a value is, where it is one.
pub open spec fn constant(c: Code, v: usize) -> Option<i64> {
    if v < c.ops.len() {
        match c.ops[v as int] {
            Op::Iconst { ty: _, imm } => Some(imm),
            _ => None,
        }
    } else {
        None
    }
}

/// The constant that a value is, where it is one, read back from the code.
pub(crate) fn const_i64(b: &Builder, v: usize) -> (r: Option<i64>)
    ensures
        r == constant(b@, v),
{
    if v < b.ops.len() {
        match b.ops[v] {
            Op::Iconst { ty: _, imm } => Some(imm),
            _ => None,
        }
    } else {
        None
    }
}

/// An integer constant.
pub open spec fn iconst_code(c: Code, ty: ClType, imm: i64) -> (usize, Code) {
    put_code(c, Op::Iconst { ty, imm })
}

pub(crate) fn iconst(b: &mut Builder, ty: ClType, imm: i64) -> (r: usize)
    ensures
        (r, final(b)@) == iconst_code(old(b)@, ty, imm),
{
    put(b, Op::Iconst { ty, imm })
}

/// The address of a word of a list. The buffer is loaded anew each time: an append may have moved it.
pub open spec fn list_slot_addr_code(c: Code, list: usize, slot: usize) -> (usize, Code) {
    let (data, c) = put_code(c, Op::Load { ty: ClType::I64, base: list, at: Field::ListData });
    let (off, c) = put_code(c, Op::BinaryImm { op: BinOp::Imul, a: slot, imm: 8 });
    put_code(c, Op::Binary { op: BinOp::Iadd, a: data, b: off })
}

pub(crate) fn list_slot_addr(b: &mut Builder, list: usize, slot: usize) -> (r: usize)
    ensures
        (r, final(b)@) == list_slot_addr_code(old(b)@, list, slot),
{
    let data: usize = put(b, Op::Load { ty: ClType::I64, base: list, at: Field::ListData });
    let off: usize = put(b, Op::BinaryImm { op: BinOp::Imul, a: slot, imm: 8 });
    put(b, Op::Binary { op: BinOp::Iadd, a: data, b: off })
}

/// How many words an element of a list has, at least one.
pub open spec fn list_stride_code(c: Code, list: usize) -> (usize, Code) {
    let (raw, c) = put_code(c, Op::Load { ty: ClType::I32, base: list, at: Field::ListStride });
    let (wide, c) = put_code(c, Op::Convert { op: Conv::Widen, a: raw });
    let (is_zero, c) = put_code(c, Op::CompareImm { test: Test::Equal, a: wide, imm: 0 });
    let (one_val, c) = iconst_code(c, ClType::I64, 1);
    put_code(c, Op::Select { cond: is_zero, a: one_val, b: wide })
}

pub(crate) fn list_stride(b: &mut Builder, list: usize) -> (r: usize)
    ensures
        (r, final(b)@) == list_stride_code(old(b)@, list),
{
    let raw: usize = put(b, Op::Load { ty: ClType::I32, base: list, at: Field::ListStride });
    let wide: usize = put(b, Op::Convert { op: Conv::Widen, a: raw });
    let is_zero: usize = put(b, Op::CompareImm { test: Test::Equal, a: wide, imm: 0 });
    let one_val: usize = iconst(b, ClType::I64, 1);
    put(b, Op::Select { cond: is_zero, a: one_val, b: wide })
}

/// Marks a heap object as reachable along more than one path.
pub open spec fn mark_shared_code(c: Code, val: usize) -> Code {
    let (flag, c) = iconst_code(c, ClType::I8, 1);
    let c = emit_code(c, Op::Store { val: flag, base: val, at: Field::Shared });
    c
}

pub(crate) fn mark_shared(b: &mut Builder, val: usize)
    ensures
        final(b)@ == mark_shared_code(old(b)@, val),
{
    let flag: usize = iconst(b, ClType::I8, 1);
    emit(b, Op::Store { val: flag, base: val, at: Field::Shared });
}

/// Makes a value of this type a root, where the collector reads it.
pub open spec fn declare_gc_value_code(c: Code, ty: Ty, val: usize) -> Code {
    if heap(ty) {
        let c = emit_code(c, Op::GcValue { val });
        c
    } else {
        c
    }
}

pub(crate) fn declare_gc_value(b: &mut Builder, ty: &Type, val: usize)
    ensures
        final(b)@ == declare_gc_value_code(old(b)@, ty@, val),
{
    if is_heap_ty(ty) {
        emit(b, Op::GcValue { val });
    }
}

pub open spec fn declare_gc_leaves_upto(c: Code, vals: Seq<usize>, tys: Seq<Ty>, n: nat) -> Code
    decreases n,
{
    if n == 0 {
        c
    } else {
        let c = declare_gc_leaves_upto(c, vals, tys, (n - 1) as nat);
        let i = (n - 1) as usize;
        let c = declare_gc_value_code(c, tys[i as int], vals[i as int]);
        c
    }
}

/// Makes each word of a flattened value a root, where the collector reads it.
pub open spec fn declare_gc_leaves_code(c: Code, vals: Seq<usize>, tys: Seq<Ty>) -> Code {
    declare_gc_leaves_upto(c, vals, tys, min_nat(vals.len(), tys.len()))
}

pub(crate) fn declare_gc_leaves(b: &mut Builder, vals: &Vec<usize>, tys: &Vec<Type>)
    ensures
        final(b)@ == declare_gc_leaves_code(old(b)@, vals@, type_views(tys@)),
{
    proof {
        type_views_index(tys@);
    }
    let total: usize = min_len(vals.len(), tys.len());
    let mut i: usize = 0;
    while i < total
        invariant
            i <= total,
            total == min_nat(vals@.len(), type_views(tys@).len()),
            type_views(tys@).len() == tys.len(),
            forall|k: int| 0 <= k < tys.len() ==> #[trigger] type_views(tys@)[k] == tys@[k]@,
            b@ == declare_gc_leaves_upto(old(b)@, vals@, type_views(tys@), i as nat),
        decreases total - i,
    {
        declare_gc_value(b, &tys[i], vals[i]);
        i = i + 1;
    }
}

pub open spec fn mark_shared_leaves_upto(c: Code, vals: Seq<usize>, ls: Seq<FieldView>, n: nat) -> Code
    decreases n,
{
    if n == 0 {
        c
    } else {
        let c = mark_shared_leaves_upto(c, vals, ls, (n - 1) as nat);
        let i = (n - 1) as usize;
        let c = if ls[i as int].1.is_list() {
            let c = mark_shared_code(c, vals[i as int]);
            c
        } else {
            c
        };
        c
    }
}

/// Marks every list among the words of a flattened value as shared.
pub open spec fn mark_shared_leaves_code(c: Code, vals: Seq<usize>, ls: Seq<FieldView>) -> Code {
    mark_shared_leaves_upto(c, vals, ls, min_nat(vals.len(), ls.len()))
}

pub(crate) fn mark_shared_leaves(b: &mut Builder, vals: &Vec<usize>, ls: &Vec<(String, Type)>)
    ensures
        final(b)@ == mark_shared_leaves_code(old(b)@, vals@, field_views(ls@)),
{
    let total: usize = min_len(vals.len(), ls.len());
    let mut i: usize = 0;
    while i < total
        invariant
            i <= total,
            total == min_nat(vals@.len(), field_views(ls@).len()),
            b@ == mark_shared_leaves_upto(old(b)@, vals@, field_views(ls@), i as nat),
        decreases total - i,
    {
        if ls[i].1.is_list() {
            mark_shared(b, vals[i]);
        }
        i = i + 1;
    }
}

/// Marks every list in a value that was just read out of a container, which keeps its own path to it.
pub open spec fn mark_shared_extracted_code(c: Code, cx: Env, ty: Ty, vals: Seq<usize>) -> Code {
    let (ls, c) = leaves_code(c, cx, ty);
    let c = mark_shared_leaves_code(c, vals, ls);
    c
}

pub(crate) fn mark_shared_extracted(b: &mut Builder, cx: &Ctx, ty: &Type, vals: &Vec<usize>)
    ensures
        final(b)@ == mark_shared_extracted_code(old(b)@, cx@, ty@, vals@),
{
    let ls = leaf_list(b, cx, ty);
    mark_shared_leaves(b, vals, &ls);
}

/// The write barrier: a version of a heap object that nothing else can observe,
/// copied first where it is shared. `allowed` is how many live references may
/// reach it.
pub open spec fn unshare_code(c: Code, cx: Env, val: usize, allowed: i64) -> (usize, Code) {
    let (flag, c) = put_code(c, Op::Load { ty: ClType::I8, base: val, at: Field::Shared });
    let (copy_bb, c) = put_code(c, Op::Block);
    let (keep_bb, c) = put_code(c, Op::Block);
    let (done_bb, c) = put_code(c, Op::Block);
    let (out, c) = put_code(c, Op::BlockParam { block: done_bb, ty: ClType::I64 });
    let c = emit_code(c, Op::Brif { cond: flag, yes: copy_bb, no: keep_bb });
    let c = emit_code(c, Op::Switch { block: keep_bb });
    let c = emit_code(c, Op::Seal { block: keep_bb });
    let c = if cx.verify {
        let (allowed_val, c) = iconst_code(c, ClType::I64, allowed);
        let c = emit_code(c, Op::Arg { val });
        let c = emit_code(c, Op::Arg { val: allowed_val });
        let c = invoke_code(c, cx, "frog_cow_verify"@);
        c
    } else {
        c
    };
    let c = emit_code(c, Op::Arg { val });
    let c = emit_code(c, Op::Jump { block: done_bb });
    let c = emit_code(c, Op::Switch { block: copy_bb });
    let c = emit_code(c, Op::Seal { block: copy_bb });
    let c = emit_code(c, Op::Arg { val });
    let c = invoke_code(c, cx, "frog_clone"@);
    let (cloned, c) = put_code(c, Op::Result { index: 0 });
    let c = emit_code(c, Op::GcValue { val: cloned });
    let c = emit_code(c, Op::Arg { val: cloned });
    let c = emit_code(c, Op::Jump { block: done_bb });
    let c = emit_code(c, Op::Switch { block: done_bb });
    let c = emit_code(c, Op::Seal { block: done_bb });
    let c = emit_code(c, Op::GcValue { val: out });
    (out, c)
}

pub(crate) fn unshare(b: &mut Builder, cx: &Ctx, val: usize, allowed: i64) -> (r: usize)
    ensures
        (r, final(b)@) == unshare_code(old(b)@, cx@, val, allowed),
{
    let flag: usize = put(b, Op::Load { ty: ClType::I8, base: val, at: Field::Shared });
    let copy_bb: usize = put(b, Op::Block);
    let keep_bb: usize = put(b, Op::Block);
    let done_bb: usize = put(b, Op::Block);
    let out: usize = put(b, Op::BlockParam { block: done_bb, ty: ClType::I64 });
    emit(b, Op::Brif { cond: flag, yes: copy_bb, no: keep_bb });
    emit(b, Op::Switch { block: keep_bb });
    emit(b, Op::Seal { block: keep_bb });
    if cx.cow_verify {
        let allowed_val: usize = iconst(b, ClType::I64, allowed);
        emit(b, Op::Arg { val });
        emit(b, Op::Arg { val: allowed_val });
        invoke(b, cx, "frog_cow_verify");
    }
    emit(b, Op::Arg { val });
    emit(b, Op::Jump { block: done_bb });
    emit(b, Op::Switch { block: copy_bb });
    emit(b, Op::Seal { block: copy_bb });
    emit(b, Op::Arg { val });
    invoke(b, cx, "frog_clone");
    let cloned: usize = put(b, Op::Result { index: 0 });
    emit(b, Op::GcValue { val: cloned });
    emit(b, Op::Arg { val: cloned });
    emit(b, Op::Jump { block: done_bb });
    emit(b, Op::Switch { block: done_bb });
    emit(b, Op::Seal { block: done_bb });
    emit(b, Op::GcValue { val: out });
    out
}

/// The word in which a value of this type is kept in memory.
pub open spec fn to_i64_repr_code(c: Code, ty: Ty, val: usize) -> (usize, Code) {
    match ty {
        Ty::Float => {
            put_code(c, Op::Convert { op: Conv::FloatBits, a: val })
        },
        Ty::Bool => {
            put_code(c, Op::Convert { op: Conv::Widen, a: val })
        },
        _ => {
            (val, c)
        },
    }
}

pub(crate) fn to_i64_repr(b: &mut Builder, ty: &Type, val: usize) -> (r: usize)
    ensures
        (r, final(b)@) == to_i64_repr_code(old(b)@, ty@, val),
{
    match ty {
        Type::Float => {
            put(b, Op::Convert { op: Conv::FloatBits, a: val })
        },
        Type::Bool => {
            put(b, Op::Convert { op: Conv::Widen, a: val })
        },
        _ => {
            val
        },
    }
}

/// The value of this type that a word in memory stands for.
pub open spec fn from_i64_repr_code(c: Code, ty: Ty, val: usize) -> (usize, Code) {
    match ty {
        Ty::Float => {
            put_code(c, Op::Convert { op: Conv::BitsFloat, a: val })
        },
        Ty::Bool => {
            put_code(c, Op::Convert { op: Conv::Low8, a: val })
        },
        _ => {
            (val, c)
        },
    }
}

pub(crate) fn from_i64_repr(b: &mut Builder, ty: &Type, val: usize) -> (r: usize)
    ensures
        (r, final(b)@) == from_i64_repr_code(old(b)@, ty@, val),
{
    match ty {
        Type::Float => {
            put(b, Op::Convert { op: Conv::BitsFloat, a: val })
        },
        Type::Bool => {
            put(b, Op::Convert { op: Conv::Low8, a: val })
        },
        _ => {
            val
        },
    }
}

pub open spec fn store_words_upto(c: Code, vals: Seq<usize>, base: usize, n: nat) -> Code
    decreases n,
{
    if n == 0 {
        c
    } else {
        let c = store_words_upto(c, vals, base, (n - 1) as nat);
        let i = (n - 1) as usize;
        let c = emit_code(c, Op::Store { val: vals[i as int], base, at: Field::Word(i) });
        c
    }
}

/// Stores the words of an element.
pub open spec fn store_words_code(c: Code, vals: Seq<usize>, base: usize) -> Code {
    store_words_upto(c, vals, base, vals.len())
}

pub(crate) fn store_words(b: &mut Builder, vals: &Vec<usize>, base: usize)
    ensures
        final(b)@ == store_words_code(old(b)@, vals@, base),
{
    let total: usize = vals.len();
    let mut i: usize = 0;
    while i < total
        invariant
            i <= total,
            total == vals@.len(),
            b@ == store_words_upto(old(b)@, vals@, base, i as nat),
        decreases total - i,
    {
        emit(b, Op::Store { val: vals[i], base, at: Field::Word(i) });
        i = i + 1;
    }
}

pub open spec fn push_words_upto(c: Code, cx: Env, vals: Seq<usize>, list: usize, n: nat) -> Code
    decreases n,
{
    if n == 0 {
        c
    } else {
        let c = push_words_upto(c, cx, vals, list, (n - 1) as nat);
        let i = (n - 1) as usize;
        let c = emit_code(c, Op::Arg { val: list });
        let c = emit_code(c, Op::Arg { val: vals[i as int] });
        let c = invoke_code(c, cx, "frog_list_push"@);
        c
    }
}

/// Appends the words of an element one by one.
pub open spec fn push_words_code(c: Code, cx: Env, vals: Seq<usize>, list: usize) -> Code {
    push_words_upto(c, cx, vals, list, vals.len())
}

pub(crate) fn push_words(b: &mut Builder, cx: &Ctx, vals: &Vec<usize>, list: usize)
    ensures
        final(b)@ == push_words_code(old(b)@, cx@, vals@, list),
{
    let total: usize = vals.len();
    let mut i: usize = 0;
    while i < total
        invariant
            i <= total,
            total == vals@.len(),
            b@ == push_words_upto(old(b)@, cx@, vals@, list, i as nat),
        decreases total - i,
    {
        emit(b, Op::Arg { val: list });
        emit(b, Op::Arg { val: vals[i] });
        invoke(b, cx, "frog_list_push");
        i = i + 1;
    }
}

/// Appends one element: with room for all its words they are stored in place, else the list grows.
pub open spec fn emit_list_push_code(c: Code, cx: Env, list: usize, vals: Seq<usize>) -> Code {
    let (len, c) = put_code(c, Op::Load { ty: ClType::I32, base: list, at: Field::ListLen });
    let (cap, c) = put_code(c, Op::Load { ty: ClType::I32, base: list, at: Field::ListCap });
    let (len64, c) = put_code(c, Op::Convert { op: Conv::Widen, a: len });
    let (cap64, c) = put_code(c, Op::Convert { op: Conv::Widen, a: cap });
    let (need, c) = put_code(c, Op::BinaryImm { op: BinOp::Iadd, a: len64, imm: (vals.len() as usize) as i64 });
    let (has_room, c) = put_code(c, Op::Compare { test: Test::UnsignedLessEqual, a: need, b: cap64 });
    let (fast_bb, c) = put_code(c, Op::Block);
    let (slow_bb, c) = put_code(c, Op::Block);
    let (done_bb, c) = put_code(c, Op::Block);
    let c = emit_code(c, Op::Brif { cond: has_room, yes: fast_bb, no: slow_bb });
    let c = emit_code(c, Op::Switch { block: fast_bb });
    let c = emit_code(c, Op::Seal { block: fast_bb });
    let (base, c) = list_slot_addr_code(c, list, len64);
    let c = store_words_code(c, vals, base);
    let (next_len, c) = put_code(c, Op::Convert { op: Conv::Low32, a: need });
    let c = emit_code(c, Op::Store { val: next_len, base: list, at: Field::ListLen });
    let c = emit_code(c, Op::Jump { block: done_bb });
    let c = emit_code(c, Op::Switch { block: slow_bb });
    let c = emit_code(c, Op::Seal { block: slow_bb });
    let c = push_words_code(c, cx, vals, list);
    let c = emit_code(c, Op::Jump { block: done_bb });
    let c = emit_code(c, Op::Switch { block: done_bb });
    let c = emit_code(c, Op::Seal { block: done_bb });
    c
}

pub(crate) fn emit_list_push(b: &mut Builder, cx: &Ctx, list: usize, vals: &Vec<usize>)
    ensures
        final(b)@ == emit_list_push_code(old(b)@, cx@, list, vals@),
{
    let len: usize = put(b, Op::Load { ty: ClType::I32, base: list, at: Field::ListLen });
    let cap: usize = put(b, Op::Load { ty: ClType::I32, base: list, at: Field::ListCap });
    let len64: usize = put(b, Op::Convert { op: Conv::Widen, a: len });
    let cap64: usize = put(b, Op::Convert { op: Conv::Widen, a: cap });
    let need: usize = put(b, Op::BinaryImm { op: BinOp::Iadd, a: len64, imm: vals.len() as i64 });
    let has_room: usize = put(b, Op::Compare { test: Test::UnsignedLessEqual, a: need, b: cap64 });
    let fast_bb: usize = put(b, Op::Block);
    let slow_bb: usize = put(b, Op::Block);
    let done_bb: usize = put(b, Op::Block);
    emit(b, Op::Brif { cond: has_room, yes: fast_bb, no: slow_bb });
    emit(b, Op::Switch { block: fast_bb });
    emit(b, Op::Seal { block: fast_bb });
    let base: usize = list_slot_addr(b, list, len64);
    store_words(b, vals, base);
    let next_len: usize = put(b, Op::Convert { op: Conv::Low32, a: need });
    emit(b, Op::Store { val: next_len, base: list, at: Field::ListLen });
    emit(b, Op::Jump { block: done_bb });
    emit(b, Op::Switch { block: slow_bb });
    emit(b, Op::Seal { block: slow_bb });
    push_words(b, cx, vals, list);
    emit(b, Op::Jump { block: done_bb });
    emit(b, Op::Switch { block: done_bb });
    emit(b, Op::Seal { block: done_bb });
}

pub open spec fn wires_upto(c: Code, vals: Seq<usize>, ls: Seq<FieldView>, n: nat) -> (Seq<usize>, Code)
    decreases n,
{
    if n == 0 {
        (Seq::<usize>::empty(), c)
    } else {
        let (out, c) = wires_upto(c, vals, ls, (n - 1) as nat);
        let i = (n - 1) as usize;
        let (w, c) = to_i64_repr_code(c, ls[i as int].1, vals[i as int]);
        let out = out.push(w);
        (out, c)
    }
}

/// The words in which a flattened value is kept in memory.
pub open spec fn wires_code(c: Code, vals: Seq<usize>, ls: Seq<FieldView>) -> (Seq<usize>, Code) {
    wires_upto(c, vals, ls, min_nat(vals.len(), ls.len()))
}

pub(crate) fn wires(b: &mut Builder, vals: &Vec<usize>, ls: &Vec<(String, Type)>) -> (r: Vec<usize>)
    ensures
        (r@, final(b)@) == wires_code(old(b)@, vals@, field_views(ls@)),
{
    let total: usize = min_len(vals.len(), ls.len());
    let mut out = Vec::new();
    let mut i: usize = 0;
    while i < total
        invariant
            i <= total,
            total == min_nat(vals@.len(), field_views(ls@).len()),
            (out@, b@) == wires_upto(old(b)@, vals@, field_views(ls@), i as nat),
        decreases total - i,
    {
        let w: usize = to_i64_repr(b, &ls[i].1, vals[i]);
        out.push(w);
        i = i + 1;
    }
    out
}

/// Appends one element. An element without leaves still takes a word, so that the list counts it.
pub open spec fn push_element_code(c: Code, cx: Env, list: usize, vals: Seq<usize>, ls: Seq<FieldView>) -> Code {
    if ls.len() == 0 {
        let (zero, c) = iconst_code(c, ClType::I64, 0);
        let single = seq![zero];
        let c = emit_list_push_code(c, cx, list, single);
        c
    } else {
        let (words, c) = wires_code(c, vals, ls);
        let c = emit_list_push_code(c, cx, list, words);
        c
    }
}

pub(crate) fn push_element(b: &mut Builder, cx: &Ctx, list: usize, vals: &Vec<usize>, ls: &Vec<(String, Type)>)
    ensures
        final(b)@ == push_element_code(old(b)@, cx@, list, vals@, field_views(ls@)),
{
    if ls.len() == 0 {
        let zero: usize = iconst(b, ClType::I64, 0);
        let single = vec![zero];
        assert(single@ =~= seq![zero]);
        emit_list_push(b, cx, list, &single);
    } else {
        let words = wires(b, vals, ls);
        emit_list_push(b, cx, list, &words);
    }
}

/// Tests at run time whether a boxed union holds the member `tag`. An immediate
/// has a word of its own; where there may be one, it must not be followed as a
/// pointer.
pub open spec fn emit_tag_test_code(
    c: Code,
    val: usize,
    target_is_immediate: bool,
    any_immediate: bool,
    tag: u32,
) -> (usize, Code) {
    if target_is_immediate {
        put_code(c, Op::CompareImm { test: Test::Equal, a: val, imm: immediate(tag) })
    } else if !any_immediate {
        let (actual, c) = put_code(c, Op::Load { ty: ClType::I32, base: val, at: Field::VariantTag });
        put_code(c, Op::CompareImm { test: Test::Equal, a: actual, imm: tag as i64 })
    } else {
        let (boxed_bb, c) = put_code(c, Op::Block);
        let (done_bb, c) = put_code(c, Op::Block);
        let (out, c) = put_code(c, Op::BlockParam { block: done_bb, ty: ClType::I8 });
        let (tag_bits, c) = put_code(c, Op::BinaryImm { op: BinOp::Band, a: val, imm: 7 });
        let (is_immediate, c) = put_code(c, Op::CompareImm { test: Test::Equal, a: tag_bits, imm: 7 });
        let (no, c) = iconst_code(c, ClType::I8, 0);
        let c = emit_code(c, Op::Arg { val: no });
        let c = emit_code(c, Op::Brif { cond: is_immediate, yes: done_bb, no: boxed_bb });
        let c = emit_code(c, Op::Switch { block: boxed_bb });
        let c = emit_code(c, Op::Seal { block: boxed_bb });
        let (actual, c) = put_code(c, Op::Load { ty: ClType::I32, base: val, at: Field::VariantTag });
        let (matched, c) = put_code(c, Op::CompareImm { test: Test::Equal, a: actual, imm: tag as i64 });
        let c = emit_code(c, Op::Arg { val: matched });
        let c = emit_code(c, Op::Jump { block: done_bb });
        let c = emit_code(c, Op::Switch { block: done_bb });
        let c = emit_code(c, Op::Seal { block: done_bb });
        (out, c)
    }
}

pub(crate) fn emit_tag_test(
    b: &mut Builder,
    val: usize,
    target_is_immediate: bool,
    any_immediate: bool,
    tag: u32,
) -> (r: usize)
    ensures
        (r, final(b)@) == emit_tag_test_code(old(b)@, val, target_is_immediate, any_immediate, tag),
{
    if target_is_immediate {
        put(b, Op::CompareImm { test: Test::Equal, a: val, imm: immediate_variant(tag) })
    } else if !any_immediate {
        let actual: usize = put(b, Op::Load { ty: ClType::I32, base: val, at: Field::VariantTag });
        put(b, Op::CompareImm { test: Test::Equal, a: actual, imm: tag as i64 })
    } else {
        let boxed_bb: usize = put(b, Op::Block);
        let done_bb: usize = put(b, Op::Block);
        let out: usize = put(b, Op::BlockParam { block: done_bb, ty: ClType::I8 });
        let tag_bits: usize = put(b, Op::BinaryImm { op: BinOp::Band, a: val, imm: 7 });
        let is_immediate: usize = put(b, Op::CompareImm { test: Test::Equal, a: tag_bits, imm: 7 });
        let no: usize = iconst(b, ClType::I8, 0);
        emit(b, Op::Arg { val: no });
        emit(b, Op::Brif { cond: is_immediate, yes: done_bb, no: boxed_bb });
        emit(b, Op::Switch { block: boxed_bb });
        emit(b, Op::Seal { block: boxed_bb });
        let actual: usize = put(b, Op::Load { ty: ClType::I32, base: val, at: Field::VariantTag });
        let matched: usize = put(b, Op::CompareImm { test: Test::Equal, a: actual, imm: tag as i64 });
        emit(b, Op::Arg { val: matched });
        emit(b, Op::Jump { block: done_bb });
        emit(b, Op::Switch { block: done_bb });
        emit(b, Op::Seal { block: done_bb });
        out
    }
}

pub open spec fn store_slots_upto(c: Code, vals: Seq<usize>, tys: Seq<Ty>, ptr: usize, n: nat) -> Code
    decreases n,
{
    if n == 0 {
        c
    } else {
        let c = store_slots_upto(c, vals, tys, ptr, (n - 1) as nat);
        let i = (n - 1) as usize;
        let (wire, c) = to_i64_repr_code(c, tys[i as int], vals[i as int]);
        let c = emit_code(c, Op::Store { val: wire, base: ptr, at: Field::VariantSlot(i) });
        c
    }
}

/// Stores the payload of a variant.
pub open spec fn store_slots_code(c: Code, vals: Seq<usize>, tys: Seq<Ty>, ptr: usize) -> Code {
    store_slots_upto(c, vals, tys, ptr, min_nat(vals.len(), tys.len()))
}

pub(crate) fn store_slots(b: &mut Builder, vals: &Vec<usize>, tys: &Vec<Type>, ptr: usize)
    ensures
        final(b)@ == store_slots_code(old(b)@, vals@, type_views(tys@), ptr),
{
    proof {
        type_views_index(tys@);
    }
    let total: usize = min_len(vals.len(), tys.len());
    let mut i: usize = 0;
    while i < total
        invariant
            i <= total,
            total == min_nat(vals@.len(), type_views(tys@).len()),
            type_views(tys@).len() == tys.len(),
            forall|k: int| 0 <= k < tys.len() ==> #[trigger] type_views(tys@)[k] == tys@[k]@,
            b@ == store_slots_upto(old(b)@, vals@, type_views(tys@), ptr, i as nat),
        decreases total - i,
    {
        let wire: usize = to_i64_repr(b, &tys[i], vals[i]);
        emit(b, Op::Store { val: wire, base: ptr, at: Field::VariantSlot(i) });
        i = i + 1;
    }
}

/// The scan mask of an aggregate.
pub open spec fn scan_mask_code(c: Code, tys: Seq<Ty>) -> (i64, Code) {
    if tys.len() <= 64 {
        (mask(tys), c)
    } else {
        let c = fail_code(c, Fault::TooWide);
        (0, c)
    }
}

pub(crate) fn scan_mask(b: &mut Builder, tys: &Vec<Type>) -> (r: i64)
    ensures
        (r, final(b)@) == scan_mask_code(old(b)@, type_views(tys@)),
{
    proof {
        type_views_index(tys@);
    }
    if tys.len() <= 64 {
        gc_mask(tys)
    } else {
        fail(b, Fault::TooWide);
        0
    }
}

/// Allocates a variant with this payload. It is a root before it is filled.
pub open spec fn box_into_variant_code(c: Code, cx: Env, tag: u32, vals: Seq<usize>, tys: Seq<Ty>) -> (usize, Code) {
    let (tag_val, c) = iconst_code(c, ClType::I64, tag as i64);
    let (nslots_val, c) = iconst_code(c, ClType::I64, (vals.len() as usize) as i64);
    let (bits, c) = scan_mask_code(c, tys);
    let (mask_val, c) = iconst_code(c, ClType::I64, bits);
    let c = emit_code(c, Op::Arg { val: tag_val });
    let c = emit_code(c, Op::Arg { val: nslots_val });
    let c = emit_code(c, Op::Arg { val: mask_val });
    let c = invoke_code(c, cx, "frog_alloc_variant"@);
    let (ptr, c) = put_code(c, Op::Result { index: 0 });
    let c = emit_code(c, Op::GcValue { val: ptr });
    let c = store_slots_code(c, vals, tys, ptr);
    (ptr, c)
}

pub(crate) fn box_into_variant(b: &mut Builder, cx: &Ctx, tag: u32, vals: &Vec<usize>, tys: &Vec<Type>) -> (r: usize)
    ensures
        (r, final(b)@) == box_into_variant_code(old(b)@, cx@, tag, vals@, type_views(tys@)),
{
    let tag_val: usize = iconst(b, ClType::I64, tag as i64);
    let nslots_val: usize = iconst(b, ClType::I64, vals.len() as i64);
    let bits = scan_mask(b, tys);
    let mask_val: usize = iconst(b, ClType::I64, bits);
    emit(b, Op::Arg { val: tag_val });
    emit(b, Op::Arg { val: nslots_val });
    emit(b, Op::Arg { val: mask_val });
    invoke(b, cx, "frog_alloc_variant");
    let ptr: usize = put(b, Op::Result { index: 0 });
    emit(b, Op::GcValue { val: ptr });
    store_slots(b, vals, tys, ptr);
    ptr
}

/// The variable of a name, declared where it has none yet. It is made a root before it is first defined.
pub open spec fn get_or_declare_var_code(c: Code, name: Seq<char>, ty: Ty) -> (usize, Code) {
    match find_var(c.vars, name) {
        Some(v) => {
            (v, c)
        },
        None => {
            let (v, c) = put_code(c, Op::Var { ty: machine(ty) });
            let c = if heap(ty) {
                let c = emit_code(c, Op::GcVar { var: v });
                c
            } else {
                c
            };
            let c = name_var_code(c, name, v);
            (v, c)
        },
    }
}

pub(crate) fn get_or_declare_var(b: &mut Builder, name: &str, ty: &Type) -> (r: usize)
    ensures
        (r, final(b)@) == get_or_declare_var_code(old(b)@, name@, ty@),
{
    match lookup_var(b, name) {
        Some(v) => {
            v
        },
        None => {
            let v: usize = put(b, Op::Var { ty: cl_type(ty) });
            if is_heap_ty(ty) {
                emit(b, Op::GcVar { var: v });
            }
            name_var(b, name, v);
            v
        },
    }
}

/// A new variable for a name, with its value.
pub open spec fn declare_and_def_var_code(c: Code, name: Seq<char>, ty: Ty, val: usize) -> Code {
    let (v, c) = put_code(c, Op::Var { ty: machine(ty) });
    let c = if heap(ty) {
        let c = emit_code(c, Op::GcVar { var: v });
        c
    } else {
        c
    };
    let c = name_var_code(c, name, v);
    let c = emit_code(c, Op::DefVar { var: v, val });
    c
}

pub(crate) fn declare_and_def_var(b: &mut Builder, name: &str, ty: &Type, val: usize)
    ensures
        final(b)@ == declare_and_def_var_code(old(b)@, name@, ty@, val),
{
    let v: usize = put(b, Op::Var { ty: cl_type(ty) });
    if is_heap_ty(ty) {
        emit(b, Op::GcVar { var: v });
    }
    name_var(b, name, v);
    emit(b, Op::DefVar { var: v, val });
}

/// A zero for a word that is never looked at.
pub open spec fn placeholder_value_code(c: Code, ty: ClType) -> (usize, Code) {
    match ty {
        ClType::F64 => {
            put_code(c, Op::F64const { bits: 0 })
        },
        _ => {
            iconst_code(c, ty, 0)
        },
    }
}

pub(crate) fn placeholder_value(b: &mut Builder, ty: ClType) -> (r: usize)
    ensures
        (r, final(b)@) == placeholder_value_code(old(b)@, ty),
{
    match ty {
        ClType::F64 => {
            put(b, Op::F64const { bits: 0 })
        },
        _ => {
            iconst(b, ty, 0)
        },
    }
}

/// Widens a truth value where a word is wanted.
pub open spec fn ensure_width_code(c: Code, val: usize, from_ty: Ty, to: ClType) -> (usize, Code) {
    if from_ty is Bool && to == ClType::I64 {
        put_code(c, Op::Convert { op: Conv::Widen, a: val })
    } else {
        (val, c)
    }
}

pub(crate) fn ensure_width(b: &mut Builder, val: usize, from_ty: &Type, to: ClType) -> (r: usize)
    ensures
        (r, final(b)@) == ensure_width_code(old(b)@, val, from_ty@, to),
{
    if is_bool(from_ty) && is_i64(to) {
        put(b, Op::Convert { op: Conv::Widen, a: val })
    } else {
        val
    }
}

/// A value widened to another type: an integer to a float.
pub open spec fn coerce_value_code(c: Code, val: usize, from_ty: Ty, to_ty: Ty) -> (usize, Code) {
    if from_ty == to_ty {
        (val, c)
    } else if from_ty is Int && to_ty is Float {
        put_code(c, Op::Convert { op: Conv::IntFloat, a: val })
    } else {
        let c = fail_code(c, Fault::IllTyped);
        (val, c)
    }
}

pub(crate) fn coerce_value(b: &mut Builder, val: usize, from_ty: &Type, to_ty: &Type) -> (r: usize)
    ensures
        (r, final(b)@) == coerce_value_code(old(b)@, val, from_ty@, to_ty@),
{
    if from_ty.same(to_ty) {
        val
    } else if is_int(from_ty) && is_float(to_ty) {
        put(b, Op::Convert { op: Conv::IntFloat, a: val })
    } else {
        fail(b, Fault::IllTyped);
        val
    }
}

/// Reports a division that cannot be done. Which of the two faults it is, is
/// computed in `is_zero` or already `known`.
pub open spec fn div_fault_branch_code(c: Code, cx: Env, is_bad: usize, is_zero: Option<usize>, known: bool) -> Code {
    let (fault_bb, c) = put_code(c, Op::Block);
    let (ok_bb, c) = put_code(c, Op::Block);
    let c = emit_code(c, Op::Brif { cond: is_bad, yes: fault_bb, no: ok_bb });
    let c = emit_code(c, Op::Switch { block: fault_bb });
    let c = emit_code(c, Op::Seal { block: fault_bb });
    let (flag, c) = match is_zero {
        Some(v) => {
            put_code(c, Op::Convert { op: Conv::Widen, a: v })
        },
        None => {
            iconst_code(c, ClType::I64, if known { 1 } else { 0 })
        },
    };
    let c = emit_code(c, Op::Arg { val: flag });
    let c = invoke_code(c, cx, "frog_div_error"@);
    let c = emit_code(c, Op::Trap { code: 3 });
    let c = emit_code(c, Op::Switch { block: ok_bb });
    let c = emit_code(c, Op::Seal { block: ok_bb });
    c
}

pub(crate) fn div_fault_branch(b: &mut Builder, cx: &Ctx, is_bad: usize, is_zero: Option<usize>, known: bool)
    ensures
        final(b)@ == div_fault_branch_code(old(b)@, cx@, is_bad, is_zero, known),
{
    let fault_bb: usize = put(b, Op::Block);
    let ok_bb: usize = put(b, Op::Block);
    emit(b, Op::Brif { cond: is_bad, yes: fault_bb, no: ok_bb });
    emit(b, Op::Switch { block: fault_bb });
    emit(b, Op::Seal { block: fault_bb });
    let flag = match is_zero {
        Some(v) => {
            put(b, Op::Convert { op: Conv::Widen, a: v })
        },
        None => {
            iconst(b, ClType::I64, if known { 1 } else { 0 })
        },
    };
    emit(b, Op::Arg { val: flag });
    invoke(b, cx, "frog_div_error");
    emit(b, Op::Trap { code: 3 });
    emit(b, Op::Switch { block: ok_bb });
    emit(b, Op::Seal { block: ok_bb });
}

/// The check before an integer division: no division by zero, and not the one
/// that overflows. A constant divisor decides it in advance.
pub open spec fn int_div_guard_code(c: Code, cx: Env, lv: usize, rv: usize) -> Code {
    match constant(c, rv) {
        Some(k) => {
            let c = if k == 0 {
                let (always, c) = iconst_code(c, ClType::I8, 1);
                let c = div_fault_branch_code(c, cx, always, None, true);
                c
            } else if k == -1i64 {
                let (is_min, c) = put_code(c, Op::CompareImm { test: Test::Equal, a: lv, imm: i64::MIN });
                let c = div_fault_branch_code(c, cx, is_min, None, false);
                c
            } else {
                c
            };
            c
        },
        None => {
            let (is_zero, c) = put_code(c, Op::CompareImm { test: Test::Equal, a: rv, imm: 0 });
            let (is_neg1, c) = put_code(c, Op::CompareImm { test: Test::Equal, a: rv, imm: -1i64 });
            let (is_min, c) = put_code(c, Op::CompareImm { test: Test::Equal, a: lv, imm: i64::MIN });
            let (is_ovf, c) = put_code(c, Op::Binary { op: BinOp::Band, a: is_neg1, b: is_min });
            let (is_bad, c) = put_code(c, Op::Binary { op: BinOp::Bor, a: is_zero, b: is_ovf });
            let c = div_fault_branch_code(c, cx, is_bad, Some(is_zero), false);
            c
        },
    }
}

pub(crate) fn int_div_guard(b: &mut Builder, cx: &Ctx, lv: usize, rv: usize)
    ensures
        final(b)@ == int_div_guard_code(old(b)@, cx@, lv, rv),
{
    match const_i64(b, rv) {
        Some(k) => {
            if k == 0 {
                let always: usize = iconst(b, ClType::I8, 1);
                div_fault_branch(b, cx, always, None, true);
            } else if k == -1 {
                let is_min: usize = put(b, Op::CompareImm { test: Test::Equal, a: lv, imm: i64::MIN });
                div_fault_branch(b, cx, is_min, None, false);
            }
        },
        None => {
            let is_zero: usize = put(b, Op::CompareImm { test: Test::Equal, a: rv, imm: 0 });
            let is_neg1: usize = put(b, Op::CompareImm { test: Test::Equal, a: rv, imm: -1 });
            let is_min: usize = put(b, Op::CompareImm { test: Test::Equal, a: lv, imm: i64::MIN });
            let is_ovf: usize = put(b, Op::Binary { op: BinOp::Band, a: is_neg1, b: is_min });
            let is_bad: usize = put(b, Op::Binary { op: BinOp::Bor, a: is_zero, b: is_ovf });
            div_fault_branch(b, cx, is_bad, Some(is_zero), false);
        },
    }
}

pub open spec fn read_slots_upto(c: Code, ptr: usize, offset: usize, tys: Seq<Ty>, n: nat) -> (Seq<usize>, Code)
    decreases n,
{
    if n == 0 {
        (Seq::<usize>::empty(), c)
    } else {
        let (out, c) = read_slots_upto(c, ptr, offset, tys, (n - 1) as nat);
        let i = (n - 1) as usize;
        let (raw, c) = put_code(c, Op::Load { ty: ClType::I64, base: ptr, at: Field::VariantSlot(offset.wrapping_add(i)) });
        let (v, c) = from_i64_repr_code(c, tys[i as int], raw);
        let out = out.push(v);
        (out, c)
    }
}

/// Loads payload words from `offset` on.
pub open spec fn read_slots_code(c: Code, ptr: usize, offset: usize, tys: Seq<Ty>) -> (Seq<usize>, Code) {
    read_slots_upto(c, ptr, offset, tys, tys.len())
}

pub(crate) fn read_slots(b: &mut Builder, ptr: usize, offset: usize, tys: &Vec<Type>) -> (r: Vec<usize>)
    ensures
        (r@, final(b)@) == read_slots_code(old(b)@, ptr, offset, type_views(tys@)),
{
    proof {
        type_views_index(tys@);
    }
    let total: usize = tys.len();
    let mut out = Vec::new();
    let mut i: usize = 0;
    while i < total
        invariant
            i <= total,
            total == type_views(tys@).len(),
            type_views(tys@).len() == tys.len(),
            forall|k: int| 0 <= k < tys.len() ==> #[trigger] type_views(tys@)[k] == tys@[k]@,
            (out@, b@) == read_slots_upto(old(b)@, ptr, offset, type_views(tys@), i as nat),
        decreases total - i,
    {
        let raw: usize = put(b, Op::Load { ty: ClType::I64, base: ptr, at: Field::VariantSlot(offset.wrapping_add(i)) });
        let v: usize = from_i64_repr(b, &tys[i], raw);
        out.push(v);
        i = i + 1;
    }
    out
}

/// Reads the payload of a variant from `offset` on, each word a root where the collector reads it.
pub open spec fn read_variant_slots_code(c: Code, ptr: usize, offset: usize, tys: Seq<Ty>) -> (Seq<usize>, Code) {
    let (out, c) = read_slots_code(c, ptr, offset, tys);
    let c = declare_gc_leaves_code(c, out, tys);
    (out, c)
}

pub(crate) fn read_variant_slots(b: &mut Builder, ptr: usize, offset: usize, tys: &Vec<Type>) -> (r: Vec<usize>)
    ensures
        (r@, final(b)@) == read_variant_slots_code(old(b)@, ptr, offset, type_views(tys@)),
{
    let out = read_slots(b, ptr, offset, tys);
    declare_gc_leaves(b, &out, tys);
    out
}

} // verus!
