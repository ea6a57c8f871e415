//! Lowering of expressions: from typed trees to code.
use crate::emit::{
    box_into_variant, box_into_variant_code, cl_type, coerce_value, coerce_value_code, declare_gc_leaves,
    declare_gc_leaves_code, declare_gc_value, declare_gc_value_code, emit_tag_test, emit_tag_test_code, ensure_width,
    ensure_width_code, from_i64_repr, from_i64_repr_code, get_or_declare_var, get_or_declare_var_code, iconst,
    iconst_code, immediate, immediate_variant, int_div_guard, int_div_guard_code, is_float, is_int, list_slot_addr,
    list_slot_addr_code, list_stride, list_stride_code, machine, mark_shared_extracted, mark_shared_extracted_code,
    min_len, min_nat, placeholder_value, placeholder_value_code, push_element, push_element_code, read_variant_slots,
    read_variant_slots_code, scan_mask, scan_mask_code, to_i64_repr, to_i64_repr_code, unshare, unshare_code, wires,
    wires_code,
};
use crate::ir::{
    BinOp, Builder, ClType, Code, Conv, Ctx, Env, Fault, Field, Op, Test, at, at_code, bound, bound_code, byte_len,
    emit, emit_code, fail, fail_code, invoke, invoke_code, leaf_list, leaves_code, one, one_code, put, put_code,
    slice, slice_code, str_addr, str_addr_code, text_bytes,
};
use crate::layout::{dotted, leaf_types, payload_less, unboxed, union_is_inline};
use crate::liveness::Ownership;
use crate::show::{
    any_nil, beyond, call_one, call_one_code, call_two, call_two_code, copy_vals, eq_list, eq_list_code, eq_union,
    eq_union_code, find_type, has_nil, index_of_type, inline_tag_test, inline_tag_test_code, is_nil, is_payload_less,
    is_variant_test, is_variant_test_code, list_contains, list_contains_code, pack_union_member,
    pack_union_member_code, past, print_fragment, print_fragment_code, print_list, print_list_code, print_value,
    print_value_code, unpack_union_member, unpack_union_member_code, variant_struct, variant_struct_type,
};
use crate::text::{owned, same_text};
use crate::tokens::{Spanned, Token};
use crate::typed_ast::{Arg, Place, PlaceSeg, TypedExpr, TypedExprKind, TypedExprRef};
use crate::types::{
    clone_types, field_tys, field_views, find_struct, find_union, struct_ty, type_views, type_views_index, FieldView,
    Ty, Type, UnionDef, UnionView,
};
use vstd::prelude::*;
use vstd::string::StringExecFns;

verus! {

// ── Names and places ─────────────────────────────────────────────────────

/// The key of a leaf of a name.
pub fn var_key(base: &str, leaf_path: &str) -> (r: String)
    ensures
        r@ == dotted(base@, leaf_path@),
{
    let mut out = owned(base);
    if !leaf_path.is_empty() {
        out.push('.');
        out.append(leaf_path);
        assert(out@ =~= dotted(base@, leaf_path@));
    }
    out
}

/// Where the storage that a place names is.
pub enum PlaceRef {
    /// Variables under this name: the place is not on the heap.
    Vars(String),
    /// The words of element `index` of the list `list`, from `offset` on.
    Slot { list: usize, index: usize, offset: usize },
}

/// Where the storage that a place names is, as a value.
pub ghost enum PlaceView {
    Vars(Seq<char>),
    Slot(usize, usize, usize),
}

impl View for PlaceRef {
    type V = PlaceView;

    open spec fn view(&self) -> PlaceView {
        match self {
            PlaceRef::Vars(name) => PlaceView::Vars(name@),
            PlaceRef::Slot { list, index, offset } => PlaceView::Slot(*list, *index, *offset),
        }
    }
}

pub open spec fn pref_views(ps: Seq<(PlaceRef, Type)>) -> Seq<(PlaceView, Ty)> {
    ps.map_values(|p: (PlaceRef, Type)| (p.0@, p.1@))
}

/// What a loop does with the values of its body.
#[derive(Debug, Clone, Copy, PartialEq, Eq, Structural)]
pub enum LoopOutput {
    Discard,
    /// Collects them into a list with this stride and scan mask.
    Collect { stride: i64, bits: i64 },
}

/// The field steps of a path from `from` to `to`, joined with dots.
pub open spec fn run_of(path: Seq<PlaceSeg>, from: int, to: int) -> Seq<char>
    decreases to - from,
{
    if to <= from || to > path.len() || from < 0 {
        Seq::empty()
    } else {
        let name = match path[to - 1] {
            PlaceSeg::Field(f) => f@,
            _ => Seq::empty(),
        };
        if to - 1 == from {
            name
        } else {
            run_of(path, from, to - 1).push('.') + name
        }
    }
}

/// The field steps of a path from `from` to `to`, joined with dots.
pub(crate) fn field_run(path: &Vec<PlaceSeg>, from: usize, to: usize) -> (r: String)
    ensures
        r@ == run_of(path@, from as int, to as int),
{
    let mut out = String::new();
    if to <= from || to > path.len() {
        assert(out@ =~= run_of(path@, from as int, to as int));
        return out;
    }
    assert(out@ =~= run_of(path@, from as int, from as int));
    let mut i: usize = from;
    while i < to
        invariant
            from <= i <= to <= path.len(),
            out@ == run_of(path@, from as int, i as int),
        decreases to - i,
    {
        if i > from {
            out.push('.');
        }
        match &path[i] {
            PlaceSeg::Field(f) => {
                out.append(f.as_str());
            },
            PlaceSeg::Index { .. } => {},
        }
        assert(out@ =~= run_of(path@, from as int, i + 1));
        i = i + 1;
    }
    out
}

/// The position of the first `[index]` step from `i` on, or the length.
pub open spec fn next_of(path: Seq<PlaceSeg>, i: int) -> usize
    decreases path.len() - i,
{
    if i < 0 || i >= path.len() {
        path.len() as usize
    } else if path[i] is Index {
        i as usize
    } else {
        next_of(path, i + 1)
    }
}

pub(crate) fn next_index(path: &Vec<PlaceSeg>, i: usize) -> (r: usize)
    ensures
        r == next_of(path@, i as int),
{
    let mut k: usize = i;
    while k < path.len()
        invariant
            next_of(path@, k as int) == next_of(path@, i as int),
        decreases path.len() - k,
    {
        match &path[k] {
            PlaceSeg::Index { .. } => return k,
            PlaceSeg::Field(_) => {},
        }
        k = k + 1;
    }
    path.len()
}

/// The position of the last `[index]` step.
pub open spec fn last_of(path: Seq<PlaceSeg>) -> Option<usize>
    decreases path.len(),
{
    if path.len() == 0 {
        None
    } else if path.last() is Index {
        Some((path.len() - 1) as usize)
    } else {
        last_of(path.drop_last())
    }
}

pub(crate) fn last_index(path: &Vec<PlaceSeg>) -> (r: Option<usize>)
    ensures
        r == last_of(path@),
{
    let mut i: usize = path.len();
    assert(path@.take(i as int) =~= path@);
    while i > 0
        invariant
            i <= path.len(),
            last_of(path@.take(i as int)) == last_of(path@),
        decreases i,
    {
        assert(path@.take(i as int).drop_last() =~= path@.take(i - 1));
        assert(path@.take(i as int).last() == path@[i - 1]);
        i = i - 1;
        match &path[i] {
            PlaceSeg::Index { .. } => return Some(i),
            PlaceSeg::Field(_) => {},
        }
    }
    None
}

/// Whether a leaf belongs to the part that a dotted path names.
pub open spec fn in_part(leaf: Seq<char>, part: Seq<char>) -> bool {
    leaf == part || part.push('.').is_prefix_of(leaf)
}

/// The position of the first leaf, from `i` on, of the part that a dotted
/// path names.
pub open spec fn start_of(ls: Seq<FieldView>, part: Seq<char>, i: int) -> Option<usize>
    decreases ls.len() - i,
{
    if i < 0 || i >= ls.len() {
        None
    } else if in_part(ls[i].0, part) {
        Some(i as usize)
    } else {
        start_of(ls, part, i + 1)
    }
}

fn leaf_in_part(leaf: &str, part: &str) -> (r: bool)
    ensures
        r == in_part(leaf@, part@),
{
    let l = crate::text::chars_of(leaf);
    let p = crate::text::chars_of(part);
    if p.len() > l.len() {
        return false;
    }
    let mut i: usize = 0;
    while i < p.len()
        invariant
            i <= p.len() <= l.len(),
            l@ == leaf@,
            p@ == part@,
            forall|k: int| 0 <= k < i ==> #[trigger] l@[k] == p@[k],
        decreases p.len() - i,
    {
        if l[i] != p[i] {
            assert(!(part@.push('.').is_prefix_of(leaf@))) by {
                if part@.push('.').is_prefix_of(leaf@) {
                    assert(part@.push('.')[i as int] == leaf@.subrange(0, (part@.len() + 1) as int)[i as int]);
                }
            }
            return false;
        }
        i = i + 1;
    }
    if l.len() == p.len() {
        assert(leaf@ =~= part@);
        true
    } else {
        if l[p.len()] == '.' {
            assert(part@.push('.') =~= leaf@.subrange(0, (part@.len() + 1) as int));
            true
        } else {
            assert(!(part@.push('.').is_prefix_of(leaf@))) by {
                if part@.push('.').is_prefix_of(leaf@) {
                    assert(part@.push('.')[part@.len() as int] == leaf@.subrange(0, (part@.len() + 1) as int)[part@.len() as int]);
                }
            }
            false
        }
    }
}

pub(crate) fn dotted_start(ls: &Vec<(String, Type)>, part: &str) -> (r: Option<usize>)
    ensures
        r == start_of(field_views(ls@), part@, 0),
{
    let ghost v = field_views(ls@);
    let mut i: usize = 0;
    while i < ls.len()
        invariant
            i <= ls.len() == v.len(),
            v == field_views(ls@),
            start_of(v, part@, i as int) == start_of(v, part@, 0),
        decreases ls.len() - i,
    {
        assert(v[i as int].0 == ls@[i as int].0@);
        if leaf_in_part(ls[i].0.as_str(), part) {
            return Some(i);
        }
        i = i + 1;
    }
    None
}

/// Whether `name` is the name of one of the fields.
pub open spec fn names_field(fs: Seq<FieldView>, name: Seq<char>) -> bool {
    exists|i: int| 0 <= i < fs.len() && (#[trigger] fs[i]).0 == name
}

fn has_field(fs: &Vec<(String, Type)>, name: &str) -> (r: bool)
    ensures
        r == names_field(field_views(fs@), name@),
{
    let ghost v = field_views(fs@);
    let mut i: usize = 0;
    while i < fs.len()
        invariant
            i <= fs.len() == v.len(),
            v == field_views(fs@),
            forall|k: int| 0 <= k < i ==> (#[trigger] v[k]).0 != name@,
        decreases fs.len() - i,
    {
        assert(v[i as int].0 == fs@[i as int].0@);
        if same_text(fs[i].0.as_str(), name) {
            return true;
        }
        i = i + 1;
    }
    false
}

/// How many references may reach a list that is about to be changed: two
/// where its parent, or the caller's place, holds one of its own.
pub open spec fn allowed_of(pref: PlaceView, place: Place, cx: Env) -> i64 {
    match pref {
        PlaceView::Slot(_, _, _) => 2,
        PlaceView::Vars(_) => if place.path@.len() == 0 && names_field(cx.mut_params, place.root@) {
            2
        } else {
            1
        },
    }
}

pub(crate) fn allowed_refs(pref: &PlaceRef, place: &Place, cx: &Ctx) -> (r: i64)
    ensures
        r == allowed_of(pref@, *place, cx@),
{
    match pref {
        PlaceRef::Slot { .. } => 2,
        PlaceRef::Vars(_) => if place.path.len() == 0 && has_field(cx.mut_params, place.root.as_str()) {
            2
        } else {
            1
        },
    }
}

// ── Types and operators ──────────────────────────────────────────────────

pub(crate) fn is_str(ty: &Type) -> (r: bool)
    ensures
        r == ty@ is Str,
{
    match ty {
        Type::Str => true,
        _ => false,
    }
}

pub(crate) fn is_never(ty: &Type) -> (r: bool)
    ensures
        r == ty@ is Never,
{
    match ty {
        Type::Never => true,
        _ => false,
    }
}

pub(crate) fn is_union(ty: &Type) -> (r: bool)
    ensures
        r == ty@ is Union,
{
    match ty {
        Type::Union(_) => true,
        _ => false,
    }
}

pub(crate) fn is_copy(o: Ownership) -> (r: bool)
    ensures
        r == (o is Copy),
{
    match o {
        Ownership::Copy => true,
        Ownership::Move => false,
    }
}

/// Whether a type is a union that is kept in columns.
pub open spec fn inline_union(ty: Ty, defs: crate::types::Defs) -> bool {
    match ty {
        Ty::Union(members) => unboxed(members, defs),
        _ => false,
    }
}

pub(crate) fn is_inline_union(ty: &Type, cx: &Ctx) -> (r: bool)
    ensures
        r == inline_union(ty@, cx@.defs),
{
    match ty {
        Type::Union(members) => union_is_inline(members, cx.structs),
        _ => false,
    }
}

/// Whether a value of this type is more than one word where it crosses a
/// call or a join: a struct, or a union that is kept in columns.
pub open spec fn multi_leaf(ty: Ty, defs: crate::types::Defs) -> bool {
    ty.is_struct() || inline_union(ty, defs)
}

pub(crate) fn is_multi_leaf_type(ty: &Type, cx: &Ctx) -> (r: bool)
    ensures
        r == multi_leaf(ty@, cx@.defs),
{
    ty.is_struct() || is_inline_union(ty, cx)
}

/// The type that two operands are brought to.
pub open spec fn join_of(l: Ty, r: Ty) -> Ty {
    if (l is Int && r is Float) || (l is Float && r is Int) {
        Ty::Float
    } else {
        l
    }
}

pub(crate) fn joined_type(l: &Type, r: &Type) -> (t: Type)
    ensures
        t@ == join_of(l@, r@),
{
    if (is_int(l) && is_float(r)) || (is_float(l) && is_int(r)) {
        Type::Float
    } else {
        l.dup()
    }
}

/// Whether `print` walks a value of this type part by part.
pub open spec fn by_parts(ty: Ty) -> bool {
    ty.is_struct() || ty is Union || ty is Nil
}

pub(crate) fn prints_by_parts(ty: &Type) -> (r: bool)
    ensures
        r == by_parts(ty@),
{
    ty.is_struct() || is_union(ty) || is_nil(ty)
}

pub open spec fn elem_or_int(ty: Ty) -> Ty {
    if ty.is_list() {
        ty.elem()
    } else {
        Ty::Int
    }
}

pub(crate) fn list_elem_or_int(ty: &Type) -> (r: Type)
    ensures
        r@ == elem_or_int(ty@),
{
    match ty.as_list_elem() {
        Some(t) => t.dup(),
        None => Type::Int,
    }
}

pub open spec fn range_elem_of(ty: Ty) -> Ty {
    if ty.is_range() {
        ty.elem()
    } else {
        Ty::Int
    }
}

pub(crate) fn range_elem_or_int(ty: &Type) -> (r: Type)
    ensures
        r@ == range_elem_of(ty@),
{
    match ty.as_range_elem() {
        Some(t) => t.dup(),
        None => Type::Int,
    }
}

/// The result type of a function type.
pub open spec fn result_of(ty: Ty) -> Ty {
    match ty {
        Ty::Function(_, result) => *result,
        _ => Ty::Int,
    }
}

pub(crate) fn result_or_int(ty: &Type) -> (r: Type)
    ensures
        r@ == result_of(ty@),
{
    match ty {
        Type::Function { params: _, result } => result.dup(),
        _ => Type::Int,
    }
}

/// The parameter types of a function type.
pub open spec fn params_of(ty: Ty) -> Seq<Ty> {
    match ty {
        Ty::Function(params, _) => params,
        _ => Seq::empty(),
    }
}

pub(crate) fn params_or_none(ty: &Type) -> (r: Vec<Type>)
    ensures
        type_views(r@) == params_of(ty@),
{
    match ty {
        Type::Function { params, result: _ } => clone_types(params),
        _ => {
            let none: Vec<Type> = Vec::new();
            assert(type_views(none@) =~= Seq::<Ty>::empty());
            none
        },
    }
}

pub open spec fn param_at(params: Seq<Ty>, i: usize) -> Ty {
    if i < params.len() {
        params[i as int]
    } else {
        Ty::Int
    }
}

pub(crate) fn param_or_int(params: &Vec<Type>, i: usize) -> (r: Type)
    ensures
        r@ == param_at(type_views(params@), i),
{
    proof {
        type_views_index(params@);
    }
    if i < params.len() {
        params[i].dup()
    } else {
        Type::Int
    }
}

pub open spec fn nil_member(members: Seq<Ty>, tag: usize) -> bool {
    tag < members.len() && members[tag as int] is Nil
}

pub(crate) fn member_is_nil(members: &Vec<Type>, tag: usize) -> (r: bool)
    ensures
        r == nil_member(type_views(members@), tag),
{
    proof {
        type_views_index(members@);
    }
    tag < members.len() && is_nil(&members[tag])
}

/// A length as a count that is at least one.
pub open spec fn least_one(n: nat) -> i64 {
    if n == 0 {
        1
    } else {
        (n as usize) as i64
    }
}

pub(crate) fn at_least_one(n: usize) -> (r: i64)
    ensures
        r == least_one(n as nat),
{
    if n == 0 {
        1
    } else {
        n as i64
    }
}

pub open spec fn one_or_more(n: nat) -> usize {
    if n == 0 {
        1
    } else {
        n as usize
    }
}

pub(crate) fn one_at_least(n: usize) -> (r: usize)
    ensures
        r == one_or_more(n as nat),
{
    if n == 0 {
        1
    } else {
        n
    }
}

/// The tag of the member at a position.
pub open spec fn tag_at(k: usize) -> u32 {
    (k as u32).wrapping_add(1)
}

pub(crate) fn tag_of(k: usize) -> (r: u32)
    ensures
        r == tag_at(k),
{
    (k as u32).wrapping_add(1)
}

pub(crate) fn is_in(op: &Token) -> (r: bool)
    ensures
        r == (*op is In),
{
    match op {
        Token::In => true,
        _ => false,
    }
}

pub(crate) fn is_and(op: &Token) -> (r: bool)
    ensures
        r == (*op is And),
{
    match op {
        Token::And => true,
        _ => false,
    }
}

pub open spec fn equality(op: Token) -> bool {
    op is EqEq || op is NotEq
}

pub(crate) fn is_equality(op: &Token) -> (r: bool)
    ensures
        r == equality(*op),
{
    match op {
        Token::EqEq | Token::NotEq => true,
        _ => false,
    }
}

pub open spec fn logical(op: Token) -> bool {
    op is And || op is Or
}

pub(crate) fn is_logical(op: &Token) -> (r: bool)
    ensures
        r == logical(*op),
{
    match op {
        Token::And | Token::Or => true,
        _ => false,
    }
}

/// The comparison that an ordering operator makes.
pub open spec fn order_of(op: Token) -> Option<Test> {
    match op {
        Token::Lt => Some(Test::Less),
        Token::Gt => Some(Test::Greater),
        Token::LtEq => Some(Test::LessEqual),
        Token::GtEq => Some(Test::GreaterEqual),
        _ => None,
    }
}

pub(crate) fn order_test(op: &Token) -> (r: Option<Test>)
    ensures
        r == order_of(*op),
{
    match op {
        Token::Lt => Some(Test::Less),
        Token::Gt => Some(Test::Greater),
        Token::LtEq => Some(Test::LessEqual),
        Token::GtEq => Some(Test::GreaterEqual),
        _ => None,
    }
}

/// The comparison that an operator makes.
pub open spec fn compare_of(op: Token) -> Option<Test> {
    match op {
        Token::EqEq => Some(Test::Equal),
        Token::NotEq => Some(Test::NotEqual),
        _ => order_of(op),
    }
}

pub(crate) fn compare_test(op: &Token) -> (r: Option<Test>)
    ensures
        r == compare_of(*op),
{
    match op {
        Token::EqEq => Some(Test::Equal),
        Token::NotEq => Some(Test::NotEqual),
        _ => order_test(op),
    }
}

/// The arithmetic that an operator does.
pub open spec fn arith_of(op: Token, on_floats: bool) -> Option<BinOp> {
    match op {
        Token::Plus => Some(if on_floats { BinOp::Fadd } else { BinOp::Iadd }),
        Token::Minus => Some(if on_floats { BinOp::Fsub } else { BinOp::Isub }),
        Token::Star => Some(if on_floats { BinOp::Fmul } else { BinOp::Imul }),
        Token::Slash => Some(if on_floats { BinOp::Fdiv } else { BinOp::Sdiv }),
        _ => None,
    }
}

pub(crate) fn arith(op: &Token, on_floats: bool) -> (r: Option<BinOp>)
    ensures
        r == arith_of(*op, on_floats),
{
    match op {
        Token::Plus => Some(if on_floats { BinOp::Fadd } else { BinOp::Iadd }),
        Token::Minus => Some(if on_floats { BinOp::Fsub } else { BinOp::Isub }),
        Token::Star => Some(if on_floats { BinOp::Fmul } else { BinOp::Imul }),
        Token::Slash => Some(if on_floats { BinOp::Fdiv } else { BinOp::Sdiv }),
        _ => None,
    }
}

pub(crate) fn is_sdiv(op: BinOp) -> (r: bool)
    ensures
        r == (op == BinOp::Sdiv),
{
    match op {
        BinOp::Sdiv => true,
        _ => false,
    }
}

// ── Parts of trees ───────────────────────────────────────────────────────

/// The variable, iterable, guard and body of a loop or a comprehension.
pub open spec fn loop_of(e: Spanned<TypedExpr>) -> Option<
    (String, Spanned<TypedExpr>, Option<TypedExprRef>, Spanned<TypedExpr>),
> {
    match e.item.kind {
        TypedExprKind::ForLoop { var, iterable, cond, body, iter_via: _ } => Some((var, *iterable, cond, *body)),
        TypedExprKind::Comprehension { var, iterable, cond, body, iter_via: _ } => Some((var, *iterable, cond, *body)),
        _ => None,
    }
}

pub(crate) fn loop_view(e: &Spanned<TypedExpr>) -> (r: Option<
    (&String, &Spanned<TypedExpr>, &Option<TypedExprRef>, &Spanned<TypedExpr>),
>)
    ensures
        r is Some <==> loop_of(*e) is Some,
        r is Some ==> (*(r->0).0, *(r->0).1, *(r->0).2, *(r->0).3) == loop_of(*e)->0,
        r is Some ==> decreases_to!(*e => *(r->0).1) && decreases_to!(*e => *(r->0).2) && decreases_to!(*e => *(r->0).3),
{
    match &e.item.kind {
        TypedExprKind::ForLoop { var, iterable, cond, body, iter_via: _ } => Some((var, &**iterable, cond, &**body)),
        TypedExprKind::Comprehension { var, iterable, cond, body, iter_via: _ } => Some((var, &**iterable, cond, &**body)),
        _ => None,
    }
}

/// The place and the value that `push` is given.
pub open spec fn parts_of_push(args: Seq<Arg>) -> Option<(Place, Spanned<TypedExpr>)> {
    if args.len() < 2 {
        None
    } else {
        match (args[0], args[1]) {
            (Arg::Mut(place), Arg::Value(value)) => Some((place, value)),
            _ => None,
        }
    }
}

pub(crate) fn push_parts(args: &Vec<Arg>) -> (r: Option<(&Place, &Spanned<TypedExpr>)>)
    ensures
        r is Some <==> parts_of_push(args@) is Some,
        r is Some ==> (*(r->0).0, *(r->0).1) == parts_of_push(args@)->0,
        r is Some ==> decreases_to!(args@ => *(r->0).0) && decreases_to!(args@ => *(r->0).1),
{
    if args.len() < 2 {
        return None;
    }
    match &args[0] {
        Arg::Mut(place) => match &args[1] {
            Arg::Value(value) => {
                proof {
                    assert(decreases_to!(args@ => args@[0]));
                    assert(decreases_to!(args@ => args@[1]));
                    assert(decreases_to!(args@[0] => *place));
                    assert(decreases_to!(args@[1] => *value));
                }
                Some((place, value))
            },
            _ => None,
        },
        _ => None,
    }
}

/// The first argument that is passed by value.
pub open spec fn value_of(args: Seq<Arg>) -> Option<Spanned<TypedExpr>> {
    value_from(args, 0)
}

pub open spec fn value_from(args: Seq<Arg>, i: int) -> Option<Spanned<TypedExpr>>
    decreases args.len() - i,
{
    if i < 0 || i >= args.len() {
        None
    } else {
        match args[i] {
            Arg::Value(e) => Some(e),
            Arg::Mut(_) => value_from(args, i + 1),
        }
    }
}

/// An argument that is passed by value is a part of the arguments.
pub proof fn value_within(args: Seq<Arg>, i: int)
    ensures
        value_from(args, i) is Some ==> decreases_to!(args => value_from(args, i)->0),
    decreases args.len() - i,
{
    if 0 <= i < args.len() {
        assert(decreases_to!(args => args[i]));
        if let Arg::Value(e) = args[i] {
            assert(decreases_to!(args[i] => e));
        }
        value_within(args, i + 1);
    }
}

pub(crate) fn first_value(args: &Vec<Arg>) -> (r: Option<&Spanned<TypedExpr>>)
    ensures
        r is Some <==> value_of(args@) is Some,
        r is Some ==> *r->0 == value_of(args@)->0,
        r is Some ==> decreases_to!(args@ => *r->0),
{
    let mut i: usize = 0;
    while i < args.len()
        invariant
            i <= args.len(),
            value_from(args@, i as int) == value_of(args@),
        decreases args.len() - i,
    {
        match &args[i] {
            Arg::Value(e) => {
                proof {
                    assert(decreases_to!(args@ => args@[i as int]));
                    assert(decreases_to!(args@[i as int] => *e));
                }
                return Some(e);
            },
            Arg::Mut(_) => {},
        }
        i = i + 1;
    }
    None
}

/// Whether a name is that of a function with code of its own.
pub open spec fn builtin(name: Seq<char>) -> bool {
    name == "print"@ || name == "len"@ || name == "to_list"@
}

pub(crate) fn is_builtin(name: &str) -> (r: bool)
    ensures
        r == builtin(name@),
{
    same_text(name, "print") || same_text(name, "len") || same_text(name, "to_list")
}

/// The fields of a variant of a union.
pub open spec fn fields_of_variant(def: UnionView, variant: Seq<char>, has_variant: bool) -> Option<Seq<FieldView>> {
    if has_variant {
        variant_from(def.variants, variant, 0)
    } else {
        None
    }
}

pub open spec fn variant_from(
    variants: Seq<(Seq<char>, Seq<FieldView>)>,
    variant: Seq<char>,
    i: int,
) -> Option<Seq<FieldView>>
    decreases variants.len() - i,
{
    if i < 0 || i >= variants.len() {
        None
    } else if variants[i].0 == variant {
        Some(variants[i].1)
    } else {
        variant_from(variants, variant, i + 1)
    }
}

pub(crate) fn variant_fields<'a>(def: &'a UnionDef, variant: &str, has_variant: bool) -> (r: Option<
    &'a Vec<(String, Type)>,
>)
    ensures
        r is Some <==> fields_of_variant(def@, variant@, has_variant) is Some,
        r is Some ==> field_views(r->0@) == fields_of_variant(def@, variant@, has_variant)->0,
{
    if !has_variant {
        return None;
    }
    let ghost all = def@.variants;
    let mut i: usize = 0;
    while i < def.variants.len()
        invariant
            i <= def.variants.len() == all.len(),
            all == def@.variants,
            has_variant,
            variant_from(all, variant@, i as int) == variant_from(all, variant@, 0),
        decreases def.variants.len() - i,
    {
        assert(all[i as int].0 == def.variants@[i as int].0@);
        assert(all[i as int].1 == field_views(def.variants@[i as int].1@));
        if same_text(def.variants[i].0.as_str(), variant) {
            return Some(&def.variants[i].1);
        }
        i = i + 1;
    }
    None
}

pub(crate) fn extend(out: &mut Vec<usize>, more: &Vec<usize>)
    ensures
        final(out)@ == old(out)@ + more@,
{
    let ghost before = out@;
    let mut i: usize = 0;
    assert(out@ =~= before + more@.take(0));
    while i < more.len()
        invariant
            i <= more.len(),
            out@ == before + more@.take(i as int),
        decreases more.len() - i,
    {
        out.push(more[i]);
        assert(out@ =~= before + more@.take(i + 1));
        i = i + 1;
    }
    assert(more@.take(more@.len() as int) =~= more@);
}

fn extend_types(out: &mut Vec<Type>, more: &Vec<Type>)
    ensures
        type_views(final(out)@) == type_views(old(out)@) + type_views(more@),
{
    let ghost before = type_views(out@);
    let ghost added = type_views(more@);
    proof {
        type_views_index(more@);
    }
    let mut i: usize = 0;
    assert(type_views(out@) =~= before + added.take(0));
    while i < more.len()
        invariant
            i <= more.len() == added.len(),
            forall|k: int| 0 <= k < more.len() ==> #[trigger] added[k] == more@[k]@,
            type_views(out@) == before + added.take(i as int),
        decreases more.len() - i,
    {
        let ghost now = out@;
        out.push(more[i].dup());
        proof {
            crate::layout::type_views_push(now, out@.last());
            assert(out@ =~= now.push(out@.last()));
            assert(before + added.take(i + 1) =~= (before + added.take(i as int)).push(added[i as int]));
        }
        i = i + 1;
    }
    assert(added.take(added.len() as int) =~= added);
}

fn with_words(
    acc: (Vec<usize>, Vec<(PlaceRef, Type)>),
    words: &Vec<usize>,
) -> (r: (Vec<usize>, Vec<(PlaceRef, Type)>))
    ensures
        (r.0@, pref_views(r.1@)) == (acc.0@ + words@, pref_views(acc.1@)),
{
    let mut vals = acc.0;
    extend(&mut vals, words);
    (vals, acc.1)
}

fn with_place(acc: (Vec<usize>, Vec<(PlaceRef, Type)>), words: &Vec<usize>, pref: PlaceRef, param: Type) -> (r: (
    Vec<usize>,
    Vec<(PlaceRef, Type)>,
))
    ensures
        (r.0@, pref_views(r.1@)) == (acc.0@ + words@, pref_views(acc.1@).push((pref@, param@))),
{
    let mut vals = acc.0;
    let mut places = acc.1;
    extend(&mut vals, words);
    let ghost before = places@;
    places.push((pref, param));
    assert(pref_views(places@) =~= pref_views(before).push((pref@, param@)));
    (vals, places)
}

// ── Code ─────────────────────────────────────────────────────────────────

pub open spec fn read_vars_upto(c: Code, name: Seq<char>, ls: Seq<FieldView>, n: nat) -> (Seq<usize>, Code)
    decreases n,
{
    if n == 0 {
        (Seq::<usize>::empty(), c)
    } else {
        let (out, c) = read_vars_upto(c, name, ls, (n - 1) as nat);
        let i = (n - 1) as usize;
        let key = dotted(name, ls[i as int].0);
        let (var, c) = bound_code(c, key);
        let (v, c) = put_code(c, Op::UseVar { var });
        let out = out.push(v);
        (out, c)
    }
}

/// The words of a name, one variable for each leaf.
pub open spec fn read_vars_code(c: Code, name: Seq<char>, ls: Seq<FieldView>) -> (Seq<usize>, Code) {
    read_vars_upto(c, name, ls, ls.len())
}

pub(crate) fn read_vars(b: &mut Builder, name: &str, ls: &Vec<(String, Type)>) -> (r: Vec<usize>)
    ensures
        (r@, final(b)@) == read_vars_code(old(b)@, name@, field_views(ls@)),
{
    let total: usize = ls.len();
    let mut out = Vec::new();
    let mut i: usize = 0;
    while i < total
        invariant
            i <= total,
            total == field_views(ls@).len(),
            (out@, b@) == read_vars_upto(old(b)@, name@, field_views(ls@), i as nat),
        decreases total - i,
    {
        let key = var_key(name, ls[i].0.as_str());
        let var: usize = bound(b, key.as_str());
        let v: usize = put(b, Op::UseVar { var });
        out.push(v);
        i = i + 1;
    }
    out
}

/// The words of a name, as they are.
pub open spec fn read_var_raw_code(c: Code, cx: Env, name: Seq<char>, ty: Ty) -> (Seq<usize>, Code) {
    let (ls, c) = leaves_code(c, cx, ty);
    read_vars_code(c, name, ls)
}

pub(crate) fn read_var_raw(b: &mut Builder, cx: &Ctx, name: &str, ty: &Type) -> (r: Vec<usize>)
    ensures
        (r@, final(b)@) == read_var_raw_code(old(b)@, cx@, name@, ty@),
{
    let ls = leaf_list(b, cx, ty);
    read_vars(b, name, &ls)
}

pub open spec fn bind_vars_upto(c: Code, name: Seq<char>, vals: Seq<usize>, ls: Seq<FieldView>, n: nat) -> Code
    decreases n,
{
    if n == 0 {
        c
    } else {
        let c = bind_vars_upto(c, name, vals, ls, (n - 1) as nat);
        let i = (n - 1) as usize;
        let key = dotted(name, ls[i as int].0);
        let (var, c) = get_or_declare_var_code(c, key, ls[i as int].1);
        let c = emit_code(c, Op::DefVar { var, val: vals[i as int] });
        c
    }
}

/// Gives a name the words of a value.
pub open spec fn bind_vars_code(c: Code, name: Seq<char>, vals: Seq<usize>, ls: Seq<FieldView>) -> Code {
    bind_vars_upto(c, name, vals, ls, min_nat(vals.len(), ls.len()))
}

pub(crate) fn bind_vars(b: &mut Builder, name: &str, vals: &Vec<usize>, ls: &Vec<(String, Type)>)
    ensures
        final(b)@ == bind_vars_code(old(b)@, name@, vals@, field_views(ls@)),
{
    let total: usize = min_len(vals.len(), ls.len());
    let mut i: usize = 0;
    while i < total
        invariant
            i <= total,
            total == min_nat(vals@.len(), field_views(ls@).len()),
            b@ == bind_vars_upto(old(b)@, name@, vals@, field_views(ls@), i as nat),
        decreases total - i,
    {
        let key = var_key(name, ls[i].0.as_str());
        let var: usize = get_or_declare_var(b, key.as_str(), &ls[i].1);
        emit(b, Op::DefVar { var, val: vals[i] });
        i = i + 1;
    }
}

pub open spec fn load_vars_upto(c: Code, prefix: Seq<char>, ls: Seq<FieldView>, n: nat) -> (Seq<usize>, Code)
    decreases n,
{
    if n == 0 {
        (Seq::<usize>::empty(), c)
    } else {
        let (out, c) = load_vars_upto(c, prefix, ls, (n - 1) as nat);
        let i = (n - 1) as usize;
        let key = dotted(prefix, ls[i as int].0);
        let (var, c) = get_or_declare_var_code(c, key, ls[i as int].1);
        let (v, c) = put_code(c, Op::UseVar { var });
        let out = out.push(v);
        (out, c)
    }
}

/// The words of a place that is a name.
pub open spec fn load_vars_code(c: Code, prefix: Seq<char>, ls: Seq<FieldView>) -> (Seq<usize>, Code) {
    load_vars_upto(c, prefix, ls, ls.len())
}

pub(crate) fn load_vars(b: &mut Builder, prefix: &str, ls: &Vec<(String, Type)>) -> (r: Vec<usize>)
    ensures
        (r@, final(b)@) == load_vars_code(old(b)@, prefix@, field_views(ls@)),
{
    let total: usize = ls.len();
    let mut out = Vec::new();
    let mut i: usize = 0;
    while i < total
        invariant
            i <= total,
            total == field_views(ls@).len(),
            (out@, b@) == load_vars_upto(old(b)@, prefix@, field_views(ls@), i as nat),
        decreases total - i,
    {
        let key = var_key(prefix, ls[i].0.as_str());
        let var: usize = get_or_declare_var(b, key.as_str(), &ls[i].1);
        let v: usize = put(b, Op::UseVar { var });
        out.push(v);
        i = i + 1;
    }
    out
}

pub open spec fn mut_param_copyout_upto(c: Code, cx: Env, n: nat) -> (Seq<usize>, Code)
    decreases n,
{
    if n == 0 {
        (Seq::<usize>::empty(), c)
    } else {
        let (out, c) = mut_param_copyout_upto(c, cx, (n - 1) as nat);
        let i = (n - 1) as usize;
        let (ls, c) = leaves_code(c, cx, cx.mut_params[i as int].1);
        let (more, c) = read_vars_code(c, cx.mut_params[i as int].0, ls);
        let out = out + more;
        (out, c)
    }
}

/// The present value of every `mut` parameter, as it is handed back wherever the function is left.
pub open spec fn mut_param_copyout_code(c: Code, cx: Env) -> (Seq<usize>, Code) {
    mut_param_copyout_upto(c, cx, cx.mut_params.len())
}

pub(crate) fn mut_param_copyout(b: &mut Builder, cx: &Ctx) -> (r: Vec<usize>)
    ensures
        (r@, final(b)@) == mut_param_copyout_code(old(b)@, cx@),
{
    let total: usize = cx.mut_params.len();
    let mut out = Vec::new();
    let mut i: usize = 0;
    while i < total
        invariant
            i <= total,
            total == cx@.mut_params.len(),
            (out@, b@) == mut_param_copyout_upto(old(b)@, cx@, i as nat),
        decreases total - i,
    {
        let ls = leaf_list(b, cx, &cx.mut_params[i].1);
        let more = read_vars(b, cx.mut_params[i].0.as_str(), &ls);
        extend(&mut out, &more);
        i = i + 1;
    }
    out
}

/// Marks the lists in what was just read from a name that is read again later.
pub open spec fn mark_if_aliased_code(c: Code, cx: Env, e: Spanned<TypedExpr>, vals: Seq<usize>) -> Code {
    match e.item.kind {
        TypedExprKind::Var(_) => {
            if !cx.marks.last.contains(e.item.id) {
                let c = mark_shared_extracted_code(c, cx, e.item.ty@, vals);
                c
            } else {
                c
            }
        },
        _ => {
            c
        },
    }
}

pub(crate) fn mark_if_aliased(b: &mut Builder, cx: &Ctx, e: &Spanned<TypedExpr>, vals: &Vec<usize>)
    ensures
        final(b)@ == mark_if_aliased_code(old(b)@, cx@, *e, vals@),
{
    match &e.item.kind {
        TypedExprKind::Var(_) => {
            if is_copy(cx.liveness.ownership(e.item.id)) {
                mark_shared_extracted(b, cx, &e.item.ty, vals);
            }
        },
        _ => {
            {}
        },
    }
}

/// Reads a word of a list's element.
pub open spec fn slot_load_code(c: Code, cx: Env, list: usize, index: usize, offset: usize) -> (usize, Code) {
    let (off, c) = iconst_code(c, ClType::I64, offset as i64);
    let c = emit_code(c, Op::Arg { val: list });
    let c = emit_code(c, Op::Arg { val: index });
    let c = emit_code(c, Op::Arg { val: off });
    let c = invoke_code(c, cx, "frog_list_get"@);
    let (word, c) = put_code(c, Op::Result { index: 0 });
    let c = emit_code(c, Op::GcValue { val: word });
    (word, c)
}

pub(crate) fn slot_load(b: &mut Builder, cx: &Ctx, list: usize, index: usize, offset: usize) -> (r: usize)
    ensures
        (r, final(b)@) == slot_load_code(old(b)@, cx@, list, index, offset),
{
    let off: usize = iconst(b, ClType::I64, offset as i64);
    emit(b, Op::Arg { val: list });
    emit(b, Op::Arg { val: index });
    emit(b, Op::Arg { val: off });
    invoke(b, cx, "frog_list_get");
    let word: usize = put(b, Op::Result { index: 0 });
    emit(b, Op::GcValue { val: word });
    word
}

/// Writes a word of a list's element.
pub open spec fn slot_store_code(c: Code, cx: Env, list: usize, index: usize, offset: usize, val: usize) -> Code {
    let (off, c) = iconst_code(c, ClType::I64, offset as i64);
    let c = emit_code(c, Op::Arg { val: list });
    let c = emit_code(c, Op::Arg { val: index });
    let c = emit_code(c, Op::Arg { val: off });
    let c = emit_code(c, Op::Arg { val });
    let c = invoke_code(c, cx, "frog_list_set"@);
    c
}

pub(crate) fn slot_store(b: &mut Builder, cx: &Ctx, list: usize, index: usize, offset: usize, val: usize)
    ensures
        final(b)@ == slot_store_code(old(b)@, cx@, list, index, offset, val),
{
    let off: usize = iconst(b, ClType::I64, offset as i64);
    emit(b, Op::Arg { val: list });
    emit(b, Op::Arg { val: index });
    emit(b, Op::Arg { val: off });
    emit(b, Op::Arg { val });
    invoke(b, cx, "frog_list_set");
}

pub open spec fn load_slots_upto(
    c: Code,
    cx: Env,
    list: usize,
    index: usize,
    offset: usize,
    ls: Seq<FieldView>,
    n: nat,
) -> (Seq<usize>, Code)
    decreases n,
{
    if n == 0 {
        (Seq::<usize>::empty(), c)
    } else {
        let (out, c) = load_slots_upto(c, cx, list, index, offset, ls, (n - 1) as nat);
        let i = (n - 1) as usize;
        let (word, c) = slot_load_code(c, cx, list, index, beyond(offset, i));
        let (v, c) = from_i64_repr_code(c, ls[i as int].1, word);
        let out = out.push(v);
        (out, c)
    }
}

/// The words of a part of a list's element.
pub open spec fn load_slots_code(
    c: Code,
    cx: Env,
    list: usize,
    index: usize,
    offset: usize,
    ls: Seq<FieldView>,
) -> (Seq<usize>, Code) {
    load_slots_upto(c, cx, list, index, offset, ls, ls.len())
}

pub(crate) fn load_slots(
    b: &mut Builder,
    cx: &Ctx,
    list: usize,
    index: usize,
    offset: usize,
    ls: &Vec<(String, Type)>,
) -> (r: Vec<usize>)
    ensures
        (r@, final(b)@) == load_slots_code(old(b)@, cx@, list, index, offset, field_views(ls@)),
{
    let total: usize = ls.len();
    let mut out = Vec::new();
    let mut i: usize = 0;
    while i < total
        invariant
            i <= total,
            total == field_views(ls@).len(),
            (out@, b@) == load_slots_upto(old(b)@, cx@, list, index, offset, field_views(ls@), i as nat),
        decreases total - i,
    {
        let word: usize = slot_load(b, cx, list, index, past(offset, i));
        let v: usize = from_i64_repr(b, &ls[i].1, word);
        out.push(v);
        i = i + 1;
    }
    out
}

pub open spec fn store_slot_words_upto(
    c: Code,
    cx: Env,
    list: usize,
    index: usize,
    offset: usize,
    vals: Seq<usize>,
    ls: Seq<FieldView>,
    n: nat,
) -> Code
    decreases n,
{
    if n == 0 {
        c
    } else {
        let c = store_slot_words_upto(c, cx, list, index, offset, vals, ls, (n - 1) as nat);
        let i = (n - 1) as usize;
        let (word, c) = to_i64_repr_code(c, ls[i as int].1, vals[i as int]);
        let c = slot_store_code(c, cx, list, index, beyond(offset, i), word);
        c
    }
}

/// Writes the words of a part of a list's element.
pub open spec fn store_slot_words_code(
    c: Code,
    cx: Env,
    list: usize,
    index: usize,
    offset: usize,
    vals: Seq<usize>,
    ls: Seq<FieldView>,
) -> Code {
    store_slot_words_upto(c, cx, list, index, offset, vals, ls, min_nat(vals.len(), ls.len()))
}

pub(crate) fn store_slot_words(
    b: &mut Builder,
    cx: &Ctx,
    list: usize,
    index: usize,
    offset: usize,
    vals: &Vec<usize>,
    ls: &Vec<(String, Type)>,
)
    ensures
        final(b)@ == store_slot_words_code(old(b)@, cx@, list, index, offset, vals@, field_views(ls@)),
{
    let total: usize = min_len(vals.len(), ls.len());
    let mut i: usize = 0;
    while i < total
        invariant
            i <= total,
            total == min_nat(vals@.len(), field_views(ls@).len()),
            b@ == store_slot_words_upto(old(b)@, cx@, list, index, offset, vals@, field_views(ls@), i as nat),
        decreases total - i,
    {
        let word: usize = to_i64_repr(b, &ls[i].1, vals[i]);
        slot_store(b, cx, list, index, past(offset, i), word);
        i = i + 1;
    }
}

/// Reads what a place holds.
pub open spec fn place_load_code(c: Code, cx: Env, pref: PlaceView, ty: Ty) -> (Seq<usize>, Code) {
    let (ls, c) = leaves_code(c, cx, ty);
    match pref {
        PlaceView::Vars(prefix) => {
            load_vars_code(c, prefix, ls)
        },
        PlaceView::Slot(list, index, offset) => {
            load_slots_code(c, cx, list, index, offset, ls)
        },
    }
}

pub(crate) fn place_load(b: &mut Builder, cx: &Ctx, pref: &PlaceRef, ty: &Type) -> (r: Vec<usize>)
    ensures
        (r@, final(b)@) == place_load_code(old(b)@, cx@, pref@, ty@),
{
    let ls = leaf_list(b, cx, ty);
    match pref {
        PlaceRef::Vars(prefix) => {
            load_vars(b, prefix.as_str(), &ls)
        },
        PlaceRef::Slot { list, index, offset } => {
            load_slots(b, cx, *list, *index, *offset, &ls)
        },
    }
}

/// Writes a value into a place.
pub open spec fn place_store_code(c: Code, cx: Env, pref: PlaceView, ty: Ty, vals: Seq<usize>) -> Code {
    let (ls, c) = leaves_code(c, cx, ty);
    match pref {
        PlaceView::Vars(prefix) => {
            let c = bind_vars_code(c, prefix, vals, ls);
            c
        },
        PlaceView::Slot(list, index, offset) => {
            let c = store_slot_words_code(c, cx, list, index, offset, vals, ls);
            c
        },
    }
}

pub(crate) fn place_store(b: &mut Builder, cx: &Ctx, pref: &PlaceRef, ty: &Type, vals: &Vec<usize>)
    ensures
        final(b)@ == place_store_code(old(b)@, cx@, pref@, ty@, vals@),
{
    let ls = leaf_list(b, cx, ty);
    match pref {
        PlaceRef::Vars(prefix) => {
            bind_vars(b, prefix.as_str(), vals, &ls);
        },
        PlaceRef::Slot { list, index, offset } => {
            store_slot_words(b, cx, *list, *index, *offset, vals, &ls);
        },
    }
}

/// Where the part that a run of field steps names starts among the leaves of a type.
pub open spec fn field_run_offset_code(
    c: Code,
    cx: Env,
    ty: Ty,
    path: Seq<PlaceSeg>,
    from: usize,
    to: usize,
) -> (usize, Code) {
    let run = run_of(path, from as int, to as int);
    if run.len() == 0 {
        (0, c)
    } else {
        let (ls, c) = leaves_code(c, cx, ty);
        match start_of(ls, run, 0) {
            Some(k) => {
                (k, c)
            },
            None => {
                let c = fail_code(c, Fault::UnknownField);
                (0, c)
            },
        }
    }
}

pub(crate) fn field_run_offset(
    b: &mut Builder,
    cx: &Ctx,
    ty: &Type,
    path: &Vec<PlaceSeg>,
    from: usize,
    to: usize,
) -> (r: usize)
    ensures
        (r, final(b)@) == field_run_offset_code(old(b)@, cx@, ty@, path@, from, to),
{
    let run = field_run(path, from, to);
    if run.as_str().is_empty() {
        0
    } else {
        let ls = leaf_list(b, cx, ty);
        match dotted_start(&ls, run.as_str()) {
            Some(k) => {
                k
            },
            None => {
                fail(b, Fault::UnknownField);
                0
            },
        }
    }
}

pub open spec fn walk_path_upto(
    c: Code,
    cx: Env,
    path: Seq<PlaceSeg>,
    cur: usize,
    last: usize,
    n: nat,
) -> (usize, Code)
    decreases path, 0int, n,
{
    if n == 0 || n > min_nat(last as nat, path.len()) {
        (cur, c)
    } else {
        let (at_list, c) = walk_path_upto(c, cx, path, cur, last, (n - 1) as nat);
        let i = (n - 1) as usize;
        let (at_list, c) = match path[n - 1] {
            PlaceSeg::Index { index, elem_ty } => {
                let (offset, c) = field_run_offset_code(c, cx, elem_ty@, path, (i + 1) as usize, next_of(path, i + 1));
                let (idx, c) = compile_expr_code(c, cx, *index);
                let (held, c) = slot_load_code(c, cx, at_list, idx, offset);
                let (own, c) = unshare_code(c, cx, held, 2);
                let c = slot_store_code(c, cx, at_list, idx, offset, own);
                (own, c)
            },
            PlaceSeg::Field(_) => {
                (at_list, c)
            },
        };
        (at_list, c)
    }
}

/// Goes down the `[index]` steps before the last one. Each list on the way is
/// unshared and stored back before the next is entered.
pub open spec fn walk_path_code(c: Code, cx: Env, path: Seq<PlaceSeg>, cur: usize, last: usize) -> (usize, Code)
    decreases path, 1int, 0int,
 {
    walk_path_upto(c, cx, path, cur, last, min_nat(last as nat, path.len()))
}

pub(crate) fn walk_path(b: &mut Builder, cx: &Ctx, path: &Vec<PlaceSeg>, cur: usize, last: usize) -> (r: usize)
    ensures
        (r, final(b)@) == walk_path_code(old(b)@, cx@, path@, cur, last),
    decreases path, 1int, 0int,
{
    let total: usize = min_len(last, path.len());
    let mut at_list: usize = cur;
    let mut i: usize = 0;
    while i < total
        invariant
            i <= total,
            total == min_nat(last as nat, path@.len()),
            (at_list, b@) == walk_path_upto(old(b)@, cx@, path@, cur, last, i as nat),
        decreases total - i,
    {
        at_list = match &path[i] {
            PlaceSeg::Index { index, elem_ty } => {
                let offset: usize = field_run_offset(b, cx, elem_ty, path, i + 1, next_index(path, i + 1));
                let idx: usize = compile_expr(b, cx, &**index);
                let held: usize = slot_load(b, cx, at_list, idx, offset);
                let own: usize = unshare(b, cx, held, 2);
                slot_store(b, cx, at_list, idx, offset, own);
                own
            },
            PlaceSeg::Field(_) => {
                at_list
            },
        };
        i = i + 1;
    }
    at_list
}

/// Where a place is kept, once every list above it has been unshared.
pub open spec fn place_ref_code(c: Code, cx: Env, place: Place) -> (PlaceView, Code)
    decreases place, 2int, 0int,
 {
    match last_of(place.path@) {
        None => {
            (PlaceView::Vars(dotted(place.root@, run_of(place.path@, 0, place.path@.len() as int))), c)
        },
        Some(last) => {
            let key = dotted(place.root@, run_of(place.path@, 0, next_of(place.path@, 0) as int));
            let (var, c) = bound_code(c, key);
            let (held, c) = put_code(c, Op::UseVar { var });
            let (own, c) = unshare_code(c, cx, held, 1);
            let c = emit_code(c, Op::DefVar { var, val: own });
            let (cur, c) = walk_path_code(c, cx, place.path@, own, last);
            final_step_code(c, cx, place.path@, cur, last)
        },
    }
}

pub(crate) fn place_ref(b: &mut Builder, cx: &Ctx, place: &Place) -> (r: PlaceRef)
    ensures
        (r@, final(b)@) == place_ref_code(old(b)@, cx@, *place),
    decreases place, 2int, 0int,
{
    match last_index(&place.path) {
        None => {
            PlaceRef::Vars(var_key(place.root.as_str(), field_run(&place.path, 0, place.path.len()).as_str()))
        },
        Some(last) => {
            let key = var_key(place.root.as_str(), field_run(&place.path, 0, next_index(&place.path, 0)).as_str());
            let var: usize = bound(b, key.as_str());
            let held: usize = put(b, Op::UseVar { var });
            let own: usize = unshare(b, cx, held, 1);
            emit(b, Op::DefVar { var, val: own });
            let cur: usize = walk_path(b, cx, &place.path, own, last);
            final_step(b, cx, &place.path, cur, last)
        },
    }
}

/// The last `[index]` step of a place, and what follows it.
pub open spec fn final_step_code(c: Code, cx: Env, path: Seq<PlaceSeg>, cur: usize, last: usize) -> (PlaceView, Code)
    decreases path, 1int, 0int,
 {
    if last < path.len() {
        match path[last as int] {
            PlaceSeg::Index { index, elem_ty } => {
                let (idx, c) = compile_expr_code(c, cx, *index);
                let (offset, c) = field_run_offset_code(c, cx, elem_ty@, path, (last + 1) as usize, path.len() as usize);
                (PlaceView::Slot(cur, idx, offset), c)
            },
            PlaceSeg::Field(_) => {
                let c = fail_code(c, Fault::IllTyped);
                (PlaceView::Vars(Seq::empty()), c)
            },
        }
    } else {
        let c = fail_code(c, Fault::IllTyped);
        (PlaceView::Vars(Seq::empty()), c)
    }
}

pub(crate) fn final_step(b: &mut Builder, cx: &Ctx, path: &Vec<PlaceSeg>, cur: usize, last: usize) -> (r: PlaceRef)
    ensures
        (r@, final(b)@) == final_step_code(old(b)@, cx@, path@, cur, last),
    decreases path, 1int, 0int,
{
    if last < path.len() {
        match &path[last] {
            PlaceSeg::Index { index, elem_ty } => {
                let idx: usize = compile_expr(b, cx, &**index);
                let offset: usize = field_run_offset(b, cx, elem_ty, path, last + 1, path.len());
                PlaceRef::Slot { list: cur, index: idx, offset }
            },
            PlaceSeg::Field(_) => {
                fail(b, Fault::IllTyped);
                PlaceRef::Vars(String::new())
            },
        }
    } else {
        fail(b, Fault::IllTyped);
        PlaceRef::Vars(String::new())
    }
}

/// The list at a place, unshared and stored back, ready to be appended to.
pub open spec fn mutable_list_code(c: Code, cx: Env, place: Place) -> (usize, Code)
    decreases place, 3int, 0int,
 {
    let (pref, c) = place_ref_code(c, cx, place);
    let allowed = allowed_of(pref, place, cx);
    let list_ty = Ty::Named("List"@, seq![Ty::Int]);
    let (held, c) = place_load_code(c, cx, pref, list_ty);
    let (first, c) = at_code(c, held, 0);
    let (own, c) = unshare_code(c, cx, first, allowed);
    let words = seq![own];
    let c = place_store_code(c, cx, pref, list_ty, words);
    (own, c)
}

pub(crate) fn mutable_list(b: &mut Builder, cx: &Ctx, place: &Place) -> (r: usize)
    ensures
        (r, final(b)@) == mutable_list_code(old(b)@, cx@, *place),
    decreases place, 3int, 0int,
{
    let pref = place_ref(b, cx, place);
    let allowed: i64 = allowed_refs(&pref, place, cx);
    let list_ty = Type::list(Type::Int);
    let held = place_load(b, cx, &pref, &list_ty);
    let first: usize = at(b, &held, 0);
    let own: usize = unshare(b, cx, first, allowed);
    let words = vec![own];
    assert(words@ =~= seq![own]);
    place_store(b, cx, &pref, &list_ty, &words);
    own
}

/// The code of an expression that is one word.
pub open spec fn compile_expr_code(c: Code, cx: Env, e: Spanned<TypedExpr>) -> (usize, Code)
    decreases e, 6int, 0int,
 {
    let (vals, c) = compile_expr_multi_code(c, cx, e);
    one_code(c, vals)
}

pub(crate) fn compile_expr(b: &mut Builder, cx: &Ctx, e: &Spanned<TypedExpr>) -> (r: usize)
    ensures
        (r, final(b)@) == compile_expr_code(old(b)@, cx@, *e),
    decreases e, 6int, 0int,
{
    let vals = compile_expr_multi(b, cx, e);
    one(b, &vals)
}

/// The code of an expression that is only read through: a name so read is not aliased.
pub open spec fn transient_code(c: Code, cx: Env, e: Spanned<TypedExpr>) -> (Seq<usize>, Code)
    decreases e, 6int, 0int,
 {
    match e.item.kind {
        TypedExprKind::Var(name) => {
            read_var_raw_code(c, cx, name@, e.item.ty@)
        },
        _ => {
            compile_expr_multi_code(c, cx, e)
        },
    }
}

pub(crate) fn transient(b: &mut Builder, cx: &Ctx, e: &Spanned<TypedExpr>) -> (r: Vec<usize>)
    ensures
        (r@, final(b)@) == transient_code(old(b)@, cx@, *e),
    decreases e, 6int, 0int,
{
    match &e.item.kind {
        TypedExprKind::Var(name) => {
            read_var_raw(b, cx, name.as_str(), &e.item.ty)
        },
        _ => {
            compile_expr_multi(b, cx, e)
        },
    }
}

/// The code of an expression of one word that is only read through.
pub open spec fn transient_one_code(c: Code, cx: Env, e: Spanned<TypedExpr>) -> (usize, Code)
    decreases e, 7int, 0int,
 {
    let (vals, c) = transient_code(c, cx, e);
    one_code(c, vals)
}

pub(crate) fn transient_one(b: &mut Builder, cx: &Ctx, e: &Spanned<TypedExpr>) -> (r: usize)
    ensures
        (r, final(b)@) == transient_one_code(old(b)@, cx@, *e),
    decreases e, 7int, 0int,
{
    let vals = transient(b, cx, e);
    one(b, &vals)
}

pub open spec fn index_words_upto(
    c: Code,
    cx: Env,
    list: usize,
    idx: usize,
    ls: Seq<FieldView>,
    n: nat,
) -> (Seq<usize>, Code)
    decreases n,
{
    if n == 0 {
        (Seq::<usize>::empty(), c)
    } else {
        let (out, c) = index_words_upto(c, cx, list, idx, ls, (n - 1) as nat);
        let i = (n - 1) as usize;
        let (off, c) = iconst_code(c, ClType::I64, i as i64);
        let c = emit_code(c, Op::Arg { val: list });
        let c = emit_code(c, Op::Arg { val: idx });
        let c = emit_code(c, Op::Arg { val: off });
        let c = invoke_code(c, cx, "frog_list_get"@);
        let (word, c) = put_code(c, Op::Result { index: 0 });
        let (v, c) = from_i64_repr_code(c, ls[i as int].1, word);
        let out = out.push(v);
        (out, c)
    }
}

/// The words of an element, each read with a bounds check.
pub open spec fn index_words_code(
    c: Code,
    cx: Env,
    list: usize,
    idx: usize,
    ls: Seq<FieldView>,
) -> (Seq<usize>, Code) {
    index_words_upto(c, cx, list, idx, ls, ls.len())
}

pub(crate) fn index_words(
    b: &mut Builder,
    cx: &Ctx,
    list: usize,
    idx: usize,
    ls: &Vec<(String, Type)>,
) -> (r: Vec<usize>)
    ensures
        (r@, final(b)@) == index_words_code(old(b)@, cx@, list, idx, field_views(ls@)),
{
    let total: usize = ls.len();
    let mut out = Vec::new();
    let mut i: usize = 0;
    while i < total
        invariant
            i <= total,
            total == field_views(ls@).len(),
            (out@, b@) == index_words_upto(old(b)@, cx@, list, idx, field_views(ls@), i as nat),
        decreases total - i,
    {
        let off: usize = iconst(b, ClType::I64, i as i64);
        emit(b, Op::Arg { val: list });
        emit(b, Op::Arg { val: idx });
        emit(b, Op::Arg { val: off });
        invoke(b, cx, "frog_list_get");
        let word: usize = put(b, Op::Result { index: 0 });
        let v: usize = from_i64_repr(b, &ls[i].1, word);
        out.push(v);
        i = i + 1;
    }
    out
}

/// A word that stands for no value.
pub open spec fn zero_word_code(c: Code) -> (Seq<usize>, Code) {
    let (zero, c) = iconst_code(c, ClType::I64, 0);
    (seq![zero], c)
}

pub(crate) fn zero_word(b: &mut Builder) -> (r: Vec<usize>)
    ensures
        (r@, final(b)@) == zero_word_code(old(b)@),
{
    let zero: usize = iconst(b, ClType::I64, 0);
    vec![zero]
}

/// A value of one word.
pub open spec fn single_code(c: Code, v: usize) -> (Seq<usize>, Code) {
    (seq![v], c)
}

pub(crate) fn single(b: &mut Builder, v: usize) -> (r: Vec<usize>)
    ensures
        (r@, final(b)@) == single_code(old(b)@, v),
{
    vec![v]
}

/// A string on the heap.
pub open spec fn alloc_str_code(c: Code, cx: Env, text: Seq<char>) -> (Seq<usize>, Code) {
    let (data, c) = str_addr_code(c, text);
    let (len, c) = iconst_code(c, ClType::I64, byte_len(text));
    let (v, c) = call_two_code(c, cx, "frog_alloc_str"@, data, len);
    let c = emit_code(c, Op::GcValue { val: v });
    single_code(c, v)
}

pub(crate) fn alloc_str(b: &mut Builder, cx: &Ctx, text: &str) -> (r: Vec<usize>)
    ensures
        (r@, final(b)@) == alloc_str_code(old(b)@, cx@, text@),
{
    let data: usize = str_addr(b, text);
    let len: usize = iconst(b, ClType::I64, text_bytes(text));
    let v: usize = call_two(b, cx, "frog_alloc_str", data, len);
    emit(b, Op::GcValue { val: v });
    single(b, v)
}

/// A prefix operator.
pub open spec fn compile_unary_code(c: Code, cx: Env, e: Spanned<TypedExpr>) -> (Seq<usize>, Code)
    decreases e, 1int, 0int,
 {
    match e.item.kind {
        TypedExprKind::Unary { op, expr } => {
            let (v, c) = compile_expr_code(c, cx, *expr);
            match op {
                Token::Minus => {
                    if expr.item.ty@ is Float {
                        let (neg, c) = put_code(c, Op::Convert { op: Conv::FloatNeg, a: v });
                        single_code(c, neg)
                    } else {
                        let (zero, c) = iconst_code(c, ClType::I64, 0);
                        let (neg, c) = put_code(c, Op::Binary { op: BinOp::Isub, a: zero, b: v });
                        single_code(c, neg)
                    }
                },
                Token::Not => {
                    let (flag, c) = iconst_code(c, ClType::I8, 1);
                    let (flipped, c) = put_code(c, Op::Binary { op: BinOp::Bxor, a: v, b: flag });
                    single_code(c, flipped)
                },
                _ => {
                    let c = fail_code(c, Fault::UnsupportedOperator);
                    single_code(c, v)
                },
            }
        },
        _ => {
            zero_word_code(c)
        },
    }
}

pub(crate) fn compile_unary(b: &mut Builder, cx: &Ctx, e: &Spanned<TypedExpr>) -> (r: Vec<usize>)
    ensures
        (r@, final(b)@) == compile_unary_code(old(b)@, cx@, *e),
    decreases e, 1int, 0int,
{
    match &e.item.kind {
        TypedExprKind::Unary { op, expr } => {
            let v: usize = compile_expr(b, cx, &**expr);
            match op {
                Token::Minus => {
                    if is_float(&expr.item.ty) {
                        let neg: usize = put(b, Op::Convert { op: Conv::FloatNeg, a: v });
                        single(b, neg)
                    } else {
                        let zero: usize = iconst(b, ClType::I64, 0);
                        let neg: usize = put(b, Op::Binary { op: BinOp::Isub, a: zero, b: v });
                        single(b, neg)
                    }
                },
                Token::Not => {
                    let flag: usize = iconst(b, ClType::I8, 1);
                    let flipped: usize = put(b, Op::Binary { op: BinOp::Bxor, a: v, b: flag });
                    single(b, flipped)
                },
                _ => {
                    fail(b, Fault::UnsupportedOperator);
                    single(b, v)
                },
            }
        },
        _ => {
            zero_word(b)
        },
    }
}

/// A comparison for equality, or its negation.
pub open spec fn negate_if_ne_code(c: Code, op: Token, eq: usize) -> (usize, Code) {
    match op {
        Token::NotEq => {
            let (flag, c) = iconst_code(c, ClType::I8, 1);
            put_code(c, Op::Binary { op: BinOp::Bxor, a: eq, b: flag })
        },
        _ => {
            (eq, c)
        },
    }
}

pub(crate) fn negate_if_ne(b: &mut Builder, op: &Token, eq: usize) -> (r: usize)
    ensures
        (r, final(b)@) == negate_if_ne_code(old(b)@, *op, eq),
{
    match op {
        Token::NotEq => {
            let flag: usize = iconst(b, ClType::I8, 1);
            put(b, Op::Binary { op: BinOp::Bxor, a: eq, b: flag })
        },
        _ => {
            eq
        },
    }
}

/// An operator on strings.
pub open spec fn str_binary_code(c: Code, cx: Env, op: Token, lv: usize, rv: usize) -> (usize, Code) {
    match op {
        Token::Plus => {
            let (v, c) = call_two_code(c, cx, "frog_str_concat"@, lv, rv);
            let c = emit_code(c, Op::GcValue { val: v });
            (v, c)
        },
        Token::EqEq => {
            let (v, c) = call_two_code(c, cx, "frog_str_eq"@, lv, rv);
            put_code(c, Op::Convert { op: Conv::Low8, a: v })
        },
        Token::NotEq => {
            let (v, c) = call_two_code(c, cx, "frog_str_eq"@, lv, rv);
            let (flag, c) = iconst_code(c, ClType::I64, 1);
            let (flipped, c) = put_code(c, Op::Binary { op: BinOp::Bxor, a: v, b: flag });
            put_code(c, Op::Convert { op: Conv::Low8, a: flipped })
        },
        Token::In => {
            let (v, c) = call_two_code(c, cx, "frog_str_contains"@, lv, rv);
            put_code(c, Op::Convert { op: Conv::Low8, a: v })
        },
        _ => {
            match order_of(op) {
                Some(test) => {
                    let (sign, c) = call_two_code(c, cx, "frog_str_cmp"@, lv, rv);
                    let (zero, c) = iconst_code(c, ClType::I64, 0);
                    put_code(c, Op::Compare { test, a: sign, b: zero })
                },
                None => {
                    let c = fail_code(c, Fault::UnsupportedOperator);
                    (lv, c)
                },
            }
        },
    }
}

pub(crate) fn str_binary(b: &mut Builder, cx: &Ctx, op: &Token, lv: usize, rv: usize) -> (r: usize)
    ensures
        (r, final(b)@) == str_binary_code(old(b)@, cx@, *op, lv, rv),
{
    match op {
        Token::Plus => {
            let v: usize = call_two(b, cx, "frog_str_concat", lv, rv);
            emit(b, Op::GcValue { val: v });
            v
        },
        Token::EqEq => {
            let v: usize = call_two(b, cx, "frog_str_eq", lv, rv);
            put(b, Op::Convert { op: Conv::Low8, a: v })
        },
        Token::NotEq => {
            let v: usize = call_two(b, cx, "frog_str_eq", lv, rv);
            let flag: usize = iconst(b, ClType::I64, 1);
            let flipped: usize = put(b, Op::Binary { op: BinOp::Bxor, a: v, b: flag });
            put(b, Op::Convert { op: Conv::Low8, a: flipped })
        },
        Token::In => {
            let v: usize = call_two(b, cx, "frog_str_contains", lv, rv);
            put(b, Op::Convert { op: Conv::Low8, a: v })
        },
        _ => {
            match order_test(op) {
                Some(test) => {
                    let sign: usize = call_two(b, cx, "frog_str_cmp", lv, rv);
                    let zero: usize = iconst(b, ClType::I64, 0);
                    put(b, Op::Compare { test, a: sign, b: zero })
                },
                None => {
                    fail(b, Fault::UnsupportedOperator);
                    lv
                },
            }
        },
    }
}

/// An operator on numbers. An integer division is guarded; a float one cannot fail.
pub open spec fn num_binary_code(
    c: Code,
    cx: Env,
    op: Token,
    lv: usize,
    rv: usize,
    on_floats: bool,
) -> (usize, Code) {
    match arith_of(op, on_floats) {
        Some(bin) => {
            let c = if bin == BinOp::Sdiv {
                let c = int_div_guard_code(c, cx, lv, rv);
                c
            } else {
                c
            };
            put_code(c, Op::Binary { op: bin, a: lv, b: rv })
        },
        None => {
            match compare_of(op) {
                Some(test) => {
                    if on_floats {
                        put_code(c, Op::FloatCompare { test, a: lv, b: rv })
                    } else {
                        put_code(c, Op::Compare { test, a: lv, b: rv })
                    }
                },
                None => {
                    let c = fail_code(c, Fault::UnsupportedOperator);
                    (lv, c)
                },
            }
        },
    }
}

pub(crate) fn num_binary(b: &mut Builder, cx: &Ctx, op: &Token, lv: usize, rv: usize, on_floats: bool) -> (r: usize)
    ensures
        (r, final(b)@) == num_binary_code(old(b)@, cx@, *op, lv, rv, on_floats),
{
    match arith(op, on_floats) {
        Some(bin) => {
            if is_sdiv(bin) {
                int_div_guard(b, cx, lv, rv);
            }
            put(b, Op::Binary { op: bin, a: lv, b: rv })
        },
        None => {
            match compare_test(op) {
                Some(test) => {
                    if on_floats {
                        put(b, Op::FloatCompare { test, a: lv, b: rv })
                    } else {
                        put(b, Op::Compare { test, a: lv, b: rv })
                    }
                },
                None => {
                    fail(b, Fault::UnsupportedOperator);
                    lv
                },
            }
        },
    }
}

/// An infix operator, chosen by the types of its operands.
pub open spec fn compile_binary_code(c: Code, cx: Env, e: Spanned<TypedExpr>) -> (Seq<usize>, Code)
    decreases e, 1int, 0int,
 {
    match e.item.kind {
        TypedExprKind::Binary { op, left, right } => {
            if left.item.ty@ is Str {
                let (lv, c) = compile_expr_code(c, cx, *left);
                let (rv, c) = compile_expr_code(c, cx, *right);
                let (v, c) = str_binary_code(c, cx, op, lv, rv);
                single_code(c, v)
            } else if op is In && right.item.ty@.is_range() {
                let (lv, c) = compile_expr_code(c, cx, *left);
                let (bounds, c) = compile_expr_multi_code(c, cx, *right);
                let (start, c) = at_code(c, bounds, 0);
                let (end, c) = at_code(c, bounds, 1);
                let (ge_start, c) = put_code(c, Op::Compare { test: Test::GreaterEqual, a: lv, b: start });
                let (lt_end, c) = put_code(c, Op::Compare { test: Test::Less, a: lv, b: end });
                let (v, c) = put_code(c, Op::Binary { op: BinOp::Band, a: ge_start, b: lt_end });
                single_code(c, v)
            } else if op is In && right.item.ty@.is_list() {
                let elem = right.item.ty@.elem();
                let (lv, c) = compile_expr_multi_code(c, cx, *left);
                let (ls, c) = leaves_code(c, cx, elem);
                let tys = field_tys(ls);
                let c = declare_gc_leaves_code(c, lv, tys);
                let (rv, c) = transient_one_code(c, cx, *right);
                let fresh = Seq::<Ty>::empty();
                let (v, c) = list_contains_code(c, cx, elem, lv, rv, fresh);
                single_code(c, v)
            } else if left.item.ty@.is_list() && equality(op) {
                let elem = left.item.ty@.elem();
                let (lv, c) = transient_one_code(c, cx, *left);
                let (rv, c) = transient_one_code(c, cx, *right);
                let fresh = Seq::<Ty>::empty();
                let (eq, c) = eq_list_code(c, cx, elem, lv, rv, fresh);
                let (v, c) = negate_if_ne_code(c, op, eq);
                single_code(c, v)
            } else if left.item.ty@ is Union && equality(op) {
                compile_union_eq_code(c, cx, e)
            } else if logical(op) {
                compile_logical_code(c, cx, e)
            } else {
                let (l0, c) = compile_expr_code(c, cx, *left);
                let (r0, c) = compile_expr_code(c, cx, *right);
                let join = join_of(left.item.ty@, right.item.ty@);
                let (lv, c) = coerce_value_code(c, l0, left.item.ty@, join);
                let (rv, c) = coerce_value_code(c, r0, right.item.ty@, join);
                let (v, c) = num_binary_code(c, cx, op, lv, rv, join is Float);
                single_code(c, v)
            }
        },
        _ => {
            zero_word_code(c)
        },
    }
}

pub(crate) fn compile_binary(b: &mut Builder, cx: &Ctx, e: &Spanned<TypedExpr>) -> (r: Vec<usize>)
    ensures
        (r@, final(b)@) == compile_binary_code(old(b)@, cx@, *e),
    decreases e, 1int, 0int,
{
    match &e.item.kind {
        TypedExprKind::Binary { op, left, right } => {
            if is_str(&left.item.ty) {
                let lv: usize = compile_expr(b, cx, &**left);
                let rv: usize = compile_expr(b, cx, &**right);
                let v: usize = str_binary(b, cx, op, lv, rv);
                single(b, v)
            } else if is_in(op) && right.item.ty.is_range() {
                let lv: usize = compile_expr(b, cx, &**left);
                let bounds = compile_expr_multi(b, cx, &**right);
                let start: usize = at(b, &bounds, 0);
                let end: usize = at(b, &bounds, 1);
                let ge_start: usize = put(b, Op::Compare { test: Test::GreaterEqual, a: lv, b: start });
                let lt_end: usize = put(b, Op::Compare { test: Test::Less, a: lv, b: end });
                let v: usize = put(b, Op::Binary { op: BinOp::Band, a: ge_start, b: lt_end });
                single(b, v)
            } else if is_in(op) && right.item.ty.is_list() {
                let elem = right.item.ty.as_list_elem().unwrap();
                let lv = compile_expr_multi(b, cx, &**left);
                let ls = leaf_list(b, cx, elem);
                let tys = leaf_types(&ls);
                declare_gc_leaves(b, &lv, &tys);
                let rv: usize = transient_one(b, cx, &**right);
                let fresh = Vec::new();
                assert(type_views(fresh@) =~= Seq::<Ty>::empty());
                let v: usize = list_contains(b, cx, elem, &lv, rv, &fresh);
                single(b, v)
            } else if left.item.ty.is_list() && is_equality(op) {
                let elem = left.item.ty.as_list_elem().unwrap();
                let lv: usize = transient_one(b, cx, &**left);
                let rv: usize = transient_one(b, cx, &**right);
                let fresh = Vec::new();
                assert(type_views(fresh@) =~= Seq::<Ty>::empty());
                let eq: usize = eq_list(b, cx, elem, lv, rv, &fresh);
                let v: usize = negate_if_ne(b, op, eq);
                single(b, v)
            } else if is_union(&left.item.ty) && is_equality(op) {
                compile_union_eq(b, cx, e)
            } else if is_logical(op) {
                compile_logical(b, cx, e)
            } else {
                let l0: usize = compile_expr(b, cx, &**left);
                let r0: usize = compile_expr(b, cx, &**right);
                let join = joined_type(&left.item.ty, &right.item.ty);
                let lv: usize = coerce_value(b, l0, &left.item.ty, &join);
                let rv: usize = coerce_value(b, r0, &right.item.ty, &join);
                let v: usize = num_binary(b, cx, op, lv, rv, is_float(&join));
                single(b, v)
            }
        },
        _ => {
            zero_word(b)
        },
    }
}

/// Equality of unions.
pub open spec fn compile_union_eq_code(c: Code, cx: Env, e: Spanned<TypedExpr>) -> (Seq<usize>, Code)
    decreases e, 0int, 0int,
 {
    match e.item.kind {
        TypedExprKind::Binary { op, left, right } => {
            let (lv, c) = compile_expr_multi_code(c, cx, *left);
            let (rv, c) = compile_expr_multi_code(c, cx, *right);
            match left.item.ty@ {
                Ty::Union(members) => {
                    let fresh = Seq::<Ty>::empty();
                    let (eq, c) = eq_union_code(c, cx, members, lv, rv, fresh);
                    let (v, c) = negate_if_ne_code(c, op, eq);
                    single_code(c, v)
                },
                _ => {
                    zero_word_code(c)
                },
            }
        },
        _ => {
            zero_word_code(c)
        },
    }
}

#[verifier::rlimit(60)]
#[verifier::spinoff_prover]
pub(crate) fn compile_union_eq(b: &mut Builder, cx: &Ctx, e: &Spanned<TypedExpr>) -> (r: Vec<usize>)
    ensures
        (r@, final(b)@) == compile_union_eq_code(old(b)@, cx@, *e),
    decreases e, 0int, 0int,
{
    match &e.item.kind {
        TypedExprKind::Binary { op, left, right } => {
            let lv = compile_expr_multi(b, cx, &**left);
            let rv = compile_expr_multi(b, cx, &**right);
            match &left.item.ty {
                Type::Union(members) => {
                    let fresh = Vec::new();
                    assert(type_views(fresh@) =~= Seq::<Ty>::empty());
                    let eq: usize = eq_union(b, cx, members, &lv, &rv, &fresh);
                    let v: usize = negate_if_ne(b, op, eq);
                    single(b, v)
                },
                _ => {
                    zero_word(b)
                },
            }
        },
        _ => {
            zero_word(b)
        },
    }
}

/// `and` and `or`: the right operand is evaluated only where the left one does not decide.
pub open spec fn compile_logical_code(c: Code, cx: Env, e: Spanned<TypedExpr>) -> (Seq<usize>, Code)
    decreases e, 0int, 0int,
 {
    match e.item.kind {
        TypedExprKind::Binary { op, left, right } => {
            let (lv, c) = compile_expr_code(c, cx, *left);
            let (rhs_bb, c) = put_code(c, Op::Block);
            let (merge_bb, c) = put_code(c, Op::Block);
            let (out, c) = put_code(c, Op::BlockParam { block: merge_bb, ty: ClType::I8 });
            let c = if op is And {
                let (zero, c) = iconst_code(c, ClType::I8, 0);
                let c = emit_code(c, Op::ElseArg { val: zero });
                let c = emit_code(c, Op::Brif { cond: lv, yes: rhs_bb, no: merge_bb });
                c
            } else {
                let (flag, c) = iconst_code(c, ClType::I8, 1);
                let c = emit_code(c, Op::Arg { val: flag });
                let c = emit_code(c, Op::Brif { cond: lv, yes: merge_bb, no: rhs_bb });
                c
            };
            let c = emit_code(c, Op::Switch { block: rhs_bb });
            let c = emit_code(c, Op::Seal { block: rhs_bb });
            let (rv, c) = compile_expr_code(c, cx, *right);
            let c = emit_code(c, Op::Arg { val: rv });
            let c = emit_code(c, Op::Jump { block: merge_bb });
            let c = emit_code(c, Op::Switch { block: merge_bb });
            let c = emit_code(c, Op::Seal { block: merge_bb });
            single_code(c, out)
        },
        _ => {
            zero_word_code(c)
        },
    }
}

pub(crate) fn compile_logical(b: &mut Builder, cx: &Ctx, e: &Spanned<TypedExpr>) -> (r: Vec<usize>)
    ensures
        (r@, final(b)@) == compile_logical_code(old(b)@, cx@, *e),
    decreases e, 0int, 0int,
{
    match &e.item.kind {
        TypedExprKind::Binary { op, left, right } => {
            let lv: usize = compile_expr(b, cx, &**left);
            let rhs_bb: usize = put(b, Op::Block);
            let merge_bb: usize = put(b, Op::Block);
            let out: usize = put(b, Op::BlockParam { block: merge_bb, ty: ClType::I8 });
            if is_and(op) {
                let zero: usize = iconst(b, ClType::I8, 0);
                emit(b, Op::ElseArg { val: zero });
                emit(b, Op::Brif { cond: lv, yes: rhs_bb, no: merge_bb });
            } else {
                let flag: usize = iconst(b, ClType::I8, 1);
                emit(b, Op::Arg { val: flag });
                emit(b, Op::Brif { cond: lv, yes: merge_bb, no: rhs_bb });
            }
            emit(b, Op::Switch { block: rhs_bb });
            emit(b, Op::Seal { block: rhs_bb });
            let rv: usize = compile_expr(b, cx, &**right);
            emit(b, Op::Arg { val: rv });
            emit(b, Op::Jump { block: merge_bb });
            emit(b, Op::Switch { block: merge_bb });
            emit(b, Op::Seal { block: merge_bb });
            single(b, out)
        },
        _ => {
            zero_word(b)
        },
    }
}

/// A block for what can never run.
pub open spec fn dead_block_code(c: Code) -> Code {
    let (dead, c) = put_code(c, Op::Block);
    let c = emit_code(c, Op::Switch { block: dead });
    let c = emit_code(c, Op::Seal { block: dead });
    c
}

pub(crate) fn dead_block(b: &mut Builder)
    ensures
        final(b)@ == dead_block_code(old(b)@),
{
    let dead: usize = put(b, Op::Block);
    emit(b, Op::Switch { block: dead });
    emit(b, Op::Seal { block: dead });
}

/// Stops where a branch that cannot be left by falling through would be.
pub open spec fn trap_unless_never_code(c: Code, ty: Ty) -> Code {
    match ty {
        Ty::Never => {
            c
        },
        _ => {
            let c = emit_code(c, Op::Trap { code: 2 });
            c
        },
    }
}

pub(crate) fn trap_unless_never(b: &mut Builder, ty: &Type)
    ensures
        final(b)@ == trap_unless_never_code(old(b)@, ty@),
{
    match ty {
        Type::Never => {
            {}
        },
        _ => {
            emit(b, Op::Trap { code: 2 });
        },
    }
}

pub open spec fn block_params_upto(c: Code, block: usize, ls: Seq<FieldView>, n: nat) -> (Seq<usize>, Code)
    decreases n,
{
    if n == 0 {
        (Seq::<usize>::empty(), c)
    } else {
        let (out, c) = block_params_upto(c, block, ls, (n - 1) as nat);
        let i = (n - 1) as usize;
        let (p, c) = put_code(c, Op::BlockParam { block, ty: machine(ls[i as int].1) });
        let out = out.push(p);
        (out, c)
    }
}

/// One parameter of a block for each leaf.
pub open spec fn block_params_code(c: Code, block: usize, ls: Seq<FieldView>) -> (Seq<usize>, Code) {
    block_params_upto(c, block, ls, ls.len())
}

pub(crate) fn block_params(b: &mut Builder, block: usize, ls: &Vec<(String, Type)>) -> (r: Vec<usize>)
    ensures
        (r@, final(b)@) == block_params_code(old(b)@, block, field_views(ls@)),
{
    let total: usize = ls.len();
    let mut out = Vec::new();
    let mut i: usize = 0;
    while i < total
        invariant
            i <= total,
            total == field_views(ls@).len(),
            (out@, b@) == block_params_upto(old(b)@, block, field_views(ls@), i as nat),
        decreases total - i,
    {
        let p: usize = put(b, Op::BlockParam { block, ty: cl_type(&ls[i].1) });
        out.push(p);
        i = i + 1;
    }
    out
}

pub open spec fn emit_args_upto(c: Code, vals: Seq<usize>, n: nat) -> Code
    decreases n,
{
    if n == 0 {
        c
    } else {
        let c = emit_args_upto(c, vals, (n - 1) as nat);
        let i = (n - 1) as usize;
        let c = emit_code(c, Op::Arg { val: vals[i as int] });
        c
    }
}

/// Arguments.
pub open spec fn emit_args_code(c: Code, vals: Seq<usize>) -> Code {
    emit_args_upto(c, vals, vals.len())
}

pub(crate) fn emit_args(b: &mut Builder, vals: &Vec<usize>)
    ensures
        final(b)@ == emit_args_code(old(b)@, vals@),
{
    let total: usize = vals.len();
    let mut i: usize = 0;
    while i < total
        invariant
            i <= total,
            total == vals@.len(),
            b@ == emit_args_upto(old(b)@, vals@, i as nat),
        decreases total - i,
    {
        emit(b, Op::Arg { val: vals[i] });
        i = i + 1;
    }
}

pub open spec fn placeholders_upto(c: Code, ls: Seq<FieldView>, n: nat) -> (Seq<usize>, Code)
    decreases n,
{
    if n == 0 {
        (Seq::<usize>::empty(), c)
    } else {
        let (out, c) = placeholders_upto(c, ls, (n - 1) as nat);
        let i = (n - 1) as usize;
        let (p, c) = placeholder_value_code(c, machine(ls[i as int].1));
        let out = out.push(p);
        (out, c)
    }
}

/// A zero for each leaf.
pub open spec fn placeholders_code(c: Code, ls: Seq<FieldView>) -> (Seq<usize>, Code) {
    placeholders_upto(c, ls, ls.len())
}

pub(crate) fn placeholders(b: &mut Builder, ls: &Vec<(String, Type)>) -> (r: Vec<usize>)
    ensures
        (r@, final(b)@) == placeholders_code(old(b)@, field_views(ls@)),
{
    let total: usize = ls.len();
    let mut out = Vec::new();
    let mut i: usize = 0;
    while i < total
        invariant
            i <= total,
            total == field_views(ls@).len(),
            (out@, b@) == placeholders_upto(old(b)@, field_views(ls@), i as nat),
        decreases total - i,
    {
        let p: usize = placeholder_value(b, cl_type(&ls[i].1));
        out.push(p);
        i = i + 1;
    }
    out
}

/// The end of a branch whose value is one word, unless it never ends.
pub open spec fn join_scalar_code(
    c: Code,
    vals: Seq<usize>,
    ty: Ty,
    to: ClType,
    has_value: bool,
    merge_bb: usize,
) -> Code {
    if !(ty is Never) {
        let c = if has_value {
            let (v, c) = at_code(c, vals, 0);
            let (wide, c) = ensure_width_code(c, v, ty, to);
            let c = emit_code(c, Op::Arg { val: wide });
            c
        } else {
            c
        };
        let c = emit_code(c, Op::Jump { block: merge_bb });
        c
    } else {
        c
    }
}

pub(crate) fn join_scalar(b: &mut Builder, vals: &Vec<usize>, ty: &Type, to: ClType, has_value: bool, merge_bb: usize)
    ensures
        final(b)@ == join_scalar_code(old(b)@, vals@, ty@, to, has_value, merge_bb),
{
    if !is_never(ty) {
        if has_value {
            let v: usize = at(b, vals, 0);
            let wide: usize = ensure_width(b, v, ty, to);
            emit(b, Op::Arg { val: wide });
        }
        emit(b, Op::Jump { block: merge_bb });
    }
}

/// The end of a branch whose value is several words, unless it never ends.
pub open spec fn join_multi_code(c: Code, vals: Seq<usize>, ty: Ty, merge_bb: usize) -> Code {
    if !(ty is Never) {
        let c = emit_args_code(c, vals);
        let c = emit_code(c, Op::Jump { block: merge_bb });
        c
    } else {
        c
    }
}

pub(crate) fn join_multi(b: &mut Builder, vals: &Vec<usize>, ty: &Type, merge_bb: usize)
    ensures
        final(b)@ == join_multi_code(old(b)@, vals@, ty@, merge_bb),
{
    if !is_never(ty) {
        emit_args(b, vals);
        emit(b, Op::Jump { block: merge_bb });
    }
}

/// A conditional. Where neither branch ends there is nothing to join; else the
/// branches meet in a block with a parameter for each word.
pub open spec fn compile_conditional_code(c: Code, cx: Env, e: Spanned<TypedExpr>) -> (Seq<usize>, Code)
    decreases e, 1int, 0int,
 {
    match e.item.kind {
        TypedExprKind::Conditional { cond, true_branch, false_branch } => {
            let (test, c) = compile_expr_code(c, cx, *cond);
            let (true_bb, c) = put_code(c, Op::Block);
            let (false_bb, c) = put_code(c, Op::Block);
            let (merge_bb, c) = put_code(c, Op::Block);
            if e.item.ty@ is Never {
                let c = emit_code(c, Op::Brif { cond: test, yes: true_bb, no: false_bb });
                let c = emit_code(c, Op::Switch { block: true_bb });
                let c = emit_code(c, Op::Seal { block: true_bb });
                let (_, c) = compile_expr_multi_code(c, cx, *true_branch);
                let c = trap_unless_never_code(c, true_branch.item.ty@);
                let c = emit_code(c, Op::Switch { block: false_bb });
                let c = emit_code(c, Op::Seal { block: false_bb });
                let c = match false_branch {
                    Some(fb) => {
                        let (_, c) = compile_expr_multi_code(c, cx, *fb);
                        let c = trap_unless_never_code(c, fb.item.ty@);
                        c
                    },
                    None => {
                        let c = emit_code(c, Op::Trap { code: 2 });
                        c
                    },
                };
                let c = dead_block_code(c);
                (Seq::<usize>::empty(), c)
            } else if !multi_leaf(e.item.ty@, cx.defs) {
                let to = machine(e.item.ty@);
                let has_value = !(e.item.ty@ is Nil);
                let (out, c) = if has_value {
                    put_code(c, Op::BlockParam { block: merge_bb, ty: to })
                } else {
                    (0usize, c)
                };
                let c = emit_code(c, Op::Brif { cond: test, yes: true_bb, no: false_bb });
                let c = emit_code(c, Op::Switch { block: true_bb });
                let c = emit_code(c, Op::Seal { block: true_bb });
                let (tv, c) = compile_expr_multi_code(c, cx, *true_branch);
                let c = join_scalar_code(c, tv, true_branch.item.ty@, to, has_value, merge_bb);
                let c = emit_code(c, Op::Switch { block: false_bb });
                let c = emit_code(c, Op::Seal { block: false_bb });
                let c = match false_branch {
                    Some(fb) => {
                        let (fv, c) = compile_expr_multi_code(c, cx, *fb);
                        let c = join_scalar_code(c, fv, fb.item.ty@, to, has_value, merge_bb);
                        c
                    },
                    None => {
                        let c = if has_value {
                            let (zero, c) = placeholder_value_code(c, to);
                            let c = emit_code(c, Op::Arg { val: zero });
                            c
                        } else {
                            c
                        };
                        let c = emit_code(c, Op::Jump { block: merge_bb });
                        c
                    },
                };
                let c = emit_code(c, Op::Switch { block: merge_bb });
                let c = emit_code(c, Op::Seal { block: merge_bb });
                if has_value {
                    let c = declare_gc_value_code(c, e.item.ty@, out);
                    single_code(c, out)
                } else {
                    zero_word_code(c)
                }
            } else {
                let (ls, c) = leaves_code(c, cx, e.item.ty@);
                let (merged, c) = block_params_code(c, merge_bb, ls);
                let c = emit_code(c, Op::Brif { cond: test, yes: true_bb, no: false_bb });
                let c = emit_code(c, Op::Switch { block: true_bb });
                let c = emit_code(c, Op::Seal { block: true_bb });
                let (tv, c) = compile_expr_multi_code(c, cx, *true_branch);
                let c = join_multi_code(c, tv, true_branch.item.ty@, merge_bb);
                let c = emit_code(c, Op::Switch { block: false_bb });
                let c = emit_code(c, Op::Seal { block: false_bb });
                let c = match false_branch {
                    Some(fb) => {
                        let (fv, c) = compile_expr_multi_code(c, cx, *fb);
                        let c = join_multi_code(c, fv, fb.item.ty@, merge_bb);
                        c
                    },
                    None => {
                        let (fv, c) = placeholders_code(c, ls);
                        let c = emit_args_code(c, fv);
                        let c = emit_code(c, Op::Jump { block: merge_bb });
                        c
                    },
                };
                let c = emit_code(c, Op::Switch { block: merge_bb });
                let c = emit_code(c, Op::Seal { block: merge_bb });
                let tys = field_tys(ls);
                let c = declare_gc_leaves_code(c, merged, tys);
                (merged, c)
            }
        },
        _ => {
            zero_word_code(c)
        },
    }
}

pub(crate) fn compile_conditional(b: &mut Builder, cx: &Ctx, e: &Spanned<TypedExpr>) -> (r: Vec<usize>)
    ensures
        (r@, final(b)@) == compile_conditional_code(old(b)@, cx@, *e),
    decreases e, 1int, 0int,
{
    match &e.item.kind {
        TypedExprKind::Conditional { cond, true_branch, false_branch } => {
            let test: usize = compile_expr(b, cx, &**cond);
            let true_bb: usize = put(b, Op::Block);
            let false_bb: usize = put(b, Op::Block);
            let merge_bb: usize = put(b, Op::Block);
            if is_never(&e.item.ty) {
                emit(b, Op::Brif { cond: test, yes: true_bb, no: false_bb });
                emit(b, Op::Switch { block: true_bb });
                emit(b, Op::Seal { block: true_bb });
                let _ = compile_expr_multi(b, cx, &**true_branch);
                trap_unless_never(b, &true_branch.item.ty);
                emit(b, Op::Switch { block: false_bb });
                emit(b, Op::Seal { block: false_bb });
                match false_branch {
                    Some(fb) => {
                        let _ = compile_expr_multi(b, cx, &**fb);
                        trap_unless_never(b, &fb.item.ty);
                    },
                    None => {
                        emit(b, Op::Trap { code: 2 });
                    },
                }
                dead_block(b);
                Vec::new()
            } else if !is_multi_leaf_type(&e.item.ty, cx) {
                let to = cl_type(&e.item.ty);
                let has_value = !is_nil(&e.item.ty);
                let out = if has_value {
                    put(b, Op::BlockParam { block: merge_bb, ty: to })
                } else {
                    0usize
                };
                emit(b, Op::Brif { cond: test, yes: true_bb, no: false_bb });
                emit(b, Op::Switch { block: true_bb });
                emit(b, Op::Seal { block: true_bb });
                let tv = compile_expr_multi(b, cx, &**true_branch);
                join_scalar(b, &tv, &true_branch.item.ty, to, has_value, merge_bb);
                emit(b, Op::Switch { block: false_bb });
                emit(b, Op::Seal { block: false_bb });
                match false_branch {
                    Some(fb) => {
                        let fv = compile_expr_multi(b, cx, &**fb);
                        join_scalar(b, &fv, &fb.item.ty, to, has_value, merge_bb);
                    },
                    None => {
                        if has_value {
                            let zero: usize = placeholder_value(b, to);
                            emit(b, Op::Arg { val: zero });
                        }
                        emit(b, Op::Jump { block: merge_bb });
                    },
                }
                emit(b, Op::Switch { block: merge_bb });
                emit(b, Op::Seal { block: merge_bb });
                if has_value {
                    declare_gc_value(b, &e.item.ty, out);
                    single(b, out)
                } else {
                    zero_word(b)
                }
            } else {
                let ls = leaf_list(b, cx, &e.item.ty);
                let merged = block_params(b, merge_bb, &ls);
                emit(b, Op::Brif { cond: test, yes: true_bb, no: false_bb });
                emit(b, Op::Switch { block: true_bb });
                emit(b, Op::Seal { block: true_bb });
                let tv = compile_expr_multi(b, cx, &**true_branch);
                join_multi(b, &tv, &true_branch.item.ty, merge_bb);
                emit(b, Op::Switch { block: false_bb });
                emit(b, Op::Seal { block: false_bb });
                match false_branch {
                    Some(fb) => {
                        let fv = compile_expr_multi(b, cx, &**fb);
                        join_multi(b, &fv, &fb.item.ty, merge_bb);
                    },
                    None => {
                        let fv = placeholders(b, &ls);
                        emit_args(b, &fv);
                        emit(b, Op::Jump { block: merge_bb });
                    },
                }
                emit(b, Op::Switch { block: merge_bb });
                emit(b, Op::Seal { block: merge_bb });
                let tys = leaf_types(&ls);
                declare_gc_leaves(b, &merged, &tys);
                merged
            }
        },
        _ => {
            zero_word(b)
        },
    }
}

pub open spec fn lower_stmts_upto(
    c: Code,
    cx: Env,
    es: Seq<Spanned<TypedExpr>>,
    init: Seq<usize>,
    n: nat,
) -> (Seq<usize>, Code)
    decreases es, 0int, n,
{
    if n == 0 || n > es.len() {
        (init, c)
    } else {
        let (last, c) = lower_stmts_upto(c, cx, es, init, (n - 1) as nat);
        let i = (n - 1) as usize;
        let (last, c) = compile_expr_multi_code(c, cx, es[n - 1]);
        (last, c)
    }
}

/// Statements one after the other; the last one's value counts.
pub open spec fn lower_stmts_code(
    c: Code,
    cx: Env,
    es: Seq<Spanned<TypedExpr>>,
    init: Seq<usize>,
) -> (Seq<usize>, Code)
    decreases es, 1int, 0int,
 {
    lower_stmts_upto(c, cx, es, init, es.len())
}

pub(crate) fn lower_stmts(
    b: &mut Builder,
    cx: &Ctx,
    es: &Vec<Spanned<TypedExpr>>,
    init: &Vec<usize>,
) -> (r: Vec<usize>)
    ensures
        (r@, final(b)@) == lower_stmts_code(old(b)@, cx@, es@, init@),
    decreases es, 1int, 0int,
{
    let total: usize = es.len();
    let mut last = copy_vals(init);
    let mut i: usize = 0;
    while i < total
        invariant
            i <= total,
            total == es@.len(),
            (last@, b@) == lower_stmts_upto(old(b)@, cx@, es@, init@, i as nat),
        decreases total - i,
    {
        last = compile_expr_multi(b, cx, &es[i]);
        i = i + 1;
    }
    last
}

pub open spec fn push_elems_upto(
    c: Code,
    cx: Env,
    es: Seq<Spanned<TypedExpr>>,
    list: usize,
    ls: Seq<FieldView>,
    n: nat,
) -> Code
    decreases es, 0int, n,
{
    if n == 0 || n > es.len() {
        c
    } else {
        let c = push_elems_upto(c, cx, es, list, ls, (n - 1) as nat);
        let i = (n - 1) as usize;
        let (vals, c) = compile_expr_multi_code(c, cx, es[n - 1]);
        let c = push_element_code(c, cx, list, vals, ls);
        c
    }
}

/// Appends each element.
pub open spec fn push_elems_code(
    c: Code,
    cx: Env,
    es: Seq<Spanned<TypedExpr>>,
    list: usize,
    ls: Seq<FieldView>,
) -> Code
    decreases es, 1int, 0int,
 {
    push_elems_upto(c, cx, es, list, ls, es.len())
}

pub(crate) fn push_elems(
    b: &mut Builder,
    cx: &Ctx,
    es: &Vec<Spanned<TypedExpr>>,
    list: usize,
    ls: &Vec<(String, Type)>,
)
    ensures
        final(b)@ == push_elems_code(old(b)@, cx@, es@, list, field_views(ls@)),
    decreases es, 1int, 0int,
{
    let total: usize = es.len();
    let mut i: usize = 0;
    while i < total
        invariant
            i <= total,
            total == es@.len(),
            b@ == push_elems_upto(old(b)@, cx@, es@, list, field_views(ls@), i as nat),
        decreases total - i,
    {
        let vals = compile_expr_multi(b, cx, &es[i]);
        push_element(b, cx, list, &vals, ls);
        i = i + 1;
    }
}

/// A new list, which is a root before anything is appended.
pub open spec fn alloc_list_code(c: Code, cx: Env, cap: usize, stride: i64, bits: i64) -> (usize, Code) {
    let (stride_val, c) = iconst_code(c, ClType::I64, stride);
    let (mask_val, c) = iconst_code(c, ClType::I64, bits);
    let c = emit_code(c, Op::Arg { val: cap });
    let c = emit_code(c, Op::Arg { val: stride_val });
    let c = emit_code(c, Op::Arg { val: mask_val });
    let c = invoke_code(c, cx, "frog_alloc_list"@);
    let (list, c) = put_code(c, Op::Result { index: 0 });
    let c = emit_code(c, Op::GcValue { val: list });
    (list, c)
}

pub(crate) fn alloc_list(b: &mut Builder, cx: &Ctx, cap: usize, stride: i64, bits: i64) -> (r: usize)
    ensures
        (r, final(b)@) == alloc_list_code(old(b)@, cx@, cap, stride, bits),
{
    let stride_val: usize = iconst(b, ClType::I64, stride);
    let mask_val: usize = iconst(b, ClType::I64, bits);
    emit(b, Op::Arg { val: cap });
    emit(b, Op::Arg { val: stride_val });
    emit(b, Op::Arg { val: mask_val });
    invoke(b, cx, "frog_alloc_list");
    let list: usize = put(b, Op::Result { index: 0 });
    emit(b, Op::GcValue { val: list });
    list
}

/// A list literal.
pub open spec fn compile_list_lit_code(
    c: Code,
    cx: Env,
    list_ty: Ty,
    es: Seq<Spanned<TypedExpr>>,
) -> (Seq<usize>, Code)
    decreases es, 2int, 0int,
 {
    let elem = elem_or_int(list_ty);
    let (ls, c) = leaves_code(c, cx, elem);
    let tys = field_tys(ls);
    let (bits, c) = scan_mask_code(c, tys);
    let (cap, c) = iconst_code(c, ClType::I64, least_one(es.len()));
    let (list, c) = alloc_list_code(c, cx, cap, least_one(ls.len()), bits);
    let c = push_elems_code(c, cx, es, list, ls);
    single_code(c, list)
}

pub(crate) fn compile_list_lit(
    b: &mut Builder,
    cx: &Ctx,
    list_ty: &Type,
    es: &Vec<Spanned<TypedExpr>>,
) -> (r: Vec<usize>)
    ensures
        (r@, final(b)@) == compile_list_lit_code(old(b)@, cx@, list_ty@, es@),
    decreases es, 2int, 0int,
{
    let elem = list_elem_or_int(list_ty);
    let ls = leaf_list(b, cx, &elem);
    let tys = leaf_types(&ls);
    let bits = scan_mask(b, &tys);
    let cap: usize = iconst(b, ClType::I64, at_least_one(es.len()));
    let list: usize = alloc_list(b, cx, cap, at_least_one(ls.len()), bits);
    push_elems(b, cx, es, list, &ls);
    single(b, list)
}

pub open spec fn lower_fields_upto(
    c: Code,
    cx: Env,
    fs: Seq<(String, TypedExprRef)>,
    n: nat,
) -> ((Seq<usize>, Seq<Ty>), Code)
    decreases fs, 0int, n,
{
    if n == 0 || n > fs.len() {
        ((Seq::<usize>::empty(), Seq::<Ty>::empty()), c)
    } else {
        let (out, c) = lower_fields_upto(c, cx, fs, (n - 1) as nat);
        let i = (n - 1) as usize;
        let (vals, c) = compile_expr_multi_code(c, cx, *fs[n - 1].1);
        let (ls, c) = leaves_code(c, cx, fs[n - 1].1.item.ty@);
        let tys = field_tys(ls);
        let out = (out.0 + vals, out.1);
        let out = (out.0, out.1 + tys);
        (out, c)
    }
}

/// The fields of a variant, flattened in order.
pub open spec fn lower_fields_code(c: Code, cx: Env, fs: Seq<(String, TypedExprRef)>) -> ((Seq<usize>, Seq<Ty>), Code)
    decreases fs, 1int, 0int,
 {
    lower_fields_upto(c, cx, fs, fs.len())
}

pub(crate) fn lower_fields(
    b: &mut Builder,
    cx: &Ctx,
    fs: &Vec<(String, TypedExprRef)>,
) -> (r: (Vec<usize>, Vec<Type>))
    ensures
        ((r.0@, type_views(r.1@)), final(b)@) == lower_fields_code(old(b)@, cx@, fs@),
    decreases fs, 1int, 0int,
{
    let total: usize = fs.len();
    let mut out = (Vec::new(), Vec::new());
    let mut i: usize = 0;
    while i < total
        invariant
            i <= total,
            total == fs@.len(),
            ((out.0@, type_views(out.1@)), b@) == lower_fields_upto(old(b)@, cx@, fs@, i as nat),
        decreases total - i,
    {
        let vals = compile_expr_multi(b, cx, &*fs[i].1);
        let ls = leaf_list(b, cx, &fs[i].1.item.ty);
        let tys = leaf_types(&ls);
        extend(&mut out.0, &vals);
        extend_types(&mut out.1, &tys);
        i = i + 1;
    }
    out
}

pub open spec fn lower_struct_upto(c: Code, cx: Env, fs: Seq<(String, TypedExprRef)>, n: nat) -> (Seq<usize>, Code)
    decreases fs, 0int, n,
{
    if n == 0 || n > fs.len() {
        (Seq::<usize>::empty(), c)
    } else {
        let (out, c) = lower_struct_upto(c, cx, fs, (n - 1) as nat);
        let i = (n - 1) as usize;
        let (vals, c) = compile_expr_multi_code(c, cx, *fs[n - 1].1);
        let out = out + vals;
        (out, c)
    }
}

/// The fields of a struct, flattened in order.
pub open spec fn lower_struct_code(c: Code, cx: Env, fs: Seq<(String, TypedExprRef)>) -> (Seq<usize>, Code)
    decreases fs, 1int, 0int,
 {
    lower_struct_upto(c, cx, fs, fs.len())
}

pub(crate) fn lower_struct(b: &mut Builder, cx: &Ctx, fs: &Vec<(String, TypedExprRef)>) -> (r: Vec<usize>)
    ensures
        (r@, final(b)@) == lower_struct_code(old(b)@, cx@, fs@),
    decreases fs, 1int, 0int,
{
    let total: usize = fs.len();
    let mut out = Vec::new();
    let mut i: usize = 0;
    while i < total
        invariant
            i <= total,
            total == fs@.len(),
            (out@, b@) == lower_struct_upto(old(b)@, cx@, fs@, i as nat),
        decreases total - i,
    {
        let vals = compile_expr_multi(b, cx, &*fs[i].1);
        extend(&mut out, &vals);
        i = i + 1;
    }
    out
}

/// A variant: in columns where its union is inline, an immediate where it has no fields, else a box.
pub open spec fn compile_variant_init_code(c: Code, cx: Env, e: Spanned<TypedExpr>) -> (Seq<usize>, Code)
    decreases e, 1int, 0int,
 {
    match e.item.kind {
        TypedExprKind::VariantInit { enum_name, variant, tag, fields } => {
            let (flat, c) = lower_fields_code(c, cx, fields@);
            if inline_union(e.item.ty@, cx.defs) {
                match e.item.ty@ {
                    Ty::Union(members) => {
                        let member = variant_struct(enum_name@, variant@);
                        match index_of_type(members, member) {
                            Some(k) => {
                                pack_union_member_code(c, cx, members, member, tag_at(k), flat.0)
                            },
                            None => {
                                let c = fail_code(c, Fault::UnknownVariant);
                                zero_word_code(c)
                            },
                        }
                    },
                    _ => {
                        zero_word_code(c)
                    },
                }
            } else if fields@.len() == 0 {
                let (v, c) = iconst_code(c, ClType::I64, immediate(tag));
                single_code(c, v)
            } else {
                let (v, c) = box_into_variant_code(c, cx, tag, flat.0, flat.1);
                single_code(c, v)
            }
        },
        _ => {
            zero_word_code(c)
        },
    }
}

pub(crate) fn compile_variant_init(b: &mut Builder, cx: &Ctx, e: &Spanned<TypedExpr>) -> (r: Vec<usize>)
    ensures
        (r@, final(b)@) == compile_variant_init_code(old(b)@, cx@, *e),
    decreases e, 1int, 0int,
{
    match &e.item.kind {
        TypedExprKind::VariantInit { enum_name, variant, tag, fields } => {
            let flat = lower_fields(b, cx, fields);
            if is_inline_union(&e.item.ty, cx) {
                match &e.item.ty {
                    Type::Union(members) => {
                        let member = variant_struct_type(enum_name.as_str(), variant.as_str());
                        match find_type(members, &member) {
                            Some(k) => {
                                pack_union_member(b, cx, members, &member, tag_of(k), &flat.0)
                            },
                            None => {
                                fail(b, Fault::UnknownVariant);
                                zero_word(b)
                            },
                        }
                    },
                    _ => {
                        zero_word(b)
                    },
                }
            } else if fields.len() == 0 {
                let v: usize = iconst(b, ClType::I64, immediate_variant(*tag));
                single(b, v)
            } else {
                let v: usize = box_into_variant(b, cx, *tag, &flat.0, &flat.1);
                single(b, v)
            }
        },
        _ => {
            zero_word(b)
        },
    }
}

/// Leaves the function with this value and the present value of each `mut` parameter.
pub open spec fn compile_return_code(c: Code, cx: Env, value: Option<TypedExprRef>) -> (Seq<usize>, Code)
    decreases value, 2int, 0int,
 {
    let (vals, c) = if_some_code(c, cx, value);
    let (more, c) = mut_param_copyout_code(c, cx);
    let c = emit_args_code(c, vals);
    let c = emit_args_code(c, more);
    let c = emit_code(c, Op::Return);
    let c = dead_block_code(c);
    (Seq::<usize>::empty(), c)
}

pub(crate) fn compile_return(b: &mut Builder, cx: &Ctx, value: &Option<TypedExprRef>) -> (r: Vec<usize>)
    ensures
        (r@, final(b)@) == compile_return_code(old(b)@, cx@, *value),
    decreases value, 2int, 0int,
{
    let vals = if_some(b, cx, value);
    let more = mut_param_copyout(b, cx);
    emit_args(b, &vals);
    emit_args(b, &more);
    emit(b, Op::Return);
    dead_block(b);
    Vec::new()
}

/// The code of an expression that may be absent.
pub open spec fn if_some_code(c: Code, cx: Env, value: Option<TypedExprRef>) -> (Seq<usize>, Code)
    decreases value, 1int, 0int,
 {
    match value {
        Some(v) => {
            compile_expr_multi_code(c, cx, *v)
        },
        None => {
            (Seq::<usize>::empty(), c)
        },
    }
}

pub(crate) fn if_some(b: &mut Builder, cx: &Ctx, value: &Option<TypedExprRef>) -> (r: Vec<usize>)
    ensures
        (r@, final(b)@) == if_some_code(old(b)@, cx@, *value),
    decreases value, 1int, 0int,
{
    match value {
        Some(v) => {
            compile_expr_multi(b, cx, &**v)
        },
        None => {
            Vec::new()
        },
    }
}

/// A value made into a union.
pub open spec fn compile_widen_code(
    c: Code,
    cx: Env,
    union_ty: Ty,
    value: Spanned<TypedExpr>,
    tag: u32,
) -> (Seq<usize>, Code)
    decreases value, 8int, 0int,
 {
    match union_ty {
        Ty::Union(members) => {
            let (vals, c) = compile_expr_multi_code(c, cx, value);
            if unboxed(members, cx.defs) {
                let none = Seq::<usize>::empty();
                if payload_less(value.item.ty@) {
                    pack_union_member_code(c, cx, members, value.item.ty@, tag.wrapping_add(1), none)
                } else {
                    pack_union_member_code(c, cx, members, value.item.ty@, tag.wrapping_add(1), vals)
                }
            } else if value.item.ty@ is Nil {
                let (v, c) = iconst_code(c, ClType::I64, immediate(tag));
                single_code(c, v)
            } else {
                let (ls, c) = leaves_code(c, cx, value.item.ty@);
                let tys = field_tys(ls);
                let (v, c) = box_into_variant_code(c, cx, tag, vals, tys);
                single_code(c, v)
            }
        },
        _ => {
            let c = fail_code(c, Fault::IllTyped);
            zero_word_code(c)
        },
    }
}

pub(crate) fn compile_widen(
    b: &mut Builder,
    cx: &Ctx,
    union_ty: &Type,
    value: &Spanned<TypedExpr>,
    tag: u32,
) -> (r: Vec<usize>)
    ensures
        (r@, final(b)@) == compile_widen_code(old(b)@, cx@, union_ty@, *value, tag),
    decreases value, 8int, 0int,
{
    match union_ty {
        Type::Union(members) => {
            let vals = compile_expr_multi(b, cx, value);
            if union_is_inline(members, cx.structs) {
                let none = Vec::new();
                if is_payload_less(&value.item.ty) {
                    pack_union_member(b, cx, members, &value.item.ty, tag.wrapping_add(1), &none)
                } else {
                    pack_union_member(b, cx, members, &value.item.ty, tag.wrapping_add(1), &vals)
                }
            } else if is_nil(&value.item.ty) {
                let v: usize = iconst(b, ClType::I64, immediate_variant(tag));
                single(b, v)
            } else {
                let ls = leaf_list(b, cx, &value.item.ty);
                let tys = leaf_types(&ls);
                let v: usize = box_into_variant(b, cx, tag, &vals, &tys);
                single(b, v)
            }
        },
        _ => {
            fail(b, Fault::IllTyped);
            zero_word(b)
        },
    }
}

/// The member that a union is known to hold.
pub open spec fn compile_narrow_code(c: Code, cx: Env, target: Ty, value: Spanned<TypedExpr>) -> (Seq<usize>, Code)
    decreases value, 8int, 0int,
 {
    match value.item.ty@ {
        Ty::Union(members) => {
            let (slots, c) = transient_code(c, cx, value);
            if unboxed(members, cx.defs) {
                if payload_less(target) {
                    zero_word_code(c)
                } else {
                    unpack_union_member_code(c, cx, members, target, slots)
                }
            } else {
                let (ptr, c) = one_code(c, slots);
                if target is Nil {
                    zero_word_code(c)
                } else {
                    let (ls, c) = leaves_code(c, cx, target);
                    let tys = field_tys(ls);
                    read_variant_slots_code(c, ptr, 0, tys)
                }
            }
        },
        _ => {
            let c = fail_code(c, Fault::IllTyped);
            zero_word_code(c)
        },
    }
}

pub(crate) fn compile_narrow(b: &mut Builder, cx: &Ctx, target: &Type, value: &Spanned<TypedExpr>) -> (r: Vec<usize>)
    ensures
        (r@, final(b)@) == compile_narrow_code(old(b)@, cx@, target@, *value),
    decreases value, 8int, 0int,
{
    match &value.item.ty {
        Type::Union(members) => {
            let slots = transient(b, cx, value);
            if union_is_inline(members, cx.structs) {
                if is_payload_less(target) {
                    zero_word(b)
                } else {
                    unpack_union_member(b, cx, members, target, &slots)
                }
            } else {
                let ptr: usize = one(b, &slots);
                if is_nil(target) {
                    zero_word(b)
                } else {
                    let ls = leaf_list(b, cx, target);
                    let tys = leaf_types(&ls);
                    read_variant_slots(b, ptr, 0, &tys)
                }
            }
        },
        _ => {
            fail(b, Fault::IllTyped);
            zero_word(b)
        },
    }
}

/// Whether a value counts as true: not zero, not empty, not `none`.
pub open spec fn compile_truthy_code(c: Code, cx: Env, value: Spanned<TypedExpr>) -> (Seq<usize>, Code)
    decreases value, 8int, 0int,
 {
    let (v, c) = compile_expr_code(c, cx, value);
    if value.item.ty@.is_list() {
        let (len, c) = call_one_code(c, cx, "frog_list_len"@, v);
        let (zero, c) = iconst_code(c, ClType::I64, 0);
        let (t, c) = put_code(c, Op::Compare { test: Test::NotEqual, a: len, b: zero });
        single_code(c, t)
    } else {
        match value.item.ty@ {
            Ty::Int => {
                let (zero, c) = iconst_code(c, ClType::I64, 0);
                let (t, c) = put_code(c, Op::Compare { test: Test::NotEqual, a: v, b: zero });
                single_code(c, t)
            },
            Ty::Float => {
                let (zero, c) = put_code(c, Op::F64const { bits: 0 });
                let (t, c) = put_code(c, Op::FloatCompare { test: Test::NotEqual, a: v, b: zero });
                single_code(c, t)
            },
            Ty::Nil => {
                let (t, c) = iconst_code(c, ClType::I8, 0);
                single_code(c, t)
            },
            Ty::Str => {
                let (len, c) = call_one_code(c, cx, "frog_str_len"@, v);
                let (zero, c) = iconst_code(c, ClType::I64, 0);
                let (t, c) = put_code(c, Op::Compare { test: Test::NotEqual, a: len, b: zero });
                single_code(c, t)
            },
            _ => {
                let c = fail_code(c, Fault::IllTyped);
                single_code(c, v)
            },
        }
    }
}

pub(crate) fn compile_truthy(b: &mut Builder, cx: &Ctx, value: &Spanned<TypedExpr>) -> (r: Vec<usize>)
    ensures
        (r@, final(b)@) == compile_truthy_code(old(b)@, cx@, *value),
    decreases value, 8int, 0int,
{
    let v: usize = compile_expr(b, cx, value);
    if value.item.ty.is_list() {
        let len: usize = call_one(b, cx, "frog_list_len", v);
        let zero: usize = iconst(b, ClType::I64, 0);
        let t: usize = put(b, Op::Compare { test: Test::NotEqual, a: len, b: zero });
        single(b, t)
    } else {
        match &value.item.ty {
            Type::Int => {
                let zero: usize = iconst(b, ClType::I64, 0);
                let t: usize = put(b, Op::Compare { test: Test::NotEqual, a: v, b: zero });
                single(b, t)
            },
            Type::Float => {
                let zero: usize = put(b, Op::F64const { bits: 0 });
                let t: usize = put(b, Op::FloatCompare { test: Test::NotEqual, a: v, b: zero });
                single(b, t)
            },
            Type::Nil => {
                let t: usize = iconst(b, ClType::I8, 0);
                single(b, t)
            },
            Type::Str => {
                let len: usize = call_one(b, cx, "frog_str_len", v);
                let zero: usize = iconst(b, ClType::I64, 0);
                let t: usize = put(b, Op::Compare { test: Test::NotEqual, a: len, b: zero });
                single(b, t)
            },
            _ => {
                fail(b, Fault::IllTyped);
                single(b, v)
            },
        }
    }
}

pub open spec fn find_field_upto(
    c: Code,
    cx: Env,
    fields: Seq<FieldView>,
    field: Seq<char>,
    start: usize,
    n: nat,
) -> ((Option<usize>, usize), Code)
    decreases n,
{
    if n == 0 {
        ((None::<usize>, start), c)
    } else {
        let (acc, c) = find_field_upto(c, cx, fields, field, start, (n - 1) as nat);
        let i = (n - 1) as usize;
        let (acc, c) = match acc.0 {
            Some(k) => {
                ((Some(k), acc.1), c)
            },
            None => {
                if fields[i as int].0 == field {
                    ((Some(i), acc.1), c)
                } else {
                    let (ls, c) = leaves_code(c, cx, fields[i as int].1);
                    ((None::<usize>, beyond(acc.1, ls.len() as usize)), c)
                }
            },
        };
        (acc, c)
    }
}

/// The position of a field, and how many words stand before it.
pub open spec fn find_field_code(
    c: Code,
    cx: Env,
    fields: Seq<FieldView>,
    field: Seq<char>,
    start: usize,
) -> ((Option<usize>, usize), Code) {
    find_field_upto(c, cx, fields, field, start, fields.len())
}

pub(crate) fn find_field(
    b: &mut Builder,
    cx: &Ctx,
    fields: &Vec<(String, Type)>,
    field: &str,
    start: usize,
) -> (r: (Option<usize>, usize))
    ensures
        (r, final(b)@) == find_field_code(old(b)@, cx@, field_views(fields@), field@, start),
{
    let total: usize = fields.len();
    let mut acc = (None, start);
    let mut i: usize = 0;
    while i < total
        invariant
            i <= total,
            total == field_views(fields@).len(),
            (acc, b@) == find_field_upto(old(b)@, cx@, field_views(fields@), field@, start, i as nat),
        decreases total - i,
    {
        acc = match acc.0 {
            Some(k) => {
                (Some(k), acc.1)
            },
            None => {
                if same_text(fields[i].0.as_str(), field) {
                    (Some(i), acc.1)
                } else {
                    let ls = leaf_list(b, cx, &fields[i].1);
                    (None, past(acc.1, ls.len()))
                }
            },
        };
        i = i + 1;
    }
    acc
}

/// Which words of a struct a field takes: where it starts and how many.
pub open spec fn field_slice_range_code(c: Code, cx: Env, struct_ty: Ty, field: Seq<char>) -> ((usize, usize), Code) {
    match find_struct(cx.defs, struct_ty) {
        Some(fields) => {
            let (found, c) = find_field_code(c, cx, fields, field, 0);
            match found.0 {
                Some(k) => {
                    let (ls, c) = field_leaves_code(c, cx, fields, k);
                    ((found.1, ls.len() as usize), c)
                },
                None => {
                    let c = fail_code(c, Fault::UnknownField);
                    ((0, 0), c)
                },
            }
        },
        None => {
            let c = fail_code(c, Fault::UnknownField);
            ((0, 0), c)
        },
    }
}

pub(crate) fn field_slice_range(b: &mut Builder, cx: &Ctx, struct_ty: &Type, field: &str) -> (r: (usize, usize))
    ensures
        (r, final(b)@) == field_slice_range_code(old(b)@, cx@, struct_ty@, field@),
{
    match cx.structs.get(struct_ty) {
        Some(fields) => {
            let found = find_field(b, cx, fields, field, 0);
            match found.0 {
                Some(k) => {
                    let ls = field_leaves(b, cx, fields, k);
                    (found.1, ls.len())
                },
                None => {
                    fail(b, Fault::UnknownField);
                    (0, 0)
                },
            }
        },
        None => {
            fail(b, Fault::UnknownField);
            (0, 0)
        },
    }
}

/// The leaves of a field.
pub open spec fn field_leaves_code(c: Code, cx: Env, fields: Seq<FieldView>, k: usize) -> (Seq<FieldView>, Code) {
    if k < fields.len() {
        leaves_code(c, cx, fields[k as int].1)
    } else {
        let c = fail_code(c, Fault::UnknownField);
        (Seq::<FieldView>::empty(), c)
    }
}

pub(crate) fn field_leaves(
    b: &mut Builder,
    cx: &Ctx,
    fields: &Vec<(String, Type)>,
    k: usize,
) -> (r: Vec<(String, Type)>)
    ensures
        (field_views(r@), final(b)@) == field_leaves_code(old(b)@, cx@, field_views(fields@), k),
{
    if k < fields.len() {
        leaf_list(b, cx, &fields[k].1)
    } else {
        fail(b, Fault::UnknownField);
        Vec::new()
    }
}

/// Where a field stands in the payload of a union's variant, and the types of
/// its words: the common fields come first, then the variant's own.
pub open spec fn enum_field_leaf_types_code(
    c: Code,
    cx: Env,
    enum_name: Seq<char>,
    variant: Seq<char>,
    has_variant: bool,
    field: Seq<char>,
) -> ((usize, Seq<Ty>), Code) {
    match find_union(cx.unions, enum_name) {
        Some(def) => {
            let (in_common, c) = find_field_code(c, cx, def.common, field, 0);
            match in_common.0 {
                Some(k) => {
                    let (ls, c) = field_leaves_code(c, cx, def.common, k);
                    ((in_common.1, field_tys(ls)), c)
                },
                None => {
                    match fields_of_variant(def, variant, has_variant) {
                        Some(own) => {
                            let (in_own, c) = find_field_code(c, cx, own, field, in_common.1);
                            match in_own.0 {
                                Some(k) => {
                                    let (ls, c) = field_leaves_code(c, cx, own, k);
                                    ((in_own.1, field_tys(ls)), c)
                                },
                                None => {
                                    let c = fail_code(c, Fault::UnknownField);
                                    ((0, Seq::<Ty>::empty()), c)
                                },
                            }
                        },
                        None => {
                            let c = fail_code(c, Fault::UnknownField);
                            ((0, Seq::<Ty>::empty()), c)
                        },
                    }
                },
            }
        },
        None => {
            let c = fail_code(c, Fault::UnknownUnion);
            ((0, Seq::<Ty>::empty()), c)
        },
    }
}

pub(crate) fn enum_field_leaf_types(
    b: &mut Builder,
    cx: &Ctx,
    enum_name: &str,
    variant: &str,
    has_variant: bool,
    field: &str,
) -> (r: (usize, Vec<Type>))
    ensures
        ((r.0, type_views(r.1@)), final(b)@) == enum_field_leaf_types_code(old(b)@, cx@, enum_name@, variant@, has_variant, field@),
{
    match cx.unions.get(enum_name) {
        Some(def) => {
            let in_common = find_field(b, cx, &def.common, field, 0);
            match in_common.0 {
                Some(k) => {
                    let ls = field_leaves(b, cx, &def.common, k);
                    (in_common.1, leaf_types(&ls))
                },
                None => {
                    match variant_fields(def, variant, has_variant) {
                        Some(own) => {
                            let in_own = find_field(b, cx, own, field, in_common.1);
                            match in_own.0 {
                                Some(k) => {
                                    let ls = field_leaves(b, cx, own, k);
                                    (in_own.1, leaf_types(&ls))
                                },
                                None => {
                                    fail(b, Fault::UnknownField);
                                    (0, Vec::new())
                                },
                            }
                        },
                        None => {
                            fail(b, Fault::UnknownField);
                            (0, Vec::new())
                        },
                    }
                },
            }
        },
        None => {
            fail(b, Fault::UnknownUnion);
            (0, Vec::new())
        },
    }
}

/// The words of a common field, which stand in the same columns whichever member is held.
pub open spec fn first_member_slice_code(
    c: Code,
    cx: Env,
    members: Seq<Ty>,
    slots: Seq<usize>,
    offset: usize,
    n: usize,
) -> (Seq<usize>, Code) {
    if members.len() > 0 {
        let (words, c) = unpack_union_member_code(c, cx, members, members[0], slots);
        slice_code(c, words, offset, n)
    } else {
        let c = fail_code(c, Fault::Arity);
        zero_word_code(c)
    }
}

pub(crate) fn first_member_slice(
    b: &mut Builder,
    cx: &Ctx,
    members: &Vec<Type>,
    slots: &Vec<usize>,
    offset: usize,
    n: usize,
) -> (r: Vec<usize>)
    ensures
        (r@, final(b)@) == first_member_slice_code(old(b)@, cx@, type_views(members@), slots@, offset, n),
{
    proof {
        type_views_index(members@);
    }
    if members.len() > 0 {
        let words = unpack_union_member(b, cx, members, &members[0], slots);
        slice(b, &words, offset, n)
    } else {
        fail(b, Fault::Arity);
        zero_word(b)
    }
}

/// A field of a struct, or one that all variants of a union have.
pub open spec fn compile_field_access_code(c: Code, cx: Env, e: Spanned<TypedExpr>) -> (Seq<usize>, Code)
    decreases e, 1int, 0int,
 {
    match e.item.kind {
        TypedExprKind::FieldAccess { target, field, enum_name } => {
            match enum_name {
                Some(ename) => {
                    let (found, c) = enum_field_leaf_types_code(c, cx, ename@, ""@, false, field@);
                    let (slots, c) = transient_code(c, cx, *target);
                    let (out, c) = common_field_code(c, cx, target.item.ty@, slots, found.0, found.1);
                    let c = mark_shared_extracted_code(c, cx, e.item.ty@, out);
                    (out, c)
                },
                None => {
                    let (words, c) = transient_code(c, cx, *target);
                    let (range, c) = field_slice_range_code(c, cx, target.item.ty@, field@);
                    let (out, c) = slice_code(c, words, range.0, range.1);
                    let c = mark_shared_extracted_code(c, cx, e.item.ty@, out);
                    (out, c)
                },
            }
        },
        _ => {
            zero_word_code(c)
        },
    }
}

pub(crate) fn compile_field_access(b: &mut Builder, cx: &Ctx, e: &Spanned<TypedExpr>) -> (r: Vec<usize>)
    ensures
        (r@, final(b)@) == compile_field_access_code(old(b)@, cx@, *e),
    decreases e, 1int, 0int,
{
    match &e.item.kind {
        TypedExprKind::FieldAccess { target, field, enum_name } => {
            match enum_name {
                Some(ename) => {
                    let found = enum_field_leaf_types(b, cx, ename.as_str(), "", false, field.as_str());
                    let slots = transient(b, cx, &**target);
                    let out = common_field(b, cx, &target.item.ty, &slots, found.0, &found.1);
                    mark_shared_extracted(b, cx, &e.item.ty, &out);
                    out
                },
                None => {
                    let words = transient(b, cx, &**target);
                    let range = field_slice_range(b, cx, &target.item.ty, field.as_str());
                    let out = slice(b, &words, range.0, range.1);
                    mark_shared_extracted(b, cx, &e.item.ty, &out);
                    out
                },
            }
        },
        _ => {
            zero_word(b)
        },
    }
}

/// A common field, from the columns of an inline union or from a box.
pub open spec fn common_field_code(
    c: Code,
    cx: Env,
    target_ty: Ty,
    slots: Seq<usize>,
    offset: usize,
    tys: Seq<Ty>,
) -> (Seq<usize>, Code) {
    if inline_union(target_ty, cx.defs) {
        match target_ty {
            Ty::Union(members) => {
                first_member_slice_code(c, cx, members, slots, offset, tys.len() as usize)
            },
            _ => {
                zero_word_code(c)
            },
        }
    } else {
        let (ptr, c) = one_code(c, slots);
        read_variant_slots_code(c, ptr, offset, tys)
    }
}

pub(crate) fn common_field(
    b: &mut Builder,
    cx: &Ctx,
    target_ty: &Type,
    slots: &Vec<usize>,
    offset: usize,
    tys: &Vec<Type>,
) -> (r: Vec<usize>)
    ensures
        (r@, final(b)@) == common_field_code(old(b)@, cx@, target_ty@, slots@, offset, type_views(tys@)),
{
    proof {
        type_views_index(tys@);
    }
    if is_inline_union(target_ty, cx) {
        match target_ty {
            Type::Union(members) => {
                first_member_slice(b, cx, members, slots, offset, tys.len())
            },
            _ => {
                zero_word(b)
            },
        }
    } else {
        let ptr: usize = one(b, slots);
        read_variant_slots(b, ptr, offset, tys)
    }
}

/// A field of a variant that a union is known to hold.
pub open spec fn own_field_code(
    c: Code,
    cx: Env,
    target_ty: Ty,
    member: Ty,
    slots: Seq<usize>,
    offset: usize,
    tys: Seq<Ty>,
) -> (Seq<usize>, Code) {
    if inline_union(target_ty, cx.defs) {
        match target_ty {
            Ty::Union(members) => {
                let (words, c) = unpack_union_member_code(c, cx, members, member, slots);
                slice_code(c, words, offset, tys.len() as usize)
            },
            _ => {
                zero_word_code(c)
            },
        }
    } else {
        let (ptr, c) = one_code(c, slots);
        read_variant_slots_code(c, ptr, offset, tys)
    }
}

pub(crate) fn own_field(
    b: &mut Builder,
    cx: &Ctx,
    target_ty: &Type,
    member: &Type,
    slots: &Vec<usize>,
    offset: usize,
    tys: &Vec<Type>,
) -> (r: Vec<usize>)
    ensures
        (r@, final(b)@) == own_field_code(old(b)@, cx@, target_ty@, member@, slots@, offset, type_views(tys@)),
{
    proof {
        type_views_index(tys@);
    }
    if is_inline_union(target_ty, cx) {
        match target_ty {
            Type::Union(members) => {
                let words = unpack_union_member(b, cx, members, member, slots);
                slice(b, &words, offset, tys.len())
            },
            _ => {
                zero_word(b)
            },
        }
    } else {
        let ptr: usize = one(b, slots);
        read_variant_slots(b, ptr, offset, tys)
    }
}

/// A field of a variant, which a preceding test has established.
pub open spec fn compile_variant_field_code(c: Code, cx: Env, e: Spanned<TypedExpr>) -> (Seq<usize>, Code)
    decreases e, 1int, 0int,
 {
    match e.item.kind {
        TypedExprKind::VariantField { target, enum_name, variant, field } => {
            let (found, c) = enum_field_leaf_types_code(c, cx, enum_name@, variant@, true, field@);
            let member = variant_struct(enum_name@, variant@);
            let (slots, c) = transient_code(c, cx, *target);
            let (out, c) = own_field_code(c, cx, target.item.ty@, member, slots, found.0, found.1);
            let c = mark_shared_extracted_code(c, cx, e.item.ty@, out);
            (out, c)
        },
        _ => {
            zero_word_code(c)
        },
    }
}

pub(crate) fn compile_variant_field(b: &mut Builder, cx: &Ctx, e: &Spanned<TypedExpr>) -> (r: Vec<usize>)
    ensures
        (r@, final(b)@) == compile_variant_field_code(old(b)@, cx@, *e),
    decreases e, 1int, 0int,
{
    match &e.item.kind {
        TypedExprKind::VariantField { target, enum_name, variant, field } => {
            let found = enum_field_leaf_types(b, cx, enum_name.as_str(), variant.as_str(), true, field.as_str());
            let member = variant_struct_type(enum_name.as_str(), variant.as_str());
            let slots = transient(b, cx, &**target);
            let out = own_field(b, cx, &target.item.ty, &member, &slots, found.0, &found.1);
            mark_shared_extracted(b, cx, &e.item.ty, &out);
            out
        },
        _ => {
            zero_word(b)
        },
    }
}

/// Whether a union holds a variant.
pub open spec fn compile_is_variant_code(c: Code, cx: Env, e: Spanned<TypedExpr>) -> (Seq<usize>, Code)
    decreases e, 1int, 0int,
 {
    match e.item.kind {
        TypedExprKind::IsVariant { target, enum_name, variant, tag } => {
            let (slots, c) = transient_code(c, cx, *target);
            if inline_union(target.item.ty@, cx.defs) {
                match target.item.ty@ {
                    Ty::Union(members) => {
                        match index_of_type(members, variant_struct(enum_name@, variant@)) {
                            Some(k) => {
                                let (t, c) = inline_tag_test_code(c, slots, k as u32);
                                single_code(c, t)
                            },
                            None => {
                                let c = fail_code(c, Fault::UnknownVariant);
                                zero_word_code(c)
                            },
                        }
                    },
                    _ => {
                        zero_word_code(c)
                    },
                }
            } else {
                let (v, c) = one_code(c, slots);
                match find_union(cx.unions, enum_name@) {
                    Some(def) => {
                        let (t, c) = is_variant_test_code(c, v, def, tag);
                        single_code(c, t)
                    },
                    None => {
                        let c = fail_code(c, Fault::UnknownUnion);
                        zero_word_code(c)
                    },
                }
            }
        },
        _ => {
            zero_word_code(c)
        },
    }
}

pub(crate) fn compile_is_variant(b: &mut Builder, cx: &Ctx, e: &Spanned<TypedExpr>) -> (r: Vec<usize>)
    ensures
        (r@, final(b)@) == compile_is_variant_code(old(b)@, cx@, *e),
    decreases e, 1int, 0int,
{
    match &e.item.kind {
        TypedExprKind::IsVariant { target, enum_name, variant, tag } => {
            let slots = transient(b, cx, &**target);
            if is_inline_union(&target.item.ty, cx) {
                match &target.item.ty {
                    Type::Union(members) => {
                        match find_type(members, &variant_struct_type(enum_name.as_str(), variant.as_str())) {
                            Some(k) => {
                                let t: usize = inline_tag_test(b, &slots, k as u32);
                                single(b, t)
                            },
                            None => {
                                fail(b, Fault::UnknownVariant);
                                zero_word(b)
                            },
                        }
                    },
                    _ => {
                        zero_word(b)
                    },
                }
            } else {
                let v: usize = one(b, &slots);
                match cx.unions.get(enum_name.as_str()) {
                    Some(def) => {
                        let t: usize = is_variant_test(b, v, def, *tag);
                        single(b, t)
                    },
                    None => {
                        fail(b, Fault::UnknownUnion);
                        zero_word(b)
                    },
                }
            }
        },
        _ => {
            zero_word(b)
        },
    }
}

/// Whether a union holds the member at a position.
pub open spec fn compile_type_tag_code(c: Code, cx: Env, e: Spanned<TypedExpr>) -> (Seq<usize>, Code)
    decreases e, 1int, 0int,
 {
    match e.item.kind {
        TypedExprKind::TypeTag { target, tag } => {
            match target.item.ty@ {
                Ty::Union(members) => {
                    let (slots, c) = compile_expr_multi_code(c, cx, *target);
                    if unboxed(members, cx.defs) {
                        let (t, c) = inline_tag_test_code(c, slots, tag);
                        single_code(c, t)
                    } else {
                        let (v, c) = one_code(c, slots);
                        let (t, c) = emit_tag_test_code(c, v, nil_member(members, tag as usize), has_nil(members), tag);
                        single_code(c, t)
                    }
                },
                _ => {
                    let c = fail_code(c, Fault::IllTyped);
                    zero_word_code(c)
                },
            }
        },
        _ => {
            zero_word_code(c)
        },
    }
}

pub(crate) fn compile_type_tag(b: &mut Builder, cx: &Ctx, e: &Spanned<TypedExpr>) -> (r: Vec<usize>)
    ensures
        (r@, final(b)@) == compile_type_tag_code(old(b)@, cx@, *e),
    decreases e, 1int, 0int,
{
    match &e.item.kind {
        TypedExprKind::TypeTag { target, tag } => {
            match &target.item.ty {
                Type::Union(members) => {
                    let slots = compile_expr_multi(b, cx, &**target);
                    if union_is_inline(members, cx.structs) {
                        let t: usize = inline_tag_test(b, &slots, *tag);
                        single(b, t)
                    } else {
                        let v: usize = one(b, &slots);
                        let t: usize = emit_tag_test(b, v, member_is_nil(members, *tag as usize), any_nil(members), *tag);
                        single(b, t)
                    }
                },
                _ => {
                    fail(b, Fault::IllTyped);
                    zero_word(b)
                },
            }
        },
        _ => {
            zero_word(b)
        },
    }
}

/// An element of a list.
pub open spec fn compile_index_code(c: Code, cx: Env, e: Spanned<TypedExpr>) -> (Seq<usize>, Code)
    decreases e, 1int, 0int,
 {
    match e.item.kind {
        TypedExprKind::Index { target, index } => {
            let (list, c) = transient_one_code(c, cx, *target);
            let (idx, c) = compile_expr_code(c, cx, *index);
            let (ls, c) = leaves_code(c, cx, e.item.ty@);
            let (out, c) = index_words_code(c, cx, list, idx, ls);
            let tys = field_tys(ls);
            let c = declare_gc_leaves_code(c, out, tys);
            let c = mark_shared_extracted_code(c, cx, e.item.ty@, out);
            (out, c)
        },
        _ => {
            zero_word_code(c)
        },
    }
}

pub(crate) fn compile_index(b: &mut Builder, cx: &Ctx, e: &Spanned<TypedExpr>) -> (r: Vec<usize>)
    ensures
        (r@, final(b)@) == compile_index_code(old(b)@, cx@, *e),
    decreases e, 1int, 0int,
{
    match &e.item.kind {
        TypedExprKind::Index { target, index } => {
            let list: usize = transient_one(b, cx, &**target);
            let idx: usize = compile_expr(b, cx, &**index);
            let ls = leaf_list(b, cx, &e.item.ty);
            let out = index_words(b, cx, list, idx, &ls);
            let tys = leaf_types(&ls);
            declare_gc_leaves(b, &out, &tys);
            mark_shared_extracted(b, cx, &e.item.ty, &out);
            out
        },
        _ => {
            zero_word(b)
        },
    }
}

/// A bound of a slice, or the number that stands for an omitted one.
pub open spec fn bound_or_code(c: Code, cx: Env, value: Option<TypedExprRef>, other: i64) -> (usize, Code)
    decreases value, 1int, 0int,
 {
    match value {
        Some(v) => {
            compile_expr_code(c, cx, *v)
        },
        None => {
            iconst_code(c, ClType::I64, other)
        },
    }
}

pub(crate) fn bound_or(b: &mut Builder, cx: &Ctx, value: &Option<TypedExprRef>, other: i64) -> (r: usize)
    ensures
        (r, final(b)@) == bound_or_code(old(b)@, cx@, *value, other),
    decreases value, 1int, 0int,
{
    match value {
        Some(v) => {
            compile_expr(b, cx, &**v)
        },
        None => {
            iconst(b, ClType::I64, other)
        },
    }
}

/// A part of a list.
pub open spec fn compile_slice_code(c: Code, cx: Env, e: Spanned<TypedExpr>) -> (Seq<usize>, Code)
    decreases e, 1int, 0int,
 {
    match e.item.kind {
        TypedExprKind::Slice { target, start, end } => {
            let (list, c) = transient_one_code(c, cx, *target);
            let (from, c) = bound_or_code(c, cx, start, i64::MIN);
            let (to, c) = bound_or_code(c, cx, end, i64::MAX);
            let c = emit_code(c, Op::Arg { val: list });
            let c = emit_code(c, Op::Arg { val: from });
            let c = emit_code(c, Op::Arg { val: to });
            let c = invoke_code(c, cx, "frog_list_slice"@);
            let (v, c) = put_code(c, Op::Result { index: 0 });
            let c = emit_code(c, Op::GcValue { val: v });
            single_code(c, v)
        },
        _ => {
            zero_word_code(c)
        },
    }
}

pub(crate) fn compile_slice(b: &mut Builder, cx: &Ctx, e: &Spanned<TypedExpr>) -> (r: Vec<usize>)
    ensures
        (r@, final(b)@) == compile_slice_code(old(b)@, cx@, *e),
    decreases e, 1int, 0int,
{
    match &e.item.kind {
        TypedExprKind::Slice { target, start, end } => {
            let list: usize = transient_one(b, cx, &**target);
            let from: usize = bound_or(b, cx, start, i64::MIN);
            let to: usize = bound_or(b, cx, end, i64::MAX);
            emit(b, Op::Arg { val: list });
            emit(b, Op::Arg { val: from });
            emit(b, Op::Arg { val: to });
            invoke(b, cx, "frog_list_slice");
            let v: usize = put(b, Op::Result { index: 0 });
            emit(b, Op::GcValue { val: v });
            single(b, v)
        },
        _ => {
            zero_word(b)
        },
    }
}

/// A binding. Functions are compiled apart.
pub open spec fn compile_assign_code(
    c: Code,
    cx: Env,
    name: Seq<char>,
    value: Spanned<TypedExpr>,
) -> (Seq<usize>, Code)
    decreases value, 8int, 0int,
 {
    match value.item.kind {
        TypedExprKind::Function { params: _, return_type: _, body: _ } => {
            zero_word_code(c)
        },
        _ => {
            let (vals, c) = compile_expr_multi_code(c, cx, value);
            let (ls, c) = leaves_code(c, cx, value.item.ty@);
            let c = bind_vars_code(c, name, vals, ls);
            (vals, c)
        },
    }
}

pub(crate) fn compile_assign(b: &mut Builder, cx: &Ctx, name: &str, value: &Spanned<TypedExpr>) -> (r: Vec<usize>)
    ensures
        (r@, final(b)@) == compile_assign_code(old(b)@, cx@, name@, *value),
    decreases value, 8int, 0int,
{
    match &value.item.kind {
        TypedExprKind::Function { params: _, return_type: _, body: _ } => {
            zero_word(b)
        },
        _ => {
            let vals = compile_expr_multi(b, cx, value);
            let ls = leaf_list(b, cx, &value.item.ty);
            bind_vars(b, name, &vals, &ls);
            vals
        },
    }
}

/// An assignment to a place.
pub open spec fn compile_place_assign_code(c: Code, cx: Env, e: Spanned<TypedExpr>) -> (Seq<usize>, Code)
    decreases e, 1int, 0int,
 {
    match e.item.kind {
        TypedExprKind::PlaceAssign { place, value } => {
            let (pref, c) = place_ref_code(c, cx, place);
            let (vals, c) = compile_expr_multi_code(c, cx, *value);
            let c = place_store_code(c, cx, pref, value.item.ty@, vals);
            zero_word_code(c)
        },
        _ => {
            zero_word_code(c)
        },
    }
}

pub(crate) fn compile_place_assign(b: &mut Builder, cx: &Ctx, e: &Spanned<TypedExpr>) -> (r: Vec<usize>)
    ensures
        (r@, final(b)@) == compile_place_assign_code(old(b)@, cx@, *e),
    decreases e, 1int, 0int,
{
    match &e.item.kind {
        TypedExprKind::PlaceAssign { place, value } => {
            let pref = place_ref(b, cx, place);
            let vals = compile_expr_multi(b, cx, &**value);
            place_store(b, cx, &pref, &value.item.ty, &vals);
            zero_word(b)
        },
        _ => {
            zero_word(b)
        },
    }
}

/// `print`: by the static type of its argument.
pub open spec fn print_call_code(c: Code, cx: Env, arg: Spanned<TypedExpr>) -> (Seq<usize>, Code)
    decreases arg, 8int, 0int,
 {
    if arg.item.ty@ is Never {
        let (_, c) = compile_expr_multi_code(c, cx, arg);
        (Seq::<usize>::empty(), c)
    } else if by_parts(arg.item.ty@) {
        let (vals, c) = transient_code(c, cx, arg);
        let fresh = Seq::<Ty>::empty();
        let (_, c) = print_value_code(c, cx, arg.item.ty@, vals, 0, fresh);
        let c = print_fragment_code(c, cx, "\n"@);
        zero_word_code(c)
    } else if arg.item.ty@.is_list() {
        let elem = arg.item.ty@.elem();
        let (list, c) = transient_one_code(c, cx, arg);
        let fresh = Seq::<Ty>::empty();
        let c = print_list_code(c, cx, elem, list, fresh);
        let c = print_fragment_code(c, cx, "\n"@);
        zero_word_code(c)
    } else {
        let (v, c) = compile_expr_code(c, cx, arg);
        let c = match arg.item.ty@ {
            Ty::Str => {
                let c = emit_code(c, Op::Arg { val: v });
                let c = invoke_code(c, cx, "print"@);
                c
            },
            Ty::Int => {
                let c = emit_code(c, Op::Arg { val: v });
                let c = invoke_code(c, cx, "frog_int_println"@);
                c
            },
            Ty::Float => {
                let c = emit_code(c, Op::Arg { val: v });
                let c = invoke_code(c, cx, "frog_float_println"@);
                c
            },
            Ty::Bool => {
                let c = emit_code(c, Op::Arg { val: v });
                let c = invoke_code(c, cx, "frog_bool_println"@);
                c
            },
            _ => {
                let c = fail_code(c, Fault::UnsupportedType);
                c
            },
        };
        zero_word_code(c)
    }
}

pub(crate) fn print_call(b: &mut Builder, cx: &Ctx, arg: &Spanned<TypedExpr>) -> (r: Vec<usize>)
    ensures
        (r@, final(b)@) == print_call_code(old(b)@, cx@, *arg),
    decreases arg, 8int, 0int,
{
    if is_never(&arg.item.ty) {
        let _ = compile_expr_multi(b, cx, arg);
        Vec::new()
    } else if prints_by_parts(&arg.item.ty) {
        let vals = transient(b, cx, arg);
        let fresh = Vec::new();
        assert(type_views(fresh@) =~= Seq::<Ty>::empty());
        let _ = print_value(b, cx, &arg.item.ty, &vals, 0, &fresh);
        print_fragment(b, cx, "\n");
        zero_word(b)
    } else if arg.item.ty.is_list() {
        let elem = arg.item.ty.as_list_elem().unwrap();
        let list: usize = transient_one(b, cx, arg);
        let fresh = Vec::new();
        assert(type_views(fresh@) =~= Seq::<Ty>::empty());
        print_list(b, cx, elem, list, &fresh);
        print_fragment(b, cx, "\n");
        zero_word(b)
    } else {
        let v: usize = compile_expr(b, cx, arg);
        match &arg.item.ty {
            Type::Str => {
                emit(b, Op::Arg { val: v });
                invoke(b, cx, "print");
            },
            Type::Int => {
                emit(b, Op::Arg { val: v });
                invoke(b, cx, "frog_int_println");
            },
            Type::Float => {
                emit(b, Op::Arg { val: v });
                invoke(b, cx, "frog_float_println");
            },
            Type::Bool => {
                emit(b, Op::Arg { val: v });
                invoke(b, cx, "frog_bool_println");
            },
            _ => {
                fail(b, Fault::UnsupportedType);
            },
        }
        zero_word(b)
    }
}

/// `len`: of a list or of a string.
pub open spec fn len_call_code(c: Code, cx: Env, arg: Spanned<TypedExpr>) -> (Seq<usize>, Code)
    decreases arg, 8int, 0int,
 {
    let (v, c) = transient_one_code(c, cx, arg);
    if arg.item.ty@.is_list() {
        let (n, c) = call_one_code(c, cx, "frog_list_len"@, v);
        single_code(c, n)
    } else if arg.item.ty@ is Str {
        let (n, c) = call_one_code(c, cx, "frog_str_len"@, v);
        single_code(c, n)
    } else {
        let c = fail_code(c, Fault::UnsupportedType);
        single_code(c, v)
    }
}

pub(crate) fn len_call(b: &mut Builder, cx: &Ctx, arg: &Spanned<TypedExpr>) -> (r: Vec<usize>)
    ensures
        (r@, final(b)@) == len_call_code(old(b)@, cx@, *arg),
    decreases arg, 8int, 0int,
{
    let v: usize = transient_one(b, cx, arg);
    if arg.item.ty.is_list() {
        let n: usize = call_one(b, cx, "frog_list_len", v);
        single(b, n)
    } else if is_str(&arg.item.ty) {
        let n: usize = call_one(b, cx, "frog_str_len", v);
        single(b, n)
    } else {
        fail(b, Fault::UnsupportedType);
        single(b, v)
    }
}

/// `to_list`: the elements of a range as a list.
pub open spec fn to_list_call_code(c: Code, cx: Env, arg: Spanned<TypedExpr>) -> (Seq<usize>, Code)
    decreases arg, 8int, 0int,
 {
    let (bounds, c) = compile_expr_multi_code(c, cx, arg);
    let (start, c) = at_code(c, bounds, 0);
    let (end, c) = at_code(c, bounds, 1);
    let (list, c) = call_two_code(c, cx, "frog_range"@, start, end);
    let c = emit_code(c, Op::GcValue { val: list });
    single_code(c, list)
}

pub(crate) fn to_list_call(b: &mut Builder, cx: &Ctx, arg: &Spanned<TypedExpr>) -> (r: Vec<usize>)
    ensures
        (r@, final(b)@) == to_list_call_code(old(b)@, cx@, *arg),
    decreases arg, 8int, 0int,
{
    let bounds = compile_expr_multi(b, cx, arg);
    let start: usize = at(b, &bounds, 0);
    let end: usize = at(b, &bounds, 1);
    let list: usize = call_two(b, cx, "frog_range", start, end);
    emit(b, Op::GcValue { val: list });
    single(b, list)
}

/// `push`: appends to the list at a place.
pub open spec fn push_call_code(c: Code, cx: Env, args: Seq<Arg>) -> (Seq<usize>, Code)
    decreases args, 2int, 0int,
 {
    match parts_of_push(args) {
        Some((place, value)) => {
            let (list, c) = mutable_list_code(c, cx, place);
            let (ls, c) = leaves_code(c, cx, value.item.ty@);
            let (vals, c) = compile_expr_multi_code(c, cx, value);
            let c = push_element_code(c, cx, list, vals, ls);
            zero_word_code(c)
        },
        None => {
            let c = fail_code(c, Fault::IllTyped);
            zero_word_code(c)
        },
    }
}

pub(crate) fn push_call(b: &mut Builder, cx: &Ctx, args: &Vec<Arg>) -> (r: Vec<usize>)
    ensures
        (r@, final(b)@) == push_call_code(old(b)@, cx@, args@),
    decreases args, 2int, 0int,
{
    match push_parts(args) {
        Some((place, value)) => {
            let list: usize = mutable_list(b, cx, place);
            let ls = leaf_list(b, cx, &value.item.ty);
            let vals = compile_expr_multi(b, cx, value);
            push_element(b, cx, list, &vals, &ls);
            zero_word(b)
        },
        None => {
            fail(b, Fault::IllTyped);
            zero_word(b)
        },
    }
}

pub open spec fn host_args_upto(c: Code, cx: Env, args: Seq<Arg>, n: nat) -> (Seq<usize>, Code)
    decreases args, 0int, n,
{
    if n == 0 || n > args.len() {
        (Seq::<usize>::empty(), c)
    } else {
        let (out, c) = host_args_upto(c, cx, args, (n - 1) as nat);
        let i = (n - 1) as usize;
        let (words, c) = match args[n - 1] {
            Arg::Value(a) => {
                host_arg_code(c, cx, a)
            },
            Arg::Mut(_) => {
                (Seq::<usize>::empty(), c)
            },
        };
        let out = out + words;
        (out, c)
    }
}

/// The words of all value arguments.
pub open spec fn host_args_code(c: Code, cx: Env, args: Seq<Arg>) -> (Seq<usize>, Code)
    decreases args, 1int, 0int,
 {
    host_args_upto(c, cx, args, args.len())
}

pub(crate) fn host_args(b: &mut Builder, cx: &Ctx, args: &Vec<Arg>) -> (r: Vec<usize>)
    ensures
        (r@, final(b)@) == host_args_code(old(b)@, cx@, args@),
    decreases args, 1int, 0int,
{
    let total: usize = args.len();
    let mut out = Vec::new();
    let mut i: usize = 0;
    while i < total
        invariant
            i <= total,
            total == args@.len(),
            (out@, b@) == host_args_upto(old(b)@, cx@, args@, i as nat),
        decreases total - i,
    {
        let words = match &args[i] {
            Arg::Value(a) => {
                host_arg(b, cx, a)
            },
            Arg::Mut(_) => {
                Vec::new()
            },
        };
        extend(&mut out, &words);
        i = i + 1;
    }
    out
}

/// The words of one argument as they are kept in memory.
pub open spec fn host_arg_code(c: Code, cx: Env, a: Spanned<TypedExpr>) -> (Seq<usize>, Code)
    decreases a, 8int, 0int,
 {
    if multi_leaf(a.item.ty@, cx.defs) {
        let (ls, c) = leaves_code(c, cx, a.item.ty@);
        let (vals, c) = compile_expr_multi_code(c, cx, a);
        wires_code(c, vals, ls)
    } else {
        let (v, c) = compile_expr_code(c, cx, a);
        let (w, c) = to_i64_repr_code(c, a.item.ty@, v);
        single_code(c, w)
    }
}

pub(crate) fn host_arg(b: &mut Builder, cx: &Ctx, a: &Spanned<TypedExpr>) -> (r: Vec<usize>)
    ensures
        (r@, final(b)@) == host_arg_code(old(b)@, cx@, *a),
    decreases a, 8int, 0int,
{
    if is_multi_leaf_type(&a.item.ty, cx) {
        let ls = leaf_list(b, cx, &a.item.ty);
        let vals = compile_expr_multi(b, cx, a);
        wires(b, &vals, &ls)
    } else {
        let v: usize = compile_expr(b, cx, a);
        let w: usize = to_i64_repr(b, &a.item.ty, v);
        single(b, w)
    }
}

pub open spec fn stack_words_upto(c: Code, vals: Seq<usize>, slot: usize, n: nat) -> Code
    decreases n,
{
    if n == 0 {
        c
    } else {
        let c = stack_words_upto(c, vals, slot, (n - 1) as nat);
        let i = (n - 1) as usize;
        let c = emit_code(c, Op::StackStore { val: vals[i as int], slot, word: i });
        c
    }
}

/// Stores words on the stack.
pub open spec fn stack_words_code(c: Code, vals: Seq<usize>, slot: usize) -> Code {
    stack_words_upto(c, vals, slot, vals.len())
}

pub(crate) fn stack_words(b: &mut Builder, vals: &Vec<usize>, slot: usize)
    ensures
        final(b)@ == stack_words_code(old(b)@, vals@, slot),
{
    let total: usize = vals.len();
    let mut i: usize = 0;
    while i < total
        invariant
            i <= total,
            total == vals@.len(),
            b@ == stack_words_upto(old(b)@, vals@, slot, i as nat),
        decreases total - i,
    {
        emit(b, Op::StackStore { val: vals[i], slot, word: i });
        i = i + 1;
    }
}

pub open spec fn unstack_words_upto(c: Code, tys: Seq<Ty>, slot: usize, n: nat) -> (Seq<usize>, Code)
    decreases n,
{
    if n == 0 {
        (Seq::<usize>::empty(), c)
    } else {
        let (out, c) = unstack_words_upto(c, tys, slot, (n - 1) as nat);
        let i = (n - 1) as usize;
        let (word, c) = put_code(c, Op::StackLoad { slot, word: i });
        let (v, c) = from_i64_repr_code(c, tys[i as int], word);
        let out = out.push(v);
        (out, c)
    }
}

/// Loads words from the stack.
pub open spec fn unstack_words_code(c: Code, tys: Seq<Ty>, slot: usize) -> (Seq<usize>, Code) {
    unstack_words_upto(c, tys, slot, tys.len())
}

pub(crate) fn unstack_words(b: &mut Builder, tys: &Vec<Type>, slot: usize) -> (r: Vec<usize>)
    ensures
        (r@, final(b)@) == unstack_words_code(old(b)@, type_views(tys@), slot),
{
    proof {
        type_views_index(tys@);
    }
    let total: usize = tys.len();
    let mut out = Vec::new();
    let mut i: usize = 0;
    while i < total
        invariant
            i <= total,
            total == type_views(tys@).len(),
            type_views(tys@).len() == tys.len(),
            forall|k: int| 0 <= k < tys.len() ==> #[trigger] type_views(tys@)[k] == tys@[k]@,
            (out@, b@) == unstack_words_upto(old(b)@, type_views(tys@), slot, i as nat),
        decreases total - i,
    {
        let word: usize = put(b, Op::StackLoad { slot, word: i });
        let v: usize = from_i64_repr(b, &tys[i], word);
        out.push(v);
        i = i + 1;
    }
    out
}

/// A call of a host function: its arguments and its result go through buffers on the stack.
pub open spec fn host_call_code(
    c: Code,
    cx: Env,
    name: Seq<char>,
    callable_ty: Ty,
    args: Seq<Arg>,
) -> (Seq<usize>, Code)
    decreases args, 2int, 0int,
 {
    let result = result_of(callable_ty);
    let (words, c) = host_args_code(c, cx, args);
    let (args_slot, c) = put_code(c, Op::StackSlot { words: one_or_more(words.len()) });
    let c = stack_words_code(c, words, args_slot);
    let (args_addr, c) = put_code(c, Op::StackAddr { slot: args_slot });
    let (ls, c) = leaves_code(c, cx, result);
    let tys = field_tys(ls);
    let (out_slot, c) = put_code(c, Op::StackSlot { words: one_or_more(ls.len()) });
    let (out_addr, c) = put_code(c, Op::StackAddr { slot: out_slot });
    let c = invoke_code(c, cx, "frog_ctx_current"@);
    let (ctx_val, c) = put_code(c, Op::Result { index: 0 });
    let c = emit_code(c, Op::Arg { val: ctx_val });
    let c = emit_code(c, Op::Arg { val: args_addr });
    let c = emit_code(c, Op::Arg { val: out_addr });
    let c = invoke_code(c, cx, name);
    if result is Nil {
        zero_word_code(c)
    } else {
        let (out, c) = unstack_words_code(c, tys, out_slot);
        let c = declare_gc_leaves_code(c, out, tys);
        (out, c)
    }
}

pub(crate) fn host_call(b: &mut Builder, cx: &Ctx, name: &str, callable_ty: &Type, args: &Vec<Arg>) -> (r: Vec<usize>)
    ensures
        (r@, final(b)@) == host_call_code(old(b)@, cx@, name@, callable_ty@, args@),
    decreases args, 2int, 0int,
{
    let result = result_or_int(callable_ty);
    let words = host_args(b, cx, args);
    let args_slot: usize = put(b, Op::StackSlot { words: one_at_least(words.len()) });
    stack_words(b, &words, args_slot);
    let args_addr: usize = put(b, Op::StackAddr { slot: args_slot });
    let ls = leaf_list(b, cx, &result);
    let tys = leaf_types(&ls);
    let out_slot: usize = put(b, Op::StackSlot { words: one_at_least(ls.len()) });
    let out_addr: usize = put(b, Op::StackAddr { slot: out_slot });
    invoke(b, cx, "frog_ctx_current");
    let ctx_val: usize = put(b, Op::Result { index: 0 });
    emit(b, Op::Arg { val: ctx_val });
    emit(b, Op::Arg { val: args_addr });
    emit(b, Op::Arg { val: out_addr });
    invoke(b, cx, name);
    if is_nil(&result) {
        zero_word(b)
    } else {
        let out = unstack_words(b, &tys, out_slot);
        declare_gc_leaves(b, &out, &tys);
        out
    }
}

pub open spec fn call_args_upto(
    c: Code,
    cx: Env,
    args: Seq<Arg>,
    params: Seq<Ty>,
    n: nat,
) -> ((Seq<usize>, Seq<(PlaceView, Ty)>), Code)
    decreases args, 0int, n,
{
    if n == 0 || n > args.len() {
        ((Seq::<usize>::empty(), Seq::<(PlaceView, Ty)>::empty()), c)
    } else {
        let (acc, c) = call_args_upto(c, cx, args, params, (n - 1) as nat);
        let i = (n - 1) as usize;
        let (acc, c) = match args[n - 1] {
            Arg::Value(a) => {
                let (words, c) = call_value_code(c, cx, a, params, i);
                ((acc.0 + words, acc.1), c)
            },
            Arg::Mut(place) => {
                let param = param_at(params, i);
                let (pref, c) = place_ref_code(c, cx, place);
                let (words, c) = place_load_code(c, cx, pref, param);
                ((acc.0 + words, acc.1.push((pref, param))), c)
            },
        };
        (acc, c)
    }
}

/// The words of all arguments, and the places that results are copied back to.
pub open spec fn call_args_code(
    c: Code,
    cx: Env,
    args: Seq<Arg>,
    params: Seq<Ty>,
) -> ((Seq<usize>, Seq<(PlaceView, Ty)>), Code)
    decreases args, 1int, 0int,
 {
    call_args_upto(c, cx, args, params, args.len())
}

pub(crate) fn call_args(
    b: &mut Builder,
    cx: &Ctx,
    args: &Vec<Arg>,
    params: &Vec<Type>,
) -> (r: (Vec<usize>, Vec<(PlaceRef, Type)>))
    ensures
        ((r.0@, pref_views(r.1@)), final(b)@) == call_args_code(old(b)@, cx@, args@, type_views(params@)),
    decreases args, 1int, 0int,
{
    proof {
        type_views_index(params@);
    }
    let total: usize = args.len();
    let mut acc = (Vec::new(), Vec::new());
    let mut i: usize = 0;
    while i < total
        invariant
            i <= total,
            total == args@.len(),
            type_views(params@).len() == params.len(),
            forall|k: int| 0 <= k < params.len() ==> #[trigger] type_views(params@)[k] == params@[k]@,
            ((acc.0@, pref_views(acc.1@)), b@) == call_args_upto(old(b)@, cx@, args@, type_views(params@), i as nat),
        decreases total - i,
    {
        acc = match &args[i] {
            Arg::Value(a) => {
                let words = call_value(b, cx, a, params, i);
                with_words(acc, &words)
            },
            Arg::Mut(place) => {
                let param = param_or_int(params, i);
                let pref = place_ref(b, cx, place);
                let words = place_load(b, cx, &pref, &param);
                with_place(acc, &words, pref, param)
            },
        };
        i = i + 1;
    }
    acc
}

/// The words of one value argument, widened to its parameter's type.
pub open spec fn call_value_code(
    c: Code,
    cx: Env,
    a: Spanned<TypedExpr>,
    params: Seq<Ty>,
    k: usize,
) -> (Seq<usize>, Code)
    decreases a, 8int, 0int,
 {
    if multi_leaf(a.item.ty@, cx.defs) {
        compile_expr_multi_code(c, cx, a)
    } else {
        let (v, c) = compile_expr_code(c, cx, a);
        if k < params.len() {
            let (w, c) = coerce_value_code(c, v, a.item.ty@, params[k as int]);
            single_code(c, w)
        } else {
            single_code(c, v)
        }
    }
}

pub(crate) fn call_value(
    b: &mut Builder,
    cx: &Ctx,
    a: &Spanned<TypedExpr>,
    params: &Vec<Type>,
    k: usize,
) -> (r: Vec<usize>)
    ensures
        (r@, final(b)@) == call_value_code(old(b)@, cx@, *a, type_views(params@), k),
    decreases a, 8int, 0int,
{
    proof {
        type_views_index(params@);
    }
    if is_multi_leaf_type(&a.item.ty, cx) {
        compile_expr_multi(b, cx, a)
    } else {
        let v: usize = compile_expr(b, cx, a);
        if k < params.len() {
            let w: usize = coerce_value(b, v, &a.item.ty, &params[k]);
            single(b, w)
        } else {
            single(b, v)
        }
    }
}

pub open spec fn results_from_upto(c: Code, start: usize, count: usize, n: nat) -> (Seq<usize>, Code)
    decreases n,
{
    if n == 0 {
        (Seq::<usize>::empty(), c)
    } else {
        let (out, c) = results_from_upto(c, start, count, (n - 1) as nat);
        let i = (n - 1) as usize;
        let (v, c) = put_code(c, Op::Result { index: beyond(start, i) });
        let out = out.push(v);
        (out, c)
    }
}

/// Results of the last call.
pub open spec fn results_from_code(c: Code, start: usize, count: usize) -> (Seq<usize>, Code) {
    results_from_upto(c, start, count, count as nat)
}

pub(crate) fn results_from(b: &mut Builder, start: usize, count: usize) -> (r: Vec<usize>)
    ensures
        (r@, final(b)@) == results_from_code(old(b)@, start, count),
{
    let total: usize = count;
    let mut out = Vec::new();
    let mut i: usize = 0;
    while i < total
        invariant
            i <= total,
            total == count as nat,
            (out@, b@) == results_from_upto(old(b)@, start, count, i as nat),
        decreases total - i,
    {
        let v: usize = put(b, Op::Result { index: past(start, i) });
        out.push(v);
        i = i + 1;
    }
    out
}

pub open spec fn copy_out_upto(c: Code, cx: Env, places: Seq<(PlaceView, Ty)>, start: usize, n: nat) -> (usize, Code)
    decreases n,
{
    if n == 0 {
        (start, c)
    } else {
        let (cursor, c) = copy_out_upto(c, cx, places, start, (n - 1) as nat);
        let i = (n - 1) as usize;
        let (ls, c) = leaves_code(c, cx, places[i as int].1);
        let (words, c) = results_from_code(c, cursor, ls.len() as usize);
        let tys = field_tys(ls);
        let c = declare_gc_leaves_code(c, words, tys);
        let c = place_store_code(c, cx, places[i as int].0, places[i as int].1, words);
        let cursor = beyond(cursor, ls.len() as usize);
        (cursor, c)
    }
}

/// Stores the final value of each `mut` argument back into the place that it named.
pub open spec fn copy_out_code(c: Code, cx: Env, places: Seq<(PlaceView, Ty)>, start: usize) -> (usize, Code) {
    copy_out_upto(c, cx, places, start, places.len())
}

pub(crate) fn copy_out(b: &mut Builder, cx: &Ctx, places: &Vec<(PlaceRef, Type)>, start: usize) -> (r: usize)
    ensures
        (r, final(b)@) == copy_out_code(old(b)@, cx@, pref_views(places@), start),
{
    let total: usize = places.len();
    let mut cursor: usize = start;
    let mut i: usize = 0;
    while i < total
        invariant
            i <= total,
            total == pref_views(places@).len(),
            (cursor, b@) == copy_out_upto(old(b)@, cx@, pref_views(places@), start, i as nat),
        decreases total - i,
    {
        let ls = leaf_list(b, cx, &places[i].1);
        let words = results_from(b, cursor, ls.len());
        let tys = leaf_types(&ls);
        declare_gc_leaves(b, &words, &tys);
        place_store(b, cx, &places[i].0, &places[i].1, &words);
        cursor = past(cursor, ls.len());
        i = i + 1;
    }
    cursor
}

/// A call of a function: the results are its value and then the final value of each `mut` argument.
pub open spec fn user_call_code(
    c: Code,
    cx: Env,
    name: Seq<char>,
    callable_ty: Ty,
    args: Seq<Arg>,
) -> (Seq<usize>, Code)
    decreases args, 2int, 0int,
 {
    let params = params_of(callable_ty);
    let result = result_of(callable_ty);
    let (passed, c) = call_args_code(c, cx, args, params);
    let c = emit_args_code(c, passed.0);
    let c = invoke_code(c, cx, name);
    if result is Never {
        let c = emit_code(c, Op::Trap { code: 2 });
        let c = dead_block_code(c);
        (Seq::<usize>::empty(), c)
    } else {
        let (ls, c) = leaves_code(c, cx, result);
        let tys = field_tys(ls);
        let count = if result is Nil { 0usize } else { ls.len() as usize };
        let (words, c) = results_from_code(c, 0, count);
        let (primary, c) = result_words_code(c, cx, result, words, tys);
        let (_, c) = copy_out_code(c, cx, passed.1, count);
        (primary, c)
    }
}

pub(crate) fn user_call(b: &mut Builder, cx: &Ctx, name: &str, callable_ty: &Type, args: &Vec<Arg>) -> (r: Vec<usize>)
    ensures
        (r@, final(b)@) == user_call_code(old(b)@, cx@, name@, callable_ty@, args@),
    decreases args, 2int, 0int,
{
    let params = params_or_none(callable_ty);
    let result = result_or_int(callable_ty);
    let passed = call_args(b, cx, args, &params);
    emit_args(b, &passed.0);
    invoke(b, cx, name);
    if is_never(&result) {
        emit(b, Op::Trap { code: 2 });
        dead_block(b);
        Vec::new()
    } else {
        let ls = leaf_list(b, cx, &result);
        let tys = leaf_types(&ls);
        let count: usize = if is_nil(&result) { 0 } else { ls.len() };
        let words = results_from(b, 0, count);
        let primary = result_words(b, cx, &result, &words, &tys);
        let _ = copy_out(b, cx, &passed.1, count);
        primary
    }
}

/// The value of a call.
pub open spec fn result_words_code(
    c: Code,
    cx: Env,
    result: Ty,
    words: Seq<usize>,
    tys: Seq<Ty>,
) -> (Seq<usize>, Code) {
    if result is Nil {
        zero_word_code(c)
    } else if multi_leaf(result, cx.defs) {
        let c = declare_gc_leaves_code(c, words, tys);
        (words, c)
    } else {
        let (v, c) = at_code(c, words, 0);
        let c = declare_gc_value_code(c, result, v);
        single_code(c, v)
    }
}

pub(crate) fn result_words(
    b: &mut Builder,
    cx: &Ctx,
    result: &Type,
    words: &Vec<usize>,
    tys: &Vec<Type>,
) -> (r: Vec<usize>)
    ensures
        (r@, final(b)@) == result_words_code(old(b)@, cx@, result@, words@, type_views(tys@)),
{
    if is_nil(result) {
        zero_word(b)
    } else if is_multi_leaf_type(result, cx) {
        declare_gc_leaves(b, words, tys);
        copy_vals(words)
    } else {
        let v: usize = at(b, words, 0);
        declare_gc_value(b, result, v);
        single(b, v)
    }
}

/// A call: of a function that is built in, of one of the host, or of one of the program.
pub open spec fn compile_call_code(c: Code, cx: Env, e: Spanned<TypedExpr>) -> (Seq<usize>, Code)
    decreases e, 1int, 0int,
 {
    match e.item.kind {
        TypedExprKind::Call { callable, args } => {
            match callable.item.kind {
                TypedExprKind::Var(name) => {
                    if name@ == "push"@ {
                        push_call_code(c, cx, args@)
                    } else if builtin(name@) {
                        match value_of(args@) {
                            Some(arg) => {
                                proof { value_within(args@, 0); }
                                if name@ == "print"@ {
                                    print_call_code(c, cx, arg)
                                } else if name@ == "len"@ {
                                    len_call_code(c, cx, arg)
                                } else {
                                    to_list_call_code(c, cx, arg)
                                }
                            },
                            None => {
                                let c = fail_code(c, Fault::Arity);
                                zero_word_code(c)
                            },
                        }
                    } else if cx.hosts.contains(name@) {
                        host_call_code(c, cx, name@, callable.item.ty@, args@)
                    } else {
                        user_call_code(c, cx, name@, callable.item.ty@, args@)
                    }
                },
                _ => {
                    let c = fail_code(c, Fault::UnknownFunction);
                    zero_word_code(c)
                },
            }
        },
        _ => {
            zero_word_code(c)
        },
    }
}

pub(crate) fn compile_call(b: &mut Builder, cx: &Ctx, e: &Spanned<TypedExpr>) -> (r: Vec<usize>)
    ensures
        (r@, final(b)@) == compile_call_code(old(b)@, cx@, *e),
    decreases e, 1int, 0int,
{
    match &e.item.kind {
        TypedExprKind::Call { callable, args } => {
            match &callable.item.kind {
                TypedExprKind::Var(name) => {
                    if same_text(name.as_str(), "push") {
                        push_call(b, cx, args)
                    } else if is_builtin(name.as_str()) {
                        match first_value(args) {
                            Some(arg) => {
                                if same_text(name.as_str(), "print") {
                                    print_call(b, cx, arg)
                                } else if same_text(name.as_str(), "len") {
                                    len_call(b, cx, arg)
                                } else {
                                    to_list_call(b, cx, arg)
                                }
                            },
                            None => {
                                fail(b, Fault::Arity);
                                zero_word(b)
                            },
                        }
                    } else if cx.host_fns.contains(name.as_str()) {
                        host_call(b, cx, name.as_str(), &callable.item.ty, args)
                    } else {
                        user_call(b, cx, name.as_str(), &callable.item.ty, args)
                    }
                },
                _ => {
                    fail(b, Fault::UnknownFunction);
                    zero_word(b)
                },
            }
        },
        _ => {
            zero_word(b)
        },
    }
}

/// The list that a comprehension collects into, with room for as many elements as the loop has turns.
pub open spec fn loop_output_code(c: Code, cx: Env, output: LoopOutput, len: usize) -> (Option<usize>, Code) {
    match output {
        LoopOutput::Discard => {
            (None::<usize>, c)
        },
        LoopOutput::Collect { stride, bits } => {
            let (list, c) = alloc_list_code(c, cx, len, stride, bits);
            (Some(list), c)
        },
    }
}

pub(crate) fn loop_output(b: &mut Builder, cx: &Ctx, output: LoopOutput, len: usize) -> (r: Option<usize>)
    ensures
        (r, final(b)@) == loop_output_code(old(b)@, cx@, output, len),
{
    match output {
        LoopOutput::Discard => {
            None
        },
        LoopOutput::Collect { stride, bits } => {
            let list: usize = alloc_list(b, cx, len, stride, bits);
            Some(list)
        },
    }
}

pub open spec fn load_words_at_upto(c: Code, base: usize, ls: Seq<FieldView>, n: nat) -> (Seq<usize>, Code)
    decreases n,
{
    if n == 0 {
        (Seq::<usize>::empty(), c)
    } else {
        let (out, c) = load_words_at_upto(c, base, ls, (n - 1) as nat);
        let i = (n - 1) as usize;
        let (word, c) = put_code(c, Op::Load { ty: ClType::I64, base, at: Field::Word(i) });
        let (v, c) = from_i64_repr_code(c, ls[i as int].1, word);
        let out = out.push(v);
        (out, c)
    }
}

/// The words of the element at an address.
pub open spec fn load_words_at_code(c: Code, base: usize, ls: Seq<FieldView>) -> (Seq<usize>, Code) {
    load_words_at_upto(c, base, ls, ls.len())
}

pub(crate) fn load_words_at(b: &mut Builder, base: usize, ls: &Vec<(String, Type)>) -> (r: Vec<usize>)
    ensures
        (r@, final(b)@) == load_words_at_code(old(b)@, base, field_views(ls@)),
{
    let total: usize = ls.len();
    let mut out = Vec::new();
    let mut i: usize = 0;
    while i < total
        invariant
            i <= total,
            total == field_views(ls@).len(),
            (out@, b@) == load_words_at_upto(old(b)@, base, field_views(ls@), i as nat),
        decreases total - i,
    {
        let word: usize = put(b, Op::Load { ty: ClType::I64, base, at: Field::Word(i) });
        let v: usize = from_i64_repr(b, &ls[i].1, word);
        out.push(v);
        i = i + 1;
    }
    out
}

pub open spec fn bind_same_upto(c: Code, name: Seq<char>, val: usize, ls: Seq<FieldView>, n: nat) -> Code
    decreases n,
{
    if n == 0 {
        c
    } else {
        let c = bind_same_upto(c, name, val, ls, (n - 1) as nat);
        let i = (n - 1) as usize;
        let key = dotted(name, ls[i as int].0);
        let (var, c) = get_or_declare_var_code(c, key, ls[i as int].1);
        let c = emit_code(c, Op::DefVar { var, val });
        c
    }
}

/// Gives a name one word.
pub open spec fn bind_same_code(c: Code, name: Seq<char>, val: usize, ls: Seq<FieldView>) -> Code {
    bind_same_upto(c, name, val, ls, ls.len())
}

pub(crate) fn bind_same(b: &mut Builder, name: &str, val: usize, ls: &Vec<(String, Type)>)
    ensures
        final(b)@ == bind_same_code(old(b)@, name@, val, field_views(ls@)),
{
    let total: usize = ls.len();
    let mut i: usize = 0;
    while i < total
        invariant
            i <= total,
            total == field_views(ls@).len(),
            b@ == bind_same_upto(old(b)@, name@, val, field_views(ls@), i as nat),
        decreases total - i,
    {
        let key = var_key(name, ls[i].0.as_str());
        let var: usize = get_or_declare_var(b, key.as_str(), &ls[i].1);
        emit(b, Op::DefVar { var, val });
        i = i + 1;
    }
}

/// A loop's guard: where it fails, the next turn begins.
pub open spec fn loop_guard_code(c: Code, cx: Env, cond: Option<TypedExprRef>, k: usize, header_bb: usize) -> Code
    decreases cond, 1int, 0int,
 {
    match cond {
        Some(g) => {
            let (do_bb, c) = put_code(c, Op::Block);
            let (skip_bb, c) = put_code(c, Op::Block);
            let (test, c) = compile_expr_code(c, cx, *g);
            let c = emit_code(c, Op::Brif { cond: test, yes: do_bb, no: skip_bb });
            let c = emit_code(c, Op::Switch { block: skip_bb });
            let c = emit_code(c, Op::Seal { block: skip_bb });
            let (next, c) = put_code(c, Op::BinaryImm { op: BinOp::Iadd, a: k, imm: 1 });
            let c = emit_code(c, Op::Arg { val: next });
            let c = emit_code(c, Op::Jump { block: header_bb });
            let c = emit_code(c, Op::Switch { block: do_bb });
            let c = emit_code(c, Op::Seal { block: do_bb });
            c
        },
        None => {
            c
        },
    }
}

pub(crate) fn loop_guard(b: &mut Builder, cx: &Ctx, cond: &Option<TypedExprRef>, k: usize, header_bb: usize)
    ensures
        final(b)@ == loop_guard_code(old(b)@, cx@, *cond, k, header_bb),
    decreases cond, 1int, 0int,
{
    match cond {
        Some(g) => {
            let do_bb: usize = put(b, Op::Block);
            let skip_bb: usize = put(b, Op::Block);
            let test: usize = compile_expr(b, cx, &**g);
            emit(b, Op::Brif { cond: test, yes: do_bb, no: skip_bb });
            emit(b, Op::Switch { block: skip_bb });
            emit(b, Op::Seal { block: skip_bb });
            let next: usize = put(b, Op::BinaryImm { op: BinOp::Iadd, a: k, imm: 1 });
            emit(b, Op::Arg { val: next });
            emit(b, Op::Jump { block: header_bb });
            emit(b, Op::Switch { block: do_bb });
            emit(b, Op::Seal { block: do_bb });
        },
        None => {
            {}
        },
    }
}

/// A loop's body, what it collects, and the way back to the head.
pub open spec fn loop_body_code(
    c: Code,
    cx: Env,
    body: Spanned<TypedExpr>,
    list: Option<usize>,
    k: usize,
    header_bb: usize,
    exit_bb: usize,
) -> Code
    decreases body, 8int, 0int,
 {
    let (vals, c) = compile_expr_multi_code(c, cx, body);
    let c = match list {
        Some(l) => {
            let (ls, c) = leaves_code(c, cx, body.item.ty@);
            let c = push_element_code(c, cx, l, vals, ls);
            c
        },
        None => {
            c
        },
    };
    let (next, c) = put_code(c, Op::BinaryImm { op: BinOp::Iadd, a: k, imm: 1 });
    let c = emit_code(c, Op::Arg { val: next });
    let c = emit_code(c, Op::Jump { block: header_bb });
    let c = emit_code(c, Op::Seal { block: header_bb });
    let c = emit_code(c, Op::Switch { block: exit_bb });
    let c = emit_code(c, Op::Seal { block: exit_bb });
    c
}

pub(crate) fn loop_body(
    b: &mut Builder,
    cx: &Ctx,
    body: &Spanned<TypedExpr>,
    list: Option<usize>,
    k: usize,
    header_bb: usize,
    exit_bb: usize,
)
    ensures
        final(b)@ == loop_body_code(old(b)@, cx@, *body, list, k, header_bb, exit_bb),
    decreases body, 8int, 0int,
{
    let vals = compile_expr_multi(b, cx, body);
    match list {
        Some(l) => {
            let ls = leaf_list(b, cx, &body.item.ty);
            push_element(b, cx, l, &vals, &ls);
        },
        None => {
            {}
        },
    }
    let next: usize = put(b, Op::BinaryImm { op: BinOp::Iadd, a: k, imm: 1 });
    emit(b, Op::Arg { val: next });
    emit(b, Op::Jump { block: header_bb });
    emit(b, Op::Seal { block: header_bb });
    emit(b, Op::Switch { block: exit_bb });
    emit(b, Op::Seal { block: exit_bb });
}

/// A loop over a list: an index runs from zero to the length that the list had.
pub open spec fn compile_for_loop_code(
    c: Code,
    cx: Env,
    e: Spanned<TypedExpr>,
    output: LoopOutput,
) -> (Option<usize>, Code)
    decreases e, 1int, 0int,
 {
    match loop_of(e) {
        Some((var, iterable, cond, body)) => {
            if iterable.item.ty@.is_range() {
                compile_for_loop_range_code(c, cx, e, output)
            } else if iterable.item.ty@.is_list() {
                let elem = iterable.item.ty@.elem();
                let (list, c) = transient_one_code(c, cx, iterable);
                let (ls, c) = leaves_code(c, cx, elem);
                let (len, c) = call_one_code(c, cx, "frog_list_len"@, list);
                let (stride, c) = list_stride_code(c, list);
                let (result, c) = loop_output_code(c, cx, output, len);
                let (header_bb, c) = put_code(c, Op::Block);
                let (body_bb, c) = put_code(c, Op::Block);
                let (exit_bb, c) = put_code(c, Op::Block);
                let (k, c) = put_code(c, Op::BlockParam { block: header_bb, ty: ClType::I64 });
                let (zero, c) = iconst_code(c, ClType::I64, 0);
                let c = emit_code(c, Op::Arg { val: zero });
                let c = emit_code(c, Op::Jump { block: header_bb });
                let c = emit_code(c, Op::Switch { block: header_bb });
                let (in_range, c) = put_code(c, Op::Compare { test: Test::Less, a: k, b: len });
                let c = emit_code(c, Op::Brif { cond: in_range, yes: body_bb, no: exit_bb });
                let c = emit_code(c, Op::Switch { block: body_bb });
                let c = emit_code(c, Op::Seal { block: body_bb });
                let (base_slot, c) = put_code(c, Op::Binary { op: BinOp::Imul, a: k, b: stride });
                let (base, c) = list_slot_addr_code(c, list, base_slot);
                let (vals, c) = load_words_at_code(c, base, ls);
                let tys = field_tys(ls);
                let c = declare_gc_leaves_code(c, vals, tys);
                let c = mark_shared_extracted_code(c, cx, elem, vals);
                let c = bind_vars_code(c, var@, vals, ls);
                let c = loop_guard_code(c, cx, cond, k, header_bb);
                let c = loop_body_code(c, cx, body, result, k, header_bb, exit_bb);
                (result, c)
            } else {
                let c = fail_code(c, Fault::IllTyped);
                (None::<usize>, c)
            }
        },
        None => {
            (None::<usize>, c)
        },
    }
}

pub(crate) fn compile_for_loop(
    b: &mut Builder,
    cx: &Ctx,
    e: &Spanned<TypedExpr>,
    output: LoopOutput,
) -> (r: Option<usize>)
    ensures
        (r, final(b)@) == compile_for_loop_code(old(b)@, cx@, *e, output),
    decreases e, 1int, 0int,
{
    match loop_view(e) {
        Some((var, iterable, cond, body)) => {
            if iterable.item.ty.is_range() {
                compile_for_loop_range(b, cx, e, output)
            } else if iterable.item.ty.is_list() {
                let elem = iterable.item.ty.as_list_elem().unwrap();
                let list: usize = transient_one(b, cx, iterable);
                let ls = leaf_list(b, cx, elem);
                let len: usize = call_one(b, cx, "frog_list_len", list);
                let stride: usize = list_stride(b, list);
                let result = loop_output(b, cx, output, len);
                let header_bb: usize = put(b, Op::Block);
                let body_bb: usize = put(b, Op::Block);
                let exit_bb: usize = put(b, Op::Block);
                let k: usize = put(b, Op::BlockParam { block: header_bb, ty: ClType::I64 });
                let zero: usize = iconst(b, ClType::I64, 0);
                emit(b, Op::Arg { val: zero });
                emit(b, Op::Jump { block: header_bb });
                emit(b, Op::Switch { block: header_bb });
                let in_range: usize = put(b, Op::Compare { test: Test::Less, a: k, b: len });
                emit(b, Op::Brif { cond: in_range, yes: body_bb, no: exit_bb });
                emit(b, Op::Switch { block: body_bb });
                emit(b, Op::Seal { block: body_bb });
                let base_slot: usize = put(b, Op::Binary { op: BinOp::Imul, a: k, b: stride });
                let base: usize = list_slot_addr(b, list, base_slot);
                let vals = load_words_at(b, base, &ls);
                let tys = leaf_types(&ls);
                declare_gc_leaves(b, &vals, &tys);
                mark_shared_extracted(b, cx, elem, &vals);
                bind_vars(b, var.as_str(), &vals, &ls);
                loop_guard(b, cx, cond, k, header_bb);
                loop_body(b, cx, body, result, k, header_bb, exit_bb);
                result
            } else {
                fail(b, Fault::IllTyped);
                None
            }
        },
        None => {
            None
        },
    }
}

/// A loop over a range: the element itself is counted up.
pub open spec fn compile_for_loop_range_code(
    c: Code,
    cx: Env,
    e: Spanned<TypedExpr>,
    output: LoopOutput,
) -> (Option<usize>, Code)
    decreases e, 0int, 0int,
 {
    match loop_of(e) {
        Some((var, iterable, cond, body)) => {
            let elem_ty = range_elem_of(iterable.item.ty@);
            let (bounds, c) = compile_expr_multi_code(c, cx, iterable);
            let (start, c) = at_code(c, bounds, 0);
            let (end, c) = at_code(c, bounds, 1);
            let (ls, c) = leaves_code(c, cx, elem_ty);
            let (zero, c) = iconst_code(c, ClType::I64, 0);
            let (diff, c) = put_code(c, Op::Binary { op: BinOp::Isub, a: end, b: start });
            let (is_neg, c) = put_code(c, Op::Compare { test: Test::Less, a: diff, b: zero });
            let (len, c) = put_code(c, Op::Select { cond: is_neg, a: zero, b: diff });
            let (result, c) = loop_output_code(c, cx, output, len);
            let (header_bb, c) = put_code(c, Op::Block);
            let (body_bb, c) = put_code(c, Op::Block);
            let (exit_bb, c) = put_code(c, Op::Block);
            let (k, c) = put_code(c, Op::BlockParam { block: header_bb, ty: ClType::I64 });
            let c = emit_code(c, Op::Arg { val: start });
            let c = emit_code(c, Op::Jump { block: header_bb });
            let c = emit_code(c, Op::Switch { block: header_bb });
            let (in_range, c) = put_code(c, Op::Compare { test: Test::Less, a: k, b: end });
            let c = emit_code(c, Op::Brif { cond: in_range, yes: body_bb, no: exit_bb });
            let c = emit_code(c, Op::Switch { block: body_bb });
            let c = emit_code(c, Op::Seal { block: body_bb });
            let c = bind_same_code(c, var@, k, ls);
            let c = loop_guard_code(c, cx, cond, k, header_bb);
            let c = loop_body_code(c, cx, body, result, k, header_bb, exit_bb);
            (result, c)
        },
        None => {
            (None::<usize>, c)
        },
    }
}

pub(crate) fn compile_for_loop_range(
    b: &mut Builder,
    cx: &Ctx,
    e: &Spanned<TypedExpr>,
    output: LoopOutput,
) -> (r: Option<usize>)
    ensures
        (r, final(b)@) == compile_for_loop_range_code(old(b)@, cx@, *e, output),
    decreases e, 0int, 0int,
{
    match loop_view(e) {
        Some((var, iterable, cond, body)) => {
            let elem_ty = range_elem_or_int(&iterable.item.ty);
            let bounds = compile_expr_multi(b, cx, iterable);
            let start: usize = at(b, &bounds, 0);
            let end: usize = at(b, &bounds, 1);
            let ls = leaf_list(b, cx, &elem_ty);
            let zero: usize = iconst(b, ClType::I64, 0);
            let diff: usize = put(b, Op::Binary { op: BinOp::Isub, a: end, b: start });
            let is_neg: usize = put(b, Op::Compare { test: Test::Less, a: diff, b: zero });
            let len: usize = put(b, Op::Select { cond: is_neg, a: zero, b: diff });
            let result = loop_output(b, cx, output, len);
            let header_bb: usize = put(b, Op::Block);
            let body_bb: usize = put(b, Op::Block);
            let exit_bb: usize = put(b, Op::Block);
            let k: usize = put(b, Op::BlockParam { block: header_bb, ty: ClType::I64 });
            emit(b, Op::Arg { val: start });
            emit(b, Op::Jump { block: header_bb });
            emit(b, Op::Switch { block: header_bb });
            let in_range: usize = put(b, Op::Compare { test: Test::Less, a: k, b: end });
            emit(b, Op::Brif { cond: in_range, yes: body_bb, no: exit_bb });
            emit(b, Op::Switch { block: body_bb });
            emit(b, Op::Seal { block: body_bb });
            bind_same(b, var.as_str(), k, &ls);
            loop_guard(b, cx, cond, k, header_bb);
            loop_body(b, cx, body, result, k, header_bb, exit_bb);
            result
        },
        None => {
            None
        },
    }
}

/// A comprehension: a loop that collects.
pub open spec fn compile_comprehension_code(c: Code, cx: Env, e: Spanned<TypedExpr>) -> (Seq<usize>, Code)
    decreases e, 2int, 0int,
 {
    match loop_of(e) {
        Some((var, iterable, cond, body)) => {
            let (ls, c) = leaves_code(c, cx, body.item.ty@);
            let tys = field_tys(ls);
            let (bits, c) = scan_mask_code(c, tys);
            let (list, c) = compile_for_loop_code(c, cx, e, LoopOutput::Collect { stride: least_one(ls.len()), bits });
            match list {
                Some(l) => {
                    single_code(c, l)
                },
                None => {
                    let c = fail_code(c, Fault::IllTyped);
                    zero_word_code(c)
                },
            }
        },
        None => {
            zero_word_code(c)
        },
    }
}

pub(crate) fn compile_comprehension(b: &mut Builder, cx: &Ctx, e: &Spanned<TypedExpr>) -> (r: Vec<usize>)
    ensures
        (r@, final(b)@) == compile_comprehension_code(old(b)@, cx@, *e),
    decreases e, 2int, 0int,
{
    match loop_view(e) {
        Some((var, iterable, cond, body)) => {
            let ls = leaf_list(b, cx, &body.item.ty);
            let tys = leaf_types(&ls);
            let bits = scan_mask(b, &tys);
            let list = compile_for_loop(b, cx, e, LoopOutput::Collect { stride: at_least_one(ls.len()), bits });
            match list {
                Some(l) => {
                    single(b, l)
                },
                None => {
                    fail(b, Fault::IllTyped);
                    zero_word(b)
                },
            }
        },
        None => {
            zero_word(b)
        },
    }
}

/// A loop that is run for its effect.
pub open spec fn compile_for_code(c: Code, cx: Env, e: Spanned<TypedExpr>) -> (Seq<usize>, Code)
    decreases e, 2int, 0int,
 {
    let (_, c) = compile_for_loop_code(c, cx, e, LoopOutput::Discard);
    zero_word_code(c)
}

pub(crate) fn compile_for(b: &mut Builder, cx: &Ctx, e: &Spanned<TypedExpr>) -> (r: Vec<usize>)
    ensures
        (r@, final(b)@) == compile_for_code(old(b)@, cx@, *e),
    decreases e, 2int, 0int,
{
    let _ = compile_for_loop(b, cx, e, LoopOutput::Discard);
    zero_word(b)
}

/// A value widened to another type.
pub open spec fn compile_coerce_code(c: Code, cx: Env, value: Spanned<TypedExpr>, to: Ty) -> (Seq<usize>, Code)
    decreases value, 8int, 0int,
 {
    let (v, c) = compile_expr_code(c, cx, value);
    let (w, c) = coerce_value_code(c, v, value.item.ty@, to);
    single_code(c, w)
}

pub(crate) fn compile_coerce(b: &mut Builder, cx: &Ctx, value: &Spanned<TypedExpr>, to: &Type) -> (r: Vec<usize>)
    ensures
        (r@, final(b)@) == compile_coerce_code(old(b)@, cx@, *value, to@),
    decreases value, 8int, 0int,
{
    let v: usize = compile_expr(b, cx, value);
    let w: usize = coerce_value(b, v, &value.item.ty, to);
    single(b, w)
}

/// The code of an expression: as many words as the leaves of its type. An
/// expression that never yields a value has none.
pub open spec fn compile_expr_multi_code(c: Code, cx: Env, e: Spanned<TypedExpr>) -> (Seq<usize>, Code)
    decreases e, 5int, 0int,
 {
    match e.item.kind {
        TypedExprKind::IntLit(v) => {
            let (w, c) = iconst_code(c, ClType::I64, v);
            single_code(c, w)
        },
        TypedExprKind::BoolLit(v) => {
            let (w, c) = iconst_code(c, ClType::I8, if v { 1i64 } else { 0i64 });
            single_code(c, w)
        },
        TypedExprKind::FloatLit(v) => {
            let (w, c) = put_code(c, Op::F64const { bits: v });
            single_code(c, w)
        },
        TypedExprKind::StrLit(s) => {
            alloc_str_code(c, cx, s@)
        },
        TypedExprKind::NoneLit => {
            let (w, c) = put_code(c, Op::NoneWord);
            single_code(c, w)
        },
        TypedExprKind::Var(name) => {
            let (vals, c) = read_var_raw_code(c, cx, name@, e.item.ty@);
            let c = mark_if_aliased_code(c, cx, e, vals);
            (vals, c)
        },
        TypedExprKind::Unary { op: _, expr: _ } => {
            compile_unary_code(c, cx, e)
        },
        TypedExprKind::Binary { op: _, left: _, right: _ } => {
            compile_binary_code(c, cx, e)
        },
        TypedExprKind::Conditional { cond: _, true_branch: _, false_branch: _ } => {
            compile_conditional_code(c, cx, e)
        },
        TypedExprKind::Call { callable: _, args: _ } => {
            compile_call_code(c, cx, e)
        },
        TypedExprKind::Index { target: _, index: _ } => {
            compile_index_code(c, cx, e)
        },
        TypedExprKind::Slice { target: _, start: _, end: _ } => {
            compile_slice_code(c, cx, e)
        },
        TypedExprKind::Range { start, end } => {
            let (from, c) = compile_expr_code(c, cx, *start);
            let (to, c) = compile_expr_code(c, cx, *end);
            (seq![from, to], c)
        },
        TypedExprKind::Assign { name, value } => {
            compile_assign_code(c, cx, name@, *value)
        },
        TypedExprKind::Block(stmts) => {
            let (init, c) = zero_word_code(c);
            lower_stmts_code(c, cx, stmts@, init)
        },
        TypedExprKind::Function { params: _, return_type: _, body: _ } => {
            zero_word_code(c)
        },
        TypedExprKind::List(elems) => {
            compile_list_lit_code(c, cx, e.item.ty@, elems@)
        },
        TypedExprKind::Dict(_) => {
            let c = fail_code(c, Fault::UnsupportedType);
            zero_word_code(c)
        },
        TypedExprKind::ForLoop { var: _, iterable: _, cond: _, body: _, iter_via: _ } => {
            compile_for_code(c, cx, e)
        },
        TypedExprKind::Comprehension { var: _, iterable: _, cond: _, body: _, iter_via: _ } => {
            compile_comprehension_code(c, cx, e)
        },
        TypedExprKind::StructInit { name: _, fields } => {
            lower_struct_code(c, cx, fields@)
        },
        TypedExprKind::FieldAccess { target: _, field: _, enum_name: _ } => {
            compile_field_access_code(c, cx, e)
        },
        TypedExprKind::PlaceAssign { place: _, value: _ } => {
            compile_place_assign_code(c, cx, e)
        },
        TypedExprKind::VariantInit { enum_name: _, variant: _, tag: _, fields: _ } => {
            compile_variant_init_code(c, cx, e)
        },
        TypedExprKind::IsVariant { target: _, enum_name: _, variant: _, tag: _ } => {
            compile_is_variant_code(c, cx, e)
        },
        TypedExprKind::VariantField { target: _, enum_name: _, variant: _, field: _ } => {
            compile_variant_field_code(c, cx, e)
        },
        TypedExprKind::Return(value) => {
            compile_return_code(c, cx, value)
        },
        TypedExprKind::Widen { value, tag } => {
            compile_widen_code(c, cx, e.item.ty@, *value, tag)
        },
        TypedExprKind::Narrow { value, tag: _ } => {
            compile_narrow_code(c, cx, e.item.ty@, *value)
        },
        TypedExprKind::TypeTag { target: _, tag: _ } => {
            compile_type_tag_code(c, cx, e)
        },
        TypedExprKind::Truthy(value) => {
            compile_truthy_code(c, cx, *value)
        },
        TypedExprKind::Coerce(value) => {
            compile_coerce_code(c, cx, *value, e.item.ty@)
        },
    }
}

pub(crate) fn compile_expr_multi(b: &mut Builder, cx: &Ctx, e: &Spanned<TypedExpr>) -> (r: Vec<usize>)
    ensures
        (r@, final(b)@) == compile_expr_multi_code(old(b)@, cx@, *e),
    decreases e, 5int, 0int,
{
    match &e.item.kind {
        TypedExprKind::IntLit(v) => {
            let w: usize = iconst(b, ClType::I64, *v);
            single(b, w)
        },
        TypedExprKind::BoolLit(v) => {
            let w: usize = iconst(b, ClType::I8, if *v { 1 } else { 0 });
            single(b, w)
        },
        TypedExprKind::FloatLit(v) => {
            let w: usize = put(b, Op::F64const { bits: *v });
            single(b, w)
        },
        TypedExprKind::StrLit(s) => {
            alloc_str(b, cx, s.as_str())
        },
        TypedExprKind::NoneLit => {
            let w: usize = put(b, Op::NoneWord);
            single(b, w)
        },
        TypedExprKind::Var(name) => {
            let vals = read_var_raw(b, cx, name.as_str(), &e.item.ty);
            mark_if_aliased(b, cx, e, &vals);
            vals
        },
        TypedExprKind::Unary { op: _, expr: _ } => {
            compile_unary(b, cx, e)
        },
        TypedExprKind::Binary { op: _, left: _, right: _ } => {
            compile_binary(b, cx, e)
        },
        TypedExprKind::Conditional { cond: _, true_branch: _, false_branch: _ } => {
            compile_conditional(b, cx, e)
        },
        TypedExprKind::Call { callable: _, args: _ } => {
            compile_call(b, cx, e)
        },
        TypedExprKind::Index { target: _, index: _ } => {
            compile_index(b, cx, e)
        },
        TypedExprKind::Slice { target: _, start: _, end: _ } => {
            compile_slice(b, cx, e)
        },
        TypedExprKind::Range { start, end } => {
            let from: usize = compile_expr(b, cx, &**start);
            let to: usize = compile_expr(b, cx, &**end);
            vec![from, to]
        },
        TypedExprKind::Assign { name, value } => {
            compile_assign(b, cx, name.as_str(), &**value)
        },
        TypedExprKind::Block(stmts) => {
            let init = zero_word(b);
            lower_stmts(b, cx, stmts, &init)
        },
        TypedExprKind::Function { params: _, return_type: _, body: _ } => {
            zero_word(b)
        },
        TypedExprKind::List(elems) => {
            compile_list_lit(b, cx, &e.item.ty, elems)
        },
        TypedExprKind::Dict(_) => {
            fail(b, Fault::UnsupportedType);
            zero_word(b)
        },
        TypedExprKind::ForLoop { var: _, iterable: _, cond: _, body: _, iter_via: _ } => {
            compile_for(b, cx, e)
        },
        TypedExprKind::Comprehension { var: _, iterable: _, cond: _, body: _, iter_via: _ } => {
            compile_comprehension(b, cx, e)
        },
        TypedExprKind::StructInit { name: _, fields } => {
            lower_struct(b, cx, fields)
        },
        TypedExprKind::FieldAccess { target: _, field: _, enum_name: _ } => {
            compile_field_access(b, cx, e)
        },
        TypedExprKind::PlaceAssign { place: _, value: _ } => {
            compile_place_assign(b, cx, e)
        },
        TypedExprKind::VariantInit { enum_name: _, variant: _, tag: _, fields: _ } => {
            compile_variant_init(b, cx, e)
        },
        TypedExprKind::IsVariant { target: _, enum_name: _, variant: _, tag: _ } => {
            compile_is_variant(b, cx, e)
        },
        TypedExprKind::VariantField { target: _, enum_name: _, variant: _, field: _ } => {
            compile_variant_field(b, cx, e)
        },
        TypedExprKind::Return(value) => {
            compile_return(b, cx, value)
        },
        TypedExprKind::Widen { value, tag } => {
            compile_widen(b, cx, &e.item.ty, &**value, *tag)
        },
        TypedExprKind::Narrow { value, tag: _ } => {
            compile_narrow(b, cx, &e.item.ty, &**value)
        },
        TypedExprKind::TypeTag { target: _, tag: _ } => {
            compile_type_tag(b, cx, e)
        },
        TypedExprKind::Truthy(value) => {
            compile_truthy(b, cx, &**value)
        },
        TypedExprKind::Coerce(value) => {
            compile_coerce(b, cx, &**value, &e.item.ty)
        },
    }
}

} // verus!
