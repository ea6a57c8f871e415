//! How values are laid out in machine words.
//!
//! A struct is a run of named leaves. A union that is small and does not
//! contain itself is laid out inline, as columns that all its members share:
//! a column either may hold a heap pointer or never does, whichever member is
//! held. Every other union is one word.
use crate::text::{decimal, decimal_of, joined};
use crate::types::{
    field_tys, field_views, find_struct, type_views, type_views_index, Defs, FieldView, StructDefs, Ty, Type,
};
use vstd::prelude::*;
use vstd::string::StringExecFns;

verus! {

/// The largest number of members that an inline union can have. A member's
/// tag occupies the low three bits of the tag word, where zero is a plain
/// pointer and seven an immediate.
pub const MAX_INLINE_UNION_MEMBERS: usize = 6;

/// Whether a word of type `t` is one that the collector reads.
pub open spec fn heap(t: Ty) -> bool {
    t is Str || t is Union || t.is_list()
}

/// Whether a word of this type is one that the collector reads: a string, a
/// list, or a column that a union's member may put a pointer in.
pub fn is_heap_ty(ty: &Type) -> (r: bool)
    ensures
        r == heap(ty@),
{
    match ty {
        Type::Str => true,
        Type::Union(_) => true,
        _ => ty.is_list(),
    }
}

/// Whether a word of type `t` has tag bits to spare.
pub open spec fn taggable(t: Ty) -> bool {
    t is Str || t.is_list()
}

/// Whether a word of this type has no tag of its own, so that an enclosing
/// union may put its member's tag into the spare low bits.
pub fn overlay_safe(leaf_ty: &Type) -> (r: bool)
    ensures
        r == taggable(leaf_ty@),
{
    match leaf_ty {
        Type::Str => true,
        _ => leaf_ty.is_list(),
    }
}

/// The run-time tag of the member at `index` of an inline union.
pub fn member_tag(index: usize) -> (r: u32)
    requires
        index < u32::MAX,
    ensures
        r == index + 1,
{
    (index + 1) as u32
}

// ── Which structs are still to be entered ────────────────────────────────

/// How many of the declared structs are not on `path`.
pub open spec fn unvisited(defs: Defs, path: Seq<Ty>) -> nat
    decreases defs.len(),
{
    if defs.len() == 0 {
        0
    } else {
        unvisited(defs.skip(1), path) + if path.contains(defs[0].0) {
            0nat
        } else {
            1nat
        }
    }
}

pub proof fn unvisited_shrinks(defs: Defs, path: Seq<Ty>, t: Ty)
    ensures
        unvisited(defs, path.push(t)) <= unvisited(defs, path),
        find_struct(defs, t) is Some && !path.contains(t) ==> unvisited(defs, path.push(t)) < unvisited(defs, path),
    decreases defs.len(),
{
    assert(path.push(t).last() == t);
    if defs.len() > 0 {
        unvisited_shrinks(defs.skip(1), path, t);
        let u = defs[0].0;
        if path.contains(u) {
            let k = choose|k: int| 0 <= k < path.len() && path[k] == u;
            assert(path.push(t)[k] == u);
        }
        if path.push(t).contains(u) && u != t {
            let k = choose|k: int| 0 <= k < path.push(t).len() && path.push(t)[k] == u;
            assert(path[k] == u);
        }
    }
}

// ── Unions that contain themselves ───────────────────────────────────────

/// Whether the union of `target` is reached from `t` by following union
/// members and struct fields, without entering a struct of `path` again. A
/// list is a pointer whatever it holds, so nothing is reached through one.
pub open spec fn reaches(target: Seq<Ty>, t: Ty, defs: Defs, path: Seq<Ty>) -> bool
    decreases unvisited(defs, path), t,
{
    if t.is_struct() {
        if path.contains(t) {
            false
        } else {
            match find_struct(defs, t) {
                None => false,
                Some(fs) => {
                    proof {
                        unvisited_shrinks(defs, path, t);
                    }
                    any_reaches(target, field_tys(fs), defs, path.push(t))
                },
            }
        }
    } else {
        match t {
            Ty::Union(ms) => ms == target || any_reaches(target, ms, defs, path),
            _ => false,
        }
    }
}

/// Whether the union of `target` is reached from one of `ts`.
pub open spec fn any_reaches(target: Seq<Ty>, ts: Seq<Ty>, defs: Defs, path: Seq<Ty>) -> bool
    decreases unvisited(defs, path), ts,
{
    if ts.len() == 0 {
        false
    } else {
        any_reaches(target, ts.drop_last(), defs, path) || reaches(target, ts.last(), defs, path)
    }
}

/// Whether the union of `members` is laid out inline.
pub open spec fn unboxed(members: Seq<Ty>, defs: Defs) -> bool {
    members.len() <= MAX_INLINE_UNION_MEMBERS && !any_reaches(members, members, defs, Seq::empty())
}


fn on_path(path: &Vec<Type>, ty: &Type) -> (r: bool)
    ensures
        r == type_views(path@).contains(ty@),
{
    proof {
        type_views_index(path@);
    }
    let mut i: usize = 0;
    while i < path.len()
        invariant
            i <= path.len() == type_views(path@).len(),
            forall|k: int| 0 <= k < path.len() ==> #[trigger] type_views(path@)[k] == path@[k]@,
            forall|k: int| 0 <= k < i ==> #[trigger] type_views(path@)[k] != ty@,
        decreases path.len() - i,
    {
        if path[i].same(ty) {
            assert(type_views(path@)[i as int] == ty@);
            return true;
        }
        i = i + 1;
    }
    false
}

pub proof fn type_views_push(ts: Seq<Type>, t: Type)
    ensures
        type_views(ts.push(t)) == type_views(ts).push(t@),
{
    assert(ts.push(t).drop_last() =~= ts);
}

fn reaches_at(target: &Vec<Type>, ty: &Type, structs: &StructDefs, path: &mut Vec<Type>) -> (r: bool)
    ensures
        r == reaches(type_views(target@), ty@, structs@, type_views(old(path)@)),
        type_views(final(path)@) == type_views(old(path)@),
    decreases unvisited(structs@, type_views(old(path)@)), ty, 1int,
{
    if ty.is_struct() {
        if on_path(path, ty) {
            return false;
        }
        match structs.get(ty) {
            None => false,
            Some(fields) => {
                let ghost before = path@;
                path.push(ty.dup());
                proof {
                    type_views_push(before, path@.last());
                    unvisited_shrinks(structs@, type_views(before), ty@);
                }
                let hit = any_field_reaches(target, fields, structs, path);
                let ghost pushed = path@;
                path.pop();
                proof {
                    type_views_index(pushed);
                    assert(path@ =~= pushed.drop_last());
                    type_views_index(path@);
                    type_views_index(before);
                    assert(type_views(path@) =~= type_views(before).push(ty@).drop_last());
                    assert(type_views(path@) =~= type_views(before));
                }
                hit
            },
        }
    } else {
        match ty {
            Type::Union(ms) => same_members(ms, target) || any_type_reaches(target, ms, structs, path),
            _ => false,
        }
    }
}

fn same_members(a: &Vec<Type>, b: &Vec<Type>) -> (r: bool)
    ensures
        r == (type_views(a@) == type_views(b@)),
{
    crate::types::same_types(a, b)
}

fn any_field_reaches(
    target: &Vec<Type>,
    fields: &Vec<(String, Type)>,
    structs: &StructDefs,
    path: &mut Vec<Type>,
) -> (r: bool)
    ensures
        r == any_reaches(
            type_views(target@),
            field_tys(field_views(fields@)),
            structs@,
            type_views(old(path)@),
        ),
        type_views(final(path)@) == type_views(old(path)@),
    decreases unvisited(structs@, type_views(old(path)@)), fields, 0int,
{
    let ghost tv = type_views(target@);
    let ghost pv = type_views(path@);
    let ghost ts = field_tys(field_views(fields@));
    let mut hit = false;
    let mut i: usize = 0;
    while i < fields.len()
        invariant
            i <= fields.len(),
            tv == type_views(target@),
            pv == type_views(path@),
            pv == type_views(old(path)@),
            ts == field_tys(field_views(fields@)),
            hit == any_reaches(tv, ts.take(i as int), structs@, pv),
        decreases fields.len() - i,
    {
        let here = reaches_at(target, &fields[i].1, structs, path);
        proof {
            assert(ts.take(i + 1).drop_last() =~= ts.take(i as int));
            assert(ts.take(i + 1).last() == fields@[i as int].1@);
        }
        hit = hit || here;
        i = i + 1;
    }
    assert(ts.take(i as int) =~= ts);
    hit
}

fn any_type_reaches(target: &Vec<Type>, types: &Vec<Type>, structs: &StructDefs, path: &mut Vec<Type>) -> (r: bool)
    ensures
        r == any_reaches(type_views(target@), type_views(types@), structs@, type_views(old(path)@)),
        type_views(final(path)@) == type_views(old(path)@),
    decreases unvisited(structs@, type_views(old(path)@)), types, 0int,
{
    let ghost tv = type_views(target@);
    let ghost pv = type_views(path@);
    let ghost ts = type_views(types@);
    proof {
        type_views_index(types@);
    }
    let mut hit = false;
    let mut i: usize = 0;
    while i < types.len()
        invariant
            i <= types.len() == ts.len(),
            tv == type_views(target@),
            pv == type_views(path@),
            pv == type_views(old(path)@),
            forall|k: int| 0 <= k < types.len() ==> #[trigger] ts[k] == types@[k]@,
            hit == any_reaches(tv, ts.take(i as int), structs@, pv),
        decreases types.len() - i,
    {
        let here = reaches_at(target, &types[i], structs, path);
        proof {
            assert(ts.take(i + 1).drop_last() =~= ts.take(i as int));
            assert(ts.take(i + 1).last() == ts[i as int]);
        }
        hit = hit || here;
        i = i + 1;
    }
    assert(ts.take(i as int) =~= ts);
    hit
}

/// Whether the union of these members is laid out inline rather than boxed:
/// there are tags enough for its members, and it does not contain itself.
pub fn union_is_inline(members: &Vec<Type>, structs: &StructDefs) -> (r: bool)
    ensures
        r == unboxed(type_views(members@), structs@),
{
    proof {
        type_views_index(members@);
    }
    let mut path: Vec<Type> = Vec::new();
    assert(type_views(path@) =~= Seq::<Ty>::empty());
    members.len() <= MAX_INLINE_UNION_MEMBERS && !any_type_reaches(members, members, structs, &mut path)
}

// ── Columns of an inline union ───────────────────────────────────────────

/// The layout of an inline union, in counts of columns.
pub ghost struct Columns {
    pub ptrs: nat,
    pub ptrs_used: nat,
    pub scalars: nat,
    pub dedicated_tag: bool,
}

impl Columns {
    /// The column of a member's pointer leaf `i`.
    pub open spec fn ptr_slot(self, i: int) -> int {
        if self.dedicated_tag {
            1 + i
        } else {
            i
        }
    }

    /// One past the last pointer column.
    pub open spec fn ptr_end(self) -> int {
        if self.dedicated_tag {
            (1 + self.ptrs) as int
        } else {
            self.ptrs as int
        }
    }

    /// The column of a member's scalar leaf `i`.
    pub open spec fn scalar_slot(self, i: int) -> int {
        self.ptr_end() + i
    }

    /// The number of columns.
    pub open spec fn width(self) -> int {
        self.ptr_end() + self.scalars
    }

    /// Whether column `i` can ever hold a heap pointer.
    pub open spec fn scannable(self, i: int) -> bool {
        i < self.ptr_end() && if self.dedicated_tag {
            i >= 1
        } else {
            self.ptrs_used > 0
        }
    }
}

/// The layout of an inline union. Its columns are, in order, the pointer
/// columns and the scalar columns; the member's tag stands in column 0, which
/// it has to itself where `dedicated_tag` is set.
#[derive(Clone, Copy, Debug, PartialEq, Eq)]
pub struct UnionLayout {
    /// Number of pointer columns.
    pub ptrs: usize,
    /// The widest member's number of pointer leaves; zero where no member
    /// holds a pointer at all.
    pub ptrs_used: usize,
    /// Number of scalar columns.
    pub scalars: usize,
    /// Whether the tag has a column to itself.
    pub dedicated_tag: bool,
}

impl View for UnionLayout {
    type V = Columns;

    open spec fn view(&self) -> Columns {
        Columns {
            ptrs: self.ptrs as nat,
            ptrs_used: self.ptrs_used as nat,
            scalars: self.scalars as nat,
            dedicated_tag: self.dedicated_tag,
        }
    }
}

impl UnionLayout {
    /// The column of a member's pointer leaf `i`.
    pub fn ptr_slot(&self, i: usize) -> (r: usize)
        requires
            self@.ptr_slot(i as int) <= usize::MAX,
        ensures
            r == self@.ptr_slot(i as int),
    {
        if self.dedicated_tag {
            1 + i
        } else {
            i
        }
    }

    /// The column of a member's scalar leaf `i`.
    pub fn scalar_slot(&self, i: usize) -> (r: usize)
        requires
            self@.scalar_slot(i as int) <= usize::MAX,
        ensures
            r == self@.scalar_slot(i as int),
    {
        self.ptr_end() + i
    }

    /// One past the last pointer column.
    pub fn ptr_end(&self) -> (r: usize)
        requires
            self@.ptr_end() <= usize::MAX,
        ensures
            r == self@.ptr_end(),
    {
        if self.dedicated_tag {
            1 + self.ptrs
        } else {
            self.ptrs
        }
    }

    /// The number of columns.
    pub fn width(&self) -> (r: usize)
        requires
            self@.width() <= usize::MAX,
        ensures
            r == self@.width(),
    {
        self.ptr_end() + self.scalars
    }

    /// Whether the tag shares column 0 with a pointer.
    pub fn tag_shares_slot0(&self) -> (r: bool)
        ensures
            r == !self@.dedicated_tag,
    {
        !self.dedicated_tag
    }

    /// Whether column `i` can ever hold a heap pointer.
    pub fn slot_is_scannable(&self, i: usize) -> (r: bool)
        requires
            self@.ptr_end() <= usize::MAX,
        ensures
            r == self@.scannable(i as int),
    {
        if i >= self.ptr_end() {
            return false;
        }
        if self.dedicated_tag {
            i >= 1
        } else {
            self.ptrs_used > 0
        }
    }
}

/// How many of these leaves are pointers.
pub open spec fn ptr_count(ls: Seq<Ty>) -> nat
    decreases ls.len(),
{
    if ls.len() == 0 {
        0
    } else {
        ptr_count(ls.drop_last()) + if heap(ls.last()) {
            1nat
        } else {
            0nat
        }
    }
}

/// How many of these leaves are scalars.
pub open spec fn scalar_count(ls: Seq<Ty>) -> nat {
    (ls.len() - ptr_count(ls)) as nat
}

/// Whether the first pointer among these leaves has a tag of its own.
pub open spec fn first_ptr_tagged(ls: Seq<Ty>) -> bool {
    exists|i: int|
        0 <= i < ls.len() && #[trigger] heap(ls[i]) && !taggable(ls[i]) && ptr_count(ls.take(i)) == 0
}

/// The most pointers that any of the members has.
pub open spec fn max_ptrs(members: Seq<Seq<Ty>>) -> nat
    decreases members.len(),
{
    if members.len() == 0 {
        0
    } else {
        let rest = max_ptrs(members.drop_last());
        let own = ptr_count(members.last());
        if own > rest {
            own
        } else {
            rest
        }
    }
}

/// The most scalars that any of the members has.
pub open spec fn max_scalars(members: Seq<Seq<Ty>>) -> nat
    decreases members.len(),
{
    if members.len() == 0 {
        0
    } else {
        let rest = max_scalars(members.drop_last());
        let own = scalar_count(members.last());
        if own > rest {
            own
        } else {
            rest
        }
    }
}

/// Whether some member's first pointer has a tag of its own, so that the
/// union's tag needs a column to itself.
pub open spec fn needs_tag_column(members: Seq<Seq<Ty>>) -> bool {
    exists|m: int| 0 <= m < members.len() && #[trigger] first_ptr_tagged(members[m])
}

/// The layout of an inline union, from the leaves of its members.
pub open spec fn columns_of(members: Seq<Seq<Ty>>) -> Columns {
    let used = max_ptrs(members);
    let dedicated = needs_tag_column(members);
    Columns {
        ptrs: if !dedicated && used == 0 {
            1
        } else {
            used
        },
        ptrs_used: used,
        scalars: max_scalars(members),
        dedicated_tag: dedicated,
    }
}


// ── Leaves of a value ────────────────────────────────────────────────────

/// The path of a leaf below the field `name`.
pub open spec fn dotted(name: Seq<char>, sub: Seq<char>) -> Seq<char> {
    if sub.len() == 0 {
        name
    } else {
        name.push('.') + sub
    }
}

/// `ls` as the leaves below the field `name`.
pub open spec fn below(name: Seq<char>, ls: Seq<FieldView>) -> Seq<FieldView> {
    ls.map_values(|l: FieldView| (dotted(name, l.0), l.1))
}

/// The leaves of an inline union of type `t`: its columns. A column that may
/// hold a pointer has the union's own type, every other one is an integer.
pub open spec fn column_leaves(t: Ty, c: Columns) -> Seq<FieldView> {
    Seq::new(
        c.ptr_end() as nat,
        |i: int|
            (seq!['$', 'p'] + decimal(i as nat), if c.scannable(i) {
                t
            } else {
                Ty::Int
            }),
    ) + Seq::new(c.scalars, |i: int| (seq!['$', 's'] + decimal(i as nat), Ty::Int))
}

/// The leaves that a value of type `t` is flattened into, in order. There is
/// no layout where a struct of `path` would have to be entered again, because
/// it would not be finite, nor where a union has more columns than can be
/// counted.
pub open spec fn leaves(t: Ty, defs: Defs, path: Seq<Ty>) -> Option<Seq<FieldView>>
    decreases unvisited(defs, path), t,
{
    if t.is_struct() {
        match find_struct(defs, t) {
            None => Some(Seq::empty()),
            Some(fs) => if path.contains(t) {
                None
            } else {
                proof {
                    unvisited_shrinks(defs, path, t);
                }
                struct_leaves(fs, defs, path.push(t))
            },
        }
    } else {
        match t {
            Ty::Union(ms) => if unboxed(ms, defs) {
                match member_leaves(ms, defs, path) {
                    None => None,
                    Some(mls) => if columns_of(mls).width() <= usize::MAX {
                        Some(column_leaves(t, columns_of(mls)))
                    } else {
                        None
                    },
                }
            } else {
                Some(seq![(Seq::<char>::empty(), t)])
            },
            _ => Some(seq![(Seq::<char>::empty(), t)]),
        }
    }
}

/// The leaves of a run of fields.
pub open spec fn struct_leaves(fs: Seq<FieldView>, defs: Defs, path: Seq<Ty>) -> Option<Seq<FieldView>>
    decreases unvisited(defs, path), fs,
{
    if fs.len() == 0 {
        Some(Seq::empty())
    } else {
        match (struct_leaves(fs.drop_last(), defs, path), leaves(fs.last().1, defs, path)) {
            (Some(a), Some(b)) => Some(a + below(fs.last().0, b)),
            _ => None,
        }
    }
}

/// Whether a member of this type carries nothing but its tag.
pub open spec fn payload_less(t: Ty) -> bool {
    t is Nil || t is Never
}

/// The types of each member's leaves.
pub open spec fn member_leaves(ms: Seq<Ty>, defs: Defs, path: Seq<Ty>) -> Option<Seq<Seq<Ty>>>
    decreases unvisited(defs, path), ms,
{
    if ms.len() == 0 {
        Some(Seq::empty())
    } else {
        let last = if payload_less(ms.last()) {
            Some(Seq::empty())
        } else {
            match leaves(ms.last(), defs, path) {
                None => None,
                Some(ls) => Some(field_tys(ls)),
            }
        };
        match (member_leaves(ms.drop_last(), defs, path), last) {
            (Some(a), Some(b)) => Some(a.push(b)),
            _ => None,
        }
    }
}

/// Whether values of type `t` have a layout at all.
pub open spec fn lays_out(t: Ty, defs: Defs) -> bool {
    leaves(t, defs, Seq::empty()) is Some
}

/// The leaves of a value of type `t` that has a layout.
pub open spec fn leaves_of(t: Ty, defs: Defs) -> Seq<FieldView> {
    leaves(t, defs, Seq::empty())->0
}

fn dotted_name(name: &String, sub: &String) -> (r: String)
    ensures
        r@ == dotted(name@, sub@),
{
    if sub.as_str().is_empty() {
        name.clone()
    } else {
        let mut out = name.clone();
        out.push('.');
        out.append(sub.as_str());
        out
    }
}

fn column_name(prefix: &str, i: usize) -> (r: String)
    ensures
        r@ == prefix@ + decimal(i as nat),
{
    let d = decimal_of(i);
    joined(prefix, d.as_str())
}

fn column_vec(ty: &Type, l: &UnionLayout) -> (r: Vec<(String, Type)>)
    requires
        l@.width() <= usize::MAX,
    ensures
        field_views(r@) == column_leaves(ty@, l@),
{
    let ghost all = column_leaves(ty@, l@);
    let mut out: Vec<(String, Type)> = Vec::new();
    let end: usize = l.ptr_end();
    proof {
        reveal_strlit("$p");
        reveal_strlit("$s");
        assert("$p"@ =~= seq!['$', 'p']);
        assert("$s"@ =~= seq!['$', 's']);
    }
    let mut i: usize = 0;
    while i < end
        invariant
            i <= end == l@.ptr_end(),
            "$p"@ == seq!['$', 'p'],
            all == column_leaves(ty@, l@),
            field_views(out@) =~= all.take(i as int),
        decreases end - i,
    {
        let col = if l.slot_is_scannable(i) {
            ty.dup()
        } else {
            Type::Int
        };
        let ghost before = out@;
        out.push((column_name("$p", i), col));
        assert(field_views(out@) =~= field_views(before).push(all[i as int]));
        assert(all.take(i + 1) =~= all.take(i as int).push(all[i as int]));
        i = i + 1;
    }
    let mut k: usize = 0;
    while k < l.scalars
        invariant
            k <= l.scalars == l@.scalars,
            "$s"@ == seq!['$', 's'],
            all == column_leaves(ty@, l@),
            field_views(out@) =~= all.take(l@.ptr_end() + k),
        decreases l.scalars - k,
    {
        let ghost before = out@;
        out.push((column_name("$s", k), Type::Int));
        assert(field_views(out@) =~= field_views(before).push(all[l@.ptr_end() + k]));
        assert(all.take(l@.ptr_end() + k + 1) =~= all.take(l@.ptr_end() + k).push(all[l@.ptr_end() + k]));
        k = k + 1;
    }
    assert(all.take(all.len() as int) =~= all);
    out
}


/// The types of a run of leaves.
pub fn leaf_types(ls: &Vec<(String, Type)>) -> (r: Vec<Type>)
    ensures
        type_views(r@) == field_tys(field_views(ls@)),
{
    let ghost all = field_tys(field_views(ls@));
    let mut out: Vec<Type> = Vec::new();
    let mut i: usize = 0;
    while i < ls.len()
        invariant
            i <= ls.len() == all.len(),
            all == field_tys(field_views(ls@)),
            type_views(out@) =~= all.take(i as int),
        decreases ls.len() - i,
    {
        let ghost before = out@;
        out.push(ls[i].1.dup());
        proof {
            type_views_push(before, out@.last());
            assert(all.take(i + 1) =~= all.take(i as int).push(all[i as int]));
        }
        i = i + 1;
    }
    assert(all.take(all.len() as int) =~= all);
    out
}

/// What one member's leaves ask of an inline union's layout.
struct Demand {
    ptrs: usize,
    scalars: usize,
    tagged: bool,
}

pub proof fn ptr_count_bound(ls: Seq<Ty>)
    ensures
        ptr_count(ls) <= ls.len(),
    decreases ls.len(),
{
    if ls.len() > 0 {
        ptr_count_bound(ls.drop_last());
    }
}

/// Counts one member's pointer and scalar leaves, and looks at the first
/// pointer among them.
fn demand_of(ls: &Vec<Type>) -> (r: Demand)
    ensures
        r.ptrs == ptr_count(type_views(ls@)),
        r.scalars == scalar_count(type_views(ls@)),
        r.tagged == first_ptr_tagged(type_views(ls@)),
{
    let ghost all = type_views(ls@);
    proof {
        type_views_index(ls@);
    }
    let mut ptrs: usize = 0;
    let mut tagged = false;
    let mut i: usize = 0;
    while i < ls.len()
        invariant
            i <= ls.len() == all.len(),
            forall|k: int| 0 <= k < ls.len() ==> #[trigger] all[k] == ls@[k]@,
            ptrs == ptr_count(all.take(i as int)),
            ptrs <= i,
            tagged == exists|k: int|
                0 <= k < i && #[trigger] heap(all[k]) && !taggable(all[k]) && ptr_count(all.take(k)) == 0,
        decreases ls.len() - i,
    {
        proof {
            assert(all.take(i + 1).drop_last() =~= all.take(i as int));
            assert(all.take(i + 1).last() == all[i as int]);
        }
        if is_heap_ty(&ls[i]) {
            assert(heap(all[i as int]));
            if ptrs == 0 && !overlay_safe(&ls[i]) {
                tagged = true;
            }
            ptrs = ptrs + 1;
        }
        i = i + 1;
    }
    assert(all.take(all.len() as int) =~= all);
    Demand { ptrs, scalars: ls.len() - ptrs, tagged }
}

/// The leaves that a value of this type is flattened into, where it has a
/// layout.
pub fn flatten(ty: &Type, structs: &StructDefs) -> (r: Option<Vec<(String, Type)>>)
    ensures
        r is Some == lays_out(ty@, structs@),
        r is Some ==> field_views(r->0@) == leaves_of(ty@, structs@),
{
    let mut path: Vec<Type> = Vec::new();
    assert(type_views(path@) =~= Seq::<Ty>::empty());
    flatten_at(ty, structs, &mut path)
}

fn flatten_at(ty: &Type, structs: &StructDefs, path: &mut Vec<Type>) -> (r: Option<Vec<(String, Type)>>)
    ensures
        r is Some == leaves(ty@, structs@, type_views(old(path)@)) is Some,
        r is Some ==> field_views(r->0@) == leaves(ty@, structs@, type_views(old(path)@))->0,
        type_views(final(path)@) == type_views(old(path)@),
    decreases unvisited(structs@, type_views(old(path)@)), ty, 1int,
{
    if ty.is_struct() {
        match structs.get(ty) {
            None => {
                let out: Vec<(String, Type)> = Vec::new();
                assert(field_views(out@) =~= Seq::<FieldView>::empty());
                Some(out)
            },
            Some(fields) => {
                if on_path(path, ty) {
                    return None;
                }
                let ghost before = path@;
                path.push(ty.dup());
                proof {
                    type_views_push(before, path@.last());
                    unvisited_shrinks(structs@, type_views(before), ty@);
                }
                let out = flatten_fields(fields, structs, path);
                let ghost pushed = path@;
                path.pop();
                proof {
                    type_views_index(pushed);
                    assert(path@ =~= pushed.drop_last());
                    type_views_index(path@);
                    type_views_index(before);
                    assert(type_views(path@) =~= type_views(before).push(ty@).drop_last());
                    assert(type_views(path@) =~= type_views(before));
                }
                out
            },
        }
    } else {
        match ty {
            Type::Union(ms) => {
                if union_is_inline(ms, structs) {
                    match layout_at(ms, structs, path) {
                        None => None,
                        Some(l) => Some(column_vec(ty, &l)),
                    }
                } else {
                    Some(one_leaf(ty))
                }
            },
            _ => Some(one_leaf(ty)),
        }
    }
}

fn one_leaf(ty: &Type) -> (r: Vec<(String, Type)>)
    ensures
        field_views(r@) == seq![(Seq::<char>::empty(), ty@)],
{
    let mut out: Vec<(String, Type)> = Vec::new();
    out.push((String::new(), ty.dup()));
    assert(field_views(out@) =~= seq![(Seq::<char>::empty(), ty@)]);
    out
}

fn append_below(out: &mut Vec<(String, Type)>, name: &String, ls: &Vec<(String, Type)>)
    ensures
        field_views(final(out)@) == field_views(old(out)@) + below(name@, field_views(ls@)),
{
    let ghost start = field_views(out@);
    let ghost all = below(name@, field_views(ls@));
    let mut i: usize = 0;
    while i < ls.len()
        invariant
            i <= ls.len() == all.len(),
            all == below(name@, field_views(ls@)),
            field_views(out@) =~= start + all.take(i as int),
        decreases ls.len() - i,
    {
        let ghost before = out@;
        out.push((dotted_name(name, &ls[i].0), ls[i].1.dup()));
        proof {
            assert(field_views(out@) =~= field_views(before).push(all[i as int]));
            assert(all.take(i + 1) =~= all.take(i as int).push(all[i as int]));
        }
        i = i + 1;
    }
    assert(all.take(all.len() as int) =~= all);
}

fn flatten_fields(fields: &Vec<(String, Type)>, structs: &StructDefs, path: &mut Vec<Type>) -> (r: Option<
    Vec<(String, Type)>,
>)
    ensures
        r is Some == struct_leaves(field_views(fields@), structs@, type_views(old(path)@)) is Some,
        r is Some ==> field_views(r->0@) == struct_leaves(
            field_views(fields@),
            structs@,
            type_views(old(path)@),
        )->0,
        type_views(final(path)@) == type_views(old(path)@),
    decreases unvisited(structs@, type_views(old(path)@)), fields, 0int,
{
    let ghost pv = type_views(path@);
    let ghost fs = field_views(fields@);
    let mut out: Vec<(String, Type)> = Vec::new();
    let mut ok = true;
    let mut i: usize = 0;
    assert(field_views(out@) =~= Seq::<FieldView>::empty());
    while i < fields.len()
        invariant
            i <= fields.len() == fs.len(),
            fs == field_views(fields@),
            pv == type_views(path@),
            pv == type_views(old(path)@),
            ok == struct_leaves(fs.take(i as int), structs@, pv) is Some,
            ok ==> field_views(out@) == struct_leaves(fs.take(i as int), structs@, pv)->0,
        decreases fields.len() - i,
    {
        let sub = flatten_at(&fields[i].1, structs, path);
        proof {
            assert(fs.take(i + 1).drop_last() =~= fs.take(i as int));
            assert(fs.take(i + 1).last() == fs[i as int]);
        }
        match sub {
            None => {
                ok = false;
            },
            Some(ls) => {
                append_below(&mut out, &fields[i].0, &ls);
            },
        }
        i = i + 1;
    }
    assert(fs.take(i as int) =~= fs);
    if ok { Some(out) } else { None }
}

/// One past `a`, where that can be counted together with `b`.
fn counted(l: &UnionLayout) -> (r: bool)
    ensures
        r == (l@.width() <= usize::MAX),
{
    if l.dedicated_tag && l.ptrs == usize::MAX {
        false
    } else {
        l.scalars <= usize::MAX - l.ptr_end()
    }
}

fn layout_at(ms: &Vec<Type>, structs: &StructDefs, path: &mut Vec<Type>) -> (r: Option<UnionLayout>)
    ensures
        ({
            let mls = member_leaves(type_views(ms@), structs@, type_views(old(path)@));
            &&& r is Some == (mls is Some && columns_of(mls->0).width() <= usize::MAX)
            &&& r is Some ==> r->0@ == columns_of(mls->0)
        }),
        type_views(final(path)@) == type_views(old(path)@),
    decreases unvisited(structs@, type_views(old(path)@)), ms, 0int,
{
    let ghost pv = type_views(path@);
    let ghost ts = type_views(ms@);
    proof {
        type_views_index(ms@);
    }
    let ghost mut mls: Seq<Seq<Ty>> = Seq::empty();
    let mut ptrs: usize = 0;
    let mut scalars: usize = 0;
    let mut dedicated_tag = false;
    let mut ok = true;
    let mut i: usize = 0;
    while i < ms.len()
        invariant
            i <= ms.len() == ts.len(),
            forall|k: int| 0 <= k < ms.len() ==> #[trigger] ts[k] == ms@[k]@,
            pv == type_views(path@),
            pv == type_views(old(path)@),
            ok == member_leaves(ts.take(i as int), structs@, pv) is Some,
            ok ==> mls == member_leaves(ts.take(i as int), structs@, pv)->0,
            ok ==> ptrs == max_ptrs(mls),
            ok ==> scalars == max_scalars(mls),
            ok ==> dedicated_tag == needs_tag_column(mls),
        decreases ms.len() - i,
    {
        proof {
            assert(ts.take(i + 1).drop_last() =~= ts.take(i as int));
            assert(ts.take(i + 1).last() == ts[i as int]);
        }
        let empty: Vec<Type> = Vec::new();
        let own: Option<Vec<Type>> = match &ms[i] {
            Type::Nil => Some(empty),
            Type::Never => Some(empty),
            m => match flatten_at(m, structs, path) {
                None => None,
                Some(ls) => Some(leaf_types(&ls)),
            },
        };
        match own {
            None => {
                ok = false;
            },
            Some(ls) => {
                let d = demand_of(&ls);
                let ghost before = mls;
                proof {
                    let v = type_views(ls@);
                    mls = before.push(v);
                    assert(mls.drop_last() =~= before);
                    assert(payload_less(ts[i as int]) ==> v =~= Seq::<Ty>::empty());
                    assert forall|k: int| 0 <= k < before.len() implies mls[k] == before[k] by {}
                    assert(mls[before.len() as int] == v);
                    assert(needs_tag_column(mls) == (needs_tag_column(before) || first_ptr_tagged(v))) by {
                        if needs_tag_column(before) {
                            let m = choose|m: int| 0 <= m < before.len() && #[trigger] first_ptr_tagged(before[m]);
                            assert(first_ptr_tagged(mls[m]));
                        }
                        if first_ptr_tagged(v) {
                            assert(first_ptr_tagged(mls[before.len() as int]));
                        }
                    }
                }
                if d.ptrs > ptrs {
                    ptrs = d.ptrs;
                }
                if d.scalars > scalars {
                    scalars = d.scalars;
                }
                if d.tagged {
                    dedicated_tag = true;
                }
            },
        }
        i = i + 1;
    }
    assert(ts.take(i as int) =~= ts);
    if !ok {
        return None;
    }
    let ptrs_used: usize = ptrs;
    if !dedicated_tag && ptrs == 0 {
        ptrs = 1;
    }
    let l = UnionLayout { ptrs, ptrs_used, scalars, dedicated_tag };
    if counted(&l) { Some(l) } else { None }
}

/// The leaves of the members of a union.
pub open spec fn leaf_lists(ls: Seq<Vec<Type>>) -> Seq<Seq<Ty>> {
    ls.map_values(|l: Vec<Type>| type_views(l@))
}

/// The layout of the inline union whose members have these leaves, where its
/// columns can be counted.
pub fn union_layout_of_leaves(members: &Vec<Vec<Type>>) -> (r: Option<UnionLayout>)
    ensures
        r is Some == (columns_of(leaf_lists(members@)).width() <= usize::MAX),
        r is Some ==> r->0@ == columns_of(leaf_lists(members@)),
{
    let ghost all = leaf_lists(members@);
    let mut ptrs: usize = 0;
    let mut scalars: usize = 0;
    let mut dedicated_tag = false;
    let mut i: usize = 0;
    while i < members.len()
        invariant
            i <= members.len() == all.len(),
            all == leaf_lists(members@),
            ptrs == max_ptrs(all.take(i as int)),
            scalars == max_scalars(all.take(i as int)),
            dedicated_tag == needs_tag_column(all.take(i as int)),
        decreases members.len() - i,
    {
        let d = demand_of(&members[i]);
        proof {
            let before = all.take(i as int);
            let after = all.take(i + 1);
            let own = all[i as int];
            assert(after.drop_last() =~= before);
            assert(after.last() == own);
            assert(needs_tag_column(after) == (needs_tag_column(before) || first_ptr_tagged(own))) by {
                if needs_tag_column(before) {
                    let m = choose|m: int| 0 <= m < before.len() && #[trigger] first_ptr_tagged(before[m]);
                    assert(first_ptr_tagged(after[m]));
                }
                if first_ptr_tagged(own) {
                    assert(first_ptr_tagged(after[i as int]));
                }
                if needs_tag_column(after) {
                    let m = choose|m: int| 0 <= m < after.len() && #[trigger] first_ptr_tagged(after[m]);
                    if m < i {
                        assert(first_ptr_tagged(before[m]));
                    }
                }
            }
        }
        if d.ptrs > ptrs {
            ptrs = d.ptrs;
        }
        if d.scalars > scalars {
            scalars = d.scalars;
        }
        if d.tagged {
            dedicated_tag = true;
        }
        i = i + 1;
    }
    assert(all.take(i as int) =~= all);
    let ptrs_used: usize = ptrs;
    if !dedicated_tag && ptrs == 0 {
        ptrs = 1;
    }
    let l = UnionLayout { ptrs, ptrs_used, scalars, dedicated_tag };
    if counted(&l) { Some(l) } else { None }
}

/// The types of the columns of an inline union of type `ty`.
pub fn column_types(ty: &Type, l: &UnionLayout) -> (r: Vec<Type>)
    requires
        l@.width() <= usize::MAX,
    ensures
        type_views(r@) == field_tys(column_leaves(ty@, l@)),
{
    leaf_types(&column_vec(ty, l))
}

/// The leaves of a value of this type: for a struct those of its fields, each
/// under its field's name; for an inline union its columns; for anything else
/// one leaf without a path.
pub fn struct_fields(ty: &Type, structs: &StructDefs) -> (r: Vec<(String, Type)>)
    requires
        lays_out(ty@, structs@),
    ensures
        field_views(r@) == leaves_of(ty@, structs@),
{
    flatten(ty, structs).unwrap()
}

/// The leaves of each member of a union, where all have a layout that can be
/// counted together.
pub open spec fn union_columns(ms: Seq<Ty>, defs: Defs) -> Option<Columns> {
    match member_leaves(ms, defs, Seq::empty()) {
        None => None,
        Some(mls) => if columns_of(mls).width() <= usize::MAX {
            Some(columns_of(mls))
        } else {
            None
        },
    }
}

/// The layout of the inline union of these members.
pub fn union_layout(members: &Vec<Type>, structs: &StructDefs) -> (r: UnionLayout)
    requires
        union_columns(type_views(members@), structs@) is Some,
    ensures
        r@ == union_columns(type_views(members@), structs@)->0,
{
    try_union_layout(members, structs).unwrap()
}

/// The layout of the inline union of these members, where it has one.
pub fn try_union_layout(members: &Vec<Type>, structs: &StructDefs) -> (r: Option<UnionLayout>)
    ensures
        r is Some == union_columns(type_views(members@), structs@) is Some,
        r is Some ==> r->0@ == union_columns(type_views(members@), structs@)->0,
{
    let mut path: Vec<Type> = Vec::new();
    assert(type_views(path@) =~= Seq::<Ty>::empty());
    layout_at(members, structs, &mut path)
}

} // verus!
