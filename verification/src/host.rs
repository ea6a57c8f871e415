//! Functions of the host that programs can call, and the words that their
//! arguments and results are passed in.
use crate::layout::{
    column_leaves, column_types, columns_of, heap, leaf_lists, member_tag, union_layout_of_leaves, UnionLayout,
};
use crate::pack::{
    gc_mask, mask, pack_leaves, packs, tag_is_in_column_zero, union_hosts_its_members, unpack_leaves,
    unpack_undoes_pack, unpacked,
};
use crate::types::{clone_types, field_tys, type_views, type_views_index, Ty, Type};
use vstd::prelude::*;

verus! {

/// A function of the host: the name that programs call it by, its symbol, the
/// types of its parameters and of its result, and the words that each of
/// those is passed in.
#[derive(Debug)]
pub struct HostFn {
    pub name: String,
    pub symbol: String,
    pub params: Vec<Type>,
    pub ret: Type,
    pub param_leaves: Vec<Vec<Type>>,
    pub ret_leaves: Vec<Type>,
}

/// A type of the host that has a declaration in programs.
pub trait FrogDecl {
    /// The text of the declaration, or nothing where programs declare the type
    /// themselves.
    fn frog_decl() -> Option<String>;
}

/// A type of the host whose values are read from words.
pub trait FromFrog: Sized {
    /// The type of the values in programs.
    spec fn from_ty() -> Ty;

    /// The types of the words that a value is passed in.
    spec fn from_leaves() -> Seq<Ty>;

    /// The value that words stand for.
    spec fn read(words: Seq<i64>) -> Self;

    fn frog_type() -> (r: Type)
        ensures
            r@ == Self::from_ty(),
    ;

    fn leaves() -> (r: Vec<Type>)
        ensures
            type_views(r@) == Self::from_leaves(),
    ;

    fn slots() -> (r: usize)
        ensures
            r == Self::from_leaves().len(),
    {
        let ls = Self::leaves();
        proof {
            type_views_index(ls@);
        }
        ls.len()
    }

    fn from_frog(slots: &[i64]) -> (r: Self)
        requires
            slots@.len() == Self::from_leaves().len(),
        ensures
            r == Self::read(slots@),
    ;
}

/// A type of the host whose values are written as words.
pub trait ToFrog: Sized {
    /// The type of the values in programs.
    spec fn to_ty() -> Ty;

    /// The types of the words that a value is passed in.
    spec fn to_leaves() -> Seq<Ty>;

    /// The words that stand for a value.
    spec fn words(self) -> Seq<i64>;

    fn frog_type() -> (r: Type)
        ensures
            r@ == Self::to_ty(),
    ;

    fn leaves() -> (r: Vec<Type>)
        ensures
            type_views(r@) == Self::to_leaves(),
    ;

    fn slots() -> (r: usize)
        ensures
            r == Self::to_leaves().len(),
    {
        let ls = Self::leaves();
        proof {
            type_views_index(ls@);
        }
        ls.len()
    }

    fn to_frog(self) -> (r: Vec<i64>)
        ensures
            r@ == self.words(),
            r@.len() == Self::to_leaves().len(),
    ;
}

fn one_type(t: Type) -> (r: Vec<Type>)
    ensures
        type_views(r@) == seq![t@],
{
    let mut out: Vec<Type> = Vec::new();
    out.push(t);
    proof {
        type_views_index(out@);
        assert(type_views(out@) =~= seq![t@]);
    }
    out
}

fn one_word(w: i64) -> (r: Vec<i64>)
    ensures
        r@ == seq![w],
{
    let mut out: Vec<i64> = Vec::new();
    out.push(w);
    assert(out@ =~= seq![w]);
    out
}

impl FromFrog for i64 {
    open spec fn from_ty() -> Ty {
        Ty::Int
    }

    open spec fn from_leaves() -> Seq<Ty> {
        seq![Ty::Int]
    }

    open spec fn read(words: Seq<i64>) -> i64 {
        words[0]
    }

    fn frog_type() -> (r: Type) {
        Type::Int
    }

    fn leaves() -> (r: Vec<Type>) {
        one_type(Type::Int)
    }

    fn from_frog(slots: &[i64]) -> (r: i64) {
        slots[0]
    }
}

impl ToFrog for i64 {
    open spec fn to_ty() -> Ty {
        Ty::Int
    }

    open spec fn to_leaves() -> Seq<Ty> {
        seq![Ty::Int]
    }

    open spec fn words(self) -> Seq<i64> {
        seq![self]
    }

    fn frog_type() -> (r: Type) {
        Type::Int
    }

    fn leaves() -> (r: Vec<Type>) {
        one_type(Type::Int)
    }

    fn to_frog(self) -> (r: Vec<i64>) {
        one_word(self)
    }
}

impl FromFrog for bool {
    open spec fn from_ty() -> Ty {
        Ty::Bool
    }

    open spec fn from_leaves() -> Seq<Ty> {
        seq![Ty::Bool]
    }

    open spec fn read(words: Seq<i64>) -> bool {
        words[0] != 0
    }

    fn frog_type() -> (r: Type) {
        Type::Bool
    }

    fn leaves() -> (r: Vec<Type>) {
        one_type(Type::Bool)
    }

    fn from_frog(slots: &[i64]) -> (r: bool) {
        slots[0] != 0
    }
}

impl ToFrog for bool {
    open spec fn to_ty() -> Ty {
        Ty::Bool
    }

    open spec fn to_leaves() -> Seq<Ty> {
        seq![Ty::Bool]
    }

    open spec fn words(self) -> Seq<i64> {
        seq![if self { 1i64 } else { 0i64 }]
    }

    fn frog_type() -> (r: Type) {
        Type::Bool
    }

    fn leaves() -> (r: Vec<Type>) {
        one_type(Type::Bool)
    }

    fn to_frog(self) -> (r: Vec<i64>) {
        one_word(if self { 1 } else { 0 })
    }
}

/// Nothing is passed in one word, which is zero.
impl FromFrog for () {
    open spec fn from_ty() -> Ty {
        Ty::Nil
    }

    open spec fn from_leaves() -> Seq<Ty> {
        seq![Ty::Nil]
    }

    open spec fn read(words: Seq<i64>) -> () {
        ()
    }

    fn frog_type() -> (r: Type) {
        Type::Nil
    }

    fn leaves() -> (r: Vec<Type>) {
        one_type(Type::Nil)
    }

    fn from_frog(slots: &[i64]) -> (r: ()) {
        ()
    }
}

impl ToFrog for () {
    open spec fn to_ty() -> Ty {
        Ty::Nil
    }

    open spec fn to_leaves() -> Seq<Ty> {
        seq![Ty::Nil]
    }

    open spec fn words(self) -> Seq<i64> {
        seq![0i64]
    }

    fn frog_type() -> (r: Type) {
        Type::Nil
    }

    fn leaves() -> (r: Vec<Type>) {
        one_type(Type::Nil)
    }

    fn to_frog(self) -> (r: Vec<i64>) {
        one_word(0)
    }
}

// ── Unions of two members ────────────────────────────────────────────────

/// Why two types are no union that values of either can be passed in.
#[derive(Debug, Clone, Copy, PartialEq, Eq, Structural)]
pub enum PairFault {
    /// The two are the same type, and could not be told apart.
    Collapsed,
    /// One of them is a union itself, so that there are this many members.
    Expanded(usize),
    /// A member is neither of the two.
    Rewritten,
    /// There are more columns than can be counted.
    TooWide,
}

/// A union of two members: its type, its members in order, the leaves of each,
/// and how they share columns.
#[derive(Debug)]
pub struct Pair {
    pub ty: Type,
    pub members: Vec<Type>,
    pub leaves: Vec<Vec<Type>>,
    pub layout: UnionLayout,
}

/// The members of the union of `a` and `b` with the leaves of each. `union`
/// is the union in its normal form: flat, without repetition, in order.
pub open spec fn joined_leaves(a: Ty, a_leaves: Seq<Ty>, b: Ty, b_leaves: Seq<Ty>, union: Ty) -> Result<
    (Seq<Ty>, Seq<Seq<Ty>>),
    PairFault,
> {
    match union {
        Ty::Union(ms) => if a == b {
            Err(PairFault::Collapsed)
        } else if ms.len() != 2 {
            Err(PairFault::Expanded(ms.len() as usize))
        } else if ms[0] == a && ms[1] == b {
            Ok((ms, seq![a_leaves, b_leaves]))
        } else if ms[0] == b && ms[1] == a {
            Ok((ms, seq![b_leaves, a_leaves]))
        } else {
            Err(PairFault::Rewritten)
        },
        _ => Err(PairFault::Collapsed),
    }
}

impl Pair {
    /// Whether this is the union of `a` and `b`, which have these leaves.
    pub open spec fn joins(self, a: Ty, a_leaves: Seq<Ty>, b: Ty, b_leaves: Seq<Ty>) -> bool {
        &&& a != b
        &&& joined_leaves(a, a_leaves, b, b_leaves, Ty::Union(type_views(self.members@))) == Ok::<
            (Seq<Ty>, Seq<Seq<Ty>>),
            PairFault,
        >((type_views(self.members@), leaf_lists(self.leaves@)))
        &&& self.layout@ == columns_of(leaf_lists(self.leaves@))
        &&& self.layout@.width() <= usize::MAX
    }

    /// The position of the member `t`.
    pub open spec fn place(self, t: Ty) -> int {
        if type_views(self.members@)[0] == t {
            0
        } else {
            1
        }
    }

    /// The tag of the member `t`.
    pub open spec fn tag(self, t: Ty) -> i64 {
        (self.place(t) + 1) as i64
    }

    /// The member that words hold.
    pub open spec fn held(self, slots: Seq<i64>) -> int {
        (slots[0] & 7) - 1
    }
}

fn copy_leaves(first: &Vec<Type>, second: &Vec<Type>) -> (r: Vec<Vec<Type>>)
    ensures
        leaf_lists(r@) == seq![type_views(first@), type_views(second@)],
{
    let mut out: Vec<Vec<Type>> = Vec::new();
    out.push(clone_types(first));
    out.push(clone_types(second));
    assert(leaf_lists(out@) =~= seq![type_views(first@), type_views(second@)]);
    out
}

/// The union of `a` and `b`, whose normal form is `union`.
pub fn two_member_union(a: &Type, a_leaves: &Vec<Type>, b: &Type, b_leaves: &Vec<Type>, union: &Type) -> (r: Result<
    Pair,
    PairFault,
>)
    ensures
        match joined_leaves(a@, type_views(a_leaves@), b@, type_views(b_leaves@), union@) {
            Err(e) => r == Err::<Pair, PairFault>(e),
            Ok((ms, ls)) => if columns_of(ls).width() <= usize::MAX {
                r is Ok && r->Ok_0.ty@ == union@ && type_views(r->Ok_0.members@) == ms && leaf_lists(
                    r->Ok_0.leaves@,
                ) == ls && r->Ok_0.joins(a@, type_views(a_leaves@), b@, type_views(b_leaves@))
            } else {
                r == Err::<Pair, PairFault>(PairFault::TooWide)
            },
        },
{
    match union {
        Type::Union(ms) => {
            proof {
                type_views_index(ms@);
            }
            if a.same(b) {
                return Err(PairFault::Collapsed);
            }
            if ms.len() != 2 {
                return Err(PairFault::Expanded(ms.len()));
            }
            assert(type_views(ms@)[0] == ms@[0]@ && type_views(ms@)[1] == ms@[1]@);
            let leaves = if ms[0].same(a) && ms[1].same(b) {
                copy_leaves(a_leaves, b_leaves)
            } else if ms[0].same(b) && ms[1].same(a) {
                copy_leaves(b_leaves, a_leaves)
            } else {
                return Err(PairFault::Rewritten);
            };
            match union_layout_of_leaves(&leaves) {
                Some(layout) => Ok(Pair { ty: union.dup(), members: clone_types(ms), leaves, layout }),
                None => Err(PairFault::TooWide),
            }
        },
        _ => Err(PairFault::Collapsed),
    }
}

/// The types of the words that a value of the union is passed in.
pub fn pair_leaves(p: &Pair) -> (r: Vec<Type>)
    requires
        p.layout@.width() <= usize::MAX,
    ensures
        type_views(r@) == field_tys(column_leaves(p.ty@, p.layout@)),
{
    column_types(&p.ty, &p.layout)
}

fn pack_side(
    p: &Pair,
    side: &Type,
    vals: &Vec<i64>,
    Ghost(a): Ghost<Ty>,
    Ghost(al): Ghost<Seq<Ty>>,
    Ghost(b): Ghost<Ty>,
    Ghost(bl): Ghost<Seq<Ty>>,
) -> (r: Vec<i64>)
    requires
        p.joins(a, al, b, bl),
        side@ == a || side@ == b,
        vals.len() == leaf_lists(p.leaves@)[p.place(side@)].len(),
    ensures
        packs(
            p.layout@,
            leaf_lists(p.leaves@)[p.place(side@)],
            p.tag(side@),
            vals@,
            r@,
        ),
{
    proof {
        type_views_index(p.members@);
        union_hosts_its_members(leaf_lists(p.leaves@), p.place(side@));
    }
    assert(type_views(p.members@)[0] == p.members@[0]@);
    let idx: usize = if p.members[0].same(side) {
        0
    } else {
        1
    };
    assert(leaf_lists(p.leaves@)[idx as int] == type_views(p.leaves@[idx as int]@));
    proof {
        type_views_index(p.leaves@[idx as int]@);
    }
    pack_leaves(&p.layout, &p.leaves[idx], member_tag(idx), vals)
}

/// The words of an optional value: those of the value, or of nothing, which
/// has no words of its own in a union.
pub fn option_words<T: ToFrog>(v: Option<T>, p: &Pair) -> (r: Vec<i64>)
    requires
        p.joins(T::to_ty(), T::to_leaves(), Ty::Nil, Seq::empty()),
    ensures
        match v {
            Some(x) => packs(
                p.layout@,
                T::to_leaves(),
                p.tag(T::to_ty()),
                x.words(),
                r@,
            ),
            None => packs(p.layout@, Seq::empty(), p.tag(Ty::Nil), Seq::empty(), r@),
        },
{
    match v {
        Some(x) => {
            let vals = x.to_frog();
            let side = T::frog_type();
            pack_side(
                p,
                &side,
                &vals,
                Ghost(T::to_ty()),
                Ghost(T::to_leaves()),
                Ghost(Ty::Nil),
                Ghost(Seq::empty()),
            )
        },
        None => {
            let vals: Vec<i64> = Vec::new();
            assert(vals@ =~= Seq::empty());
            pack_side(
                p,
                &Type::Nil,
                &vals,
                Ghost(T::to_ty()),
                Ghost(T::to_leaves()),
                Ghost(Ty::Nil),
                Ghost(Seq::empty()),
            )
        },
    }
}

/// The words of a result: those of the value or of the error.
pub fn result_words<T: ToFrog, E: ToFrog>(v: Result<T, E>, p: &Pair) -> (r: Vec<i64>)
    requires
        p.joins(T::to_ty(), T::to_leaves(), E::to_ty(), E::to_leaves()),
    ensures
        match v {
            Ok(x) => packs(
                p.layout@,
                T::to_leaves(),
                p.tag(T::to_ty()),
                x.words(),
                r@,
            ),
            Err(e) => packs(
                p.layout@,
                E::to_leaves(),
                p.tag(E::to_ty()),
                e.words(),
                r@,
            ),
        },
{
    match v {
        Ok(x) => {
            let vals = x.to_frog();
            let side = T::frog_type();
            pack_side(
                p,
                &side,
                &vals,
                Ghost(T::to_ty()),
                Ghost(T::to_leaves()),
                Ghost(E::to_ty()),
                Ghost(E::to_leaves()),
            )
        },
        Err(e) => {
            let vals = e.to_frog();
            let side = E::frog_type();
            pack_side(
                p,
                &side,
                &vals,
                Ghost(T::to_ty()),
                Ghost(T::to_leaves()),
                Ghost(E::to_ty()),
                Ghost(E::to_leaves()),
            )
        },
    }
}

fn held_member(p: &Pair, slots: &[i64]) -> (r: usize)
    requires
        slots@.len() > 0,
        0 <= p.held(slots@) < 2,
    ensures
        r == p.held(slots@),
{
    let w: i64 = slots[0] & 7;
    (w - 1) as usize
}

/// The optional value that words stand for.
pub fn option_of<T: FromFrog>(slots: &[i64], p: &Pair) -> (r: Option<T>)
    requires
        p.joins(T::from_ty(), T::from_leaves(), Ty::Nil, Seq::empty()),
        slots@.len() == p.layout@.width(),
        0 <= p.held(slots@) < 2,
    ensures
        r == if p.held(slots@) == p.place(T::from_ty()) {
            Some(T::read(unpacked(p.layout@, T::from_leaves(), slots@)))
        } else {
            None
        },
{
    proof {
        type_views_index(p.members@);
        union_hosts_its_members(leaf_lists(p.leaves@), 0);
        union_hosts_its_members(leaf_lists(p.leaves@), 1);
    }
    let idx = held_member(p, slots);
    assert(type_views(p.members@)[idx as int] == p.members@[idx as int]@);
    if p.members[idx].same(&T::frog_type()) {
        assert(leaf_lists(p.leaves@)[idx as int] == type_views(p.leaves@[idx as int]@));
        let vals = unpack_leaves(&p.layout, &p.leaves[idx], slots);
        Some(T::from_frog(vals.as_slice()))
    } else {
        None
    }
}

/// The result that words stand for.
pub fn result_of<T: FromFrog, E: FromFrog>(slots: &[i64], p: &Pair) -> (r: Result<T, E>)
    requires
        p.joins(T::from_ty(), T::from_leaves(), E::from_ty(), E::from_leaves()),
        slots@.len() == p.layout@.width(),
        0 <= p.held(slots@) < 2,
    ensures
        r == if p.held(slots@) == p.place(T::from_ty()) {
            Ok::<T, E>(T::read(unpacked(p.layout@, T::from_leaves(), slots@)))
        } else {
            Err::<T, E>(E::read(unpacked(p.layout@, E::from_leaves(), slots@)))
        },
{
    proof {
        type_views_index(p.members@);
        union_hosts_its_members(leaf_lists(p.leaves@), 0);
        union_hosts_its_members(leaf_lists(p.leaves@), 1);
    }
    let idx = held_member(p, slots);
    assert(type_views(p.members@)[idx as int] == p.members@[idx as int]@);
    assert(leaf_lists(p.leaves@)[idx as int] == type_views(p.leaves@[idx as int]@));
    let vals = unpack_leaves(&p.layout, &p.leaves[idx], slots);
    if p.members[idx].same(&T::frog_type()) {
        Ok(T::from_frog(vals.as_slice()))
    } else {
        Err(E::from_frog(vals.as_slice()))
    }
}

/// The words of a union tell which member they hold and give its words back,
/// as long as the words in pointer leaves are pointers: their low three bits
/// are clear.
pub proof fn a_packed_side_comes_back(
    p: Pair,
    a: Ty,
    a_leaves: Seq<Ty>,
    b: Ty,
    b_leaves: Seq<Ty>,
    vals: Seq<i64>,
    slots: Seq<i64>,
)
    requires
        p.joins(a, a_leaves, b, b_leaves),
        vals.len() == a_leaves.len(),
        forall|i: int| 0 <= i < a_leaves.len() && heap(#[trigger] a_leaves[i]) ==> vals[i] & 7 == 0,
        packs(p.layout@, a_leaves, p.tag(a), vals, slots),
    ensures
        p.held(slots) == p.place(a),
        p.held(slots) != p.place(b),
        unpacked(p.layout@, a_leaves, slots) == vals,
{
    union_hosts_its_members(leaf_lists(p.leaves@), p.place(a));
    assert(leaf_lists(p.leaves@)[p.place(a)] == a_leaves);
    let tag = p.tag(a);
    tag_is_in_column_zero(p.layout@, a_leaves, tag, vals, slots);
    unpack_undoes_pack(p.layout@, a_leaves, tag, vals, slots);
}

// ── Lists and dictionaries ───────────────────────────────────────────────

/// How many words one element takes: at least one.
pub open spec fn stride(n: nat) -> nat {
    if n == 0 {
        1
    } else {
        n
    }
}

/// How many words one element with these leaves takes.
pub fn element_stride(leaves: &Vec<Type>) -> (r: usize)
    ensures
        r == stride(type_views(leaves@).len()),
{
    proof {
        type_views_index(leaves@);
    }
    if leaves.len() == 0 {
        1
    } else {
        leaves.len()
    }
}

/// The words of all elements, one after another.
pub open spec fn flat(rows: Seq<Seq<i64>>) -> Seq<i64>
    decreases rows.len(),
{
    if rows.len() == 0 {
        Seq::empty()
    } else {
        flat(rows.drop_last()) + rows.last()
    }
}

pub open spec fn row_views(rows: Seq<Vec<i64>>) -> Seq<Seq<i64>> {
    rows.map_values(|r: Vec<i64>| r@)
}

/// The words of all elements, one after another.
pub fn flat_words(rows: &Vec<Vec<i64>>) -> (r: Vec<i64>)
    ensures
        r@ == flat(row_views(rows@)),
{
    let ghost v = row_views(rows@);
    let mut out: Vec<i64> = Vec::new();
    let mut i: usize = 0;
    assert(out@ =~= flat(v.take(0)));
    while i < rows.len()
        invariant
            i <= rows.len() == v.len(),
            v == row_views(rows@),
            out@ == flat(v.take(i as int)),
        decreases rows.len() - i,
    {
        assert(v.take(i + 1).drop_last() =~= v.take(i as int));
        assert(v.take(i + 1).last() == rows@[i as int]@);
        let ghost before = out@;
        let mut k: usize = 0;
        while k < rows[i as usize].len()
            invariant
                i < rows.len(),
                k <= rows@[i as int].len(),
                out@ =~= before + rows@[i as int]@.take(k as int),
            decreases rows@[i as int].len() - k,
        {
            out.push(rows[i][k]);
            k = k + 1;
        }
        assert(rows@[i as int]@.take(k as int) =~= rows@[i as int]@);
        i = i + 1;
    }
    assert(v.take(i as int) =~= v);
    out
}

/// An element is found again among the words of all, if each takes as many.
pub proof fn a_row_comes_back(rows: Seq<Seq<i64>>, n: nat, i: int)
    requires
        0 <= i < rows.len(),
        forall|k: int| 0 <= k < rows.len() ==> (#[trigger] rows[k]).len() == n,
    ensures
        flat(rows).len() == n * rows.len(),
        flat(rows).subrange(i * n, i * n + n) == rows[i],
    decreases rows.len(),
{
    let rest = rows.drop_last();
    flat_len(rows, n);
    flat_len(rest, n);
    assert((rows.len() - 1) * n + n == rows.len() * n) by (nonlinear_arith);
    assert(n * rows.len() == rows.len() * n) by (nonlinear_arith);
    assert(n * rest.len() == (rows.len() - 1) * n) by (nonlinear_arith)
        requires
            rest.len() == rows.len() - 1,
    ;
    if i < rest.len() {
        a_row_comes_back(rest, n, i);
        assert(i * n + n <= n * rest.len()) by (nonlinear_arith)
            requires
                0 <= i < rest.len(),
        ;
        assert(0 <= i * n) by (nonlinear_arith)
            requires
                0 <= i,
        ;
        assert(flat(rows).subrange(i * n, i * n + n) =~= flat(rest).subrange(i * n, i * n + n));
    } else {
        assert(i == rows.len() - 1);
        assert(flat(rows).subrange(i * n, i * n + n) =~= rows[i]);
    }
}

proof fn flat_len(rows: Seq<Seq<i64>>, n: nat)
    requires
        forall|k: int| 0 <= k < rows.len() ==> (#[trigger] rows[k]).len() == n,
    ensures
        flat(rows).len() == n * rows.len(),
    decreases rows.len(),
{
    if rows.len() > 0 {
        let rest = rows.drop_last();
        assert forall|k: int| 0 <= k < rest.len() implies (#[trigger] rest[k]).len() == n by {
            assert(rest[k] == rows[k]);
        }
        flat_len(rest, n);
        assert(rows[rows.len() - 1].len() == n);
        assert(n * rest.len() + n == n * rows.len()) by (nonlinear_arith)
            requires
                rest.len() == rows.len() - 1,
        ;
    } else {
        assert(n * rows.len() == 0) by (nonlinear_arith)
            requires
                rows.len() == 0,
        ;
    }
}

/// Which words of a dictionary's entry are pointers, as bits: those of the
/// key, and above them those of the value.
pub open spec fn entry_mask(keys: Seq<Ty>, vals: Seq<Ty>) -> u64 {
    (mask(keys) as u64) | ((mask(vals) as u64) << stride(keys.len()) as u64)
}

/// Which words of a dictionary's entry are pointers.
pub fn dict_mask(keys: &Vec<Type>, vals: &Vec<Type>) -> (r: u64)
    requires
        stride(type_views(keys@).len()) <= 63,
        type_views(vals@).len() <= 64,
    ensures
        r == entry_mask(type_views(keys@), type_views(vals@)),
{
    proof {
        type_views_index(keys@);
        type_views_index(vals@);
    }
    let n: usize = element_stride(keys);
    let low: u64 = gc_mask(keys) as u64;
    let high: u64 = gc_mask(vals) as u64;
    let by: u64 = n as u64;
    low | (high << by)
}

// ── Laws ─────────────────────────────────────────────────────────────────

/// What is written is read back.
pub proof fn plain_values_come_back(n: i64, b: bool)
    ensures
        <i64 as FromFrog>::read(n.words()) == n,
        <bool as FromFrog>::read(b.words()) == b,
        n.words().len() == <i64 as FromFrog>::from_leaves().len(),
        b.words().len() == <bool as FromFrog>::from_leaves().len(),
{
}

/// Two types join exactly where their union has the two as its members, and each
/// member keeps its own leaves.
pub proof fn two_that_differ_join(a: Ty, a_leaves: Seq<Ty>, b: Ty, b_leaves: Seq<Ty>, union: Ty)
    ensures
        joined_leaves(a, a_leaves, b, b_leaves, union) is Ok <==> a != b && (union == Ty::Union(seq![a, b]) || union
            == Ty::Union(seq![b, a])),
        joined_leaves(a, a_leaves, b, b_leaves, union) matches Ok((ms, ls)) ==> union == Ty::Union(ms) && ls.len() == 2
            && forall|k: int| 0 <= k < 2 ==> #[trigger] ls[k] == if ms[k] == a {
            a_leaves
        } else {
            b_leaves
        },
{
    if let Ty::Union(ms) = union {
        if ms.len() == 2 && ms[0] == a && ms[1] == b {
            assert(ms =~= seq![a, b]);
        }
        if ms.len() == 2 && ms[0] == b && ms[1] == a {
            assert(ms =~= seq![b, a]);
        }
    }
}

/// It does not matter which of two types is named first.
pub proof fn either_order_joins_the_same(a: Ty, a_leaves: Seq<Ty>, b: Ty, b_leaves: Seq<Ty>, union: Ty)
    ensures
        joined_leaves(a, a_leaves, b, b_leaves, union) == joined_leaves(b, b_leaves, a, a_leaves, union),
{
}

} // verus!
