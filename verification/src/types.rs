//! The type language of checked programs, and the declarations it names.
use crate::text::{owned, same_text};
use vstd::prelude::*;

verus! {

/// The types a checked program can mention.
#[derive(Debug, PartialEq, Eq)]
pub enum Type {
    Int,
    Float,
    Bool,
    Str,
    Nil,
    Never,
    TypeVar { id: u32 },
    Named { name: String, args: Vec<Type> },
    Union(Vec<Type>),
    Function { params: Vec<Type>, result: Box<Type> },
}

/// A type as a mathematical value.
pub enum Ty {
    Int,
    Float,
    Bool,
    Str,
    Nil,
    Never,
    TypeVar(u32),
    Named(Seq<char>, Seq<Ty>),
    Union(Seq<Ty>),
    Function(Seq<Ty>, Box<Ty>),
}

pub open spec fn type_views(ts: Seq<Type>) -> Seq<Ty>
    decreases ts,
{
    if ts.len() == 0 {
        Seq::empty()
    } else {
        type_views(ts.drop_last()).push(ts.last().ty())
    }
}

impl Type {
    pub open spec fn ty(self) -> Ty
        decreases self,
    {
        match self {
            Type::Int => Ty::Int,
            Type::Float => Ty::Float,
            Type::Bool => Ty::Bool,
            Type::Str => Ty::Str,
            Type::Nil => Ty::Nil,
            Type::Never => Ty::Never,
            Type::TypeVar { id } => Ty::TypeVar(id),
            Type::Named { name, args } => Ty::Named(name@, type_views(args@)),
            Type::Union(ms) => Ty::Union(type_views(ms@)),
            Type::Function { params, result } => Ty::Function(type_views(params@), Box::new(result.ty())),
        }
    }
}

impl View for Type {
    type V = Ty;
    open spec fn view(&self) -> Ty { self.ty() }
}

pub proof fn type_views_index(ts: Seq<Type>)
    ensures
        type_views(ts).len() == ts.len(),
        forall|i: int| 0 <= i < ts.len() ==> #[trigger] type_views(ts)[i] == ts[i]@,
    decreases ts,
{
    if ts.len() > 0 {
        type_views_index(ts.drop_last());
        assert forall|i: int| 0 <= i < ts.len() implies #[trigger] type_views(ts)[i] == ts[i]@ by {
            if i < ts.len() - 1 {
                assert(ts.drop_last()[i] == ts[i]);
            }
        }
    }
}

pub fn clone_types(ts: &Vec<Type>) -> (r: Vec<Type>)
    ensures
        type_views(r@) == type_views(ts@),
    decreases ts,
{
    let mut out: Vec<Type> = Vec::new();
    let mut i: usize = 0;
    while i < ts.len()
        invariant
            i <= ts.len(),
            out@.len() == i,
            type_views(out@) == type_views(ts@.take(i as int)),
        decreases ts.len() - i,
    {
        let t = ts[i].dup();
        assert(ts@.take(i + 1).drop_last() =~= ts@.take(i as int));
        let ghost before = out@;
        out.push(t);
        assert(out@.drop_last() =~= before);
        i = i + 1;
    }
    assert(ts@.take(i as int) =~= ts@);
    out
}

impl Type {
    pub fn dup(&self) -> (r: Type)
        ensures
            r@ == self@,
        decreases self,
    {
        match self {
            Type::Int => Type::Int,
            Type::Float => Type::Float,
            Type::Bool => Type::Bool,
            Type::Str => Type::Str,
            Type::Nil => Type::Nil,
            Type::Never => Type::Never,
            Type::TypeVar { id } => Type::TypeVar { id: *id },
            Type::Named { name, args } => Type::Named { name: name.clone(), args: clone_types(args) },
            Type::Union(ms) => Type::Union(clone_types(ms)),
            Type::Function { params, result } => Type::Function {
                params: clone_types(params),
                result: Box::new(result.dup()),
            },
        }
    }
}


impl Clone for Type {
    fn clone(&self) -> (r: Type)
        ensures
            r@ == self@,
    {
        self.dup()
    }
}

/// Whether two runs of types are equal, type by type.
pub fn same_types(a: &Vec<Type>, b: &Vec<Type>) -> (r: bool)
    ensures
        r == (type_views(a@) == type_views(b@)),
    decreases a,
{
    proof {
        type_views_index(a@);
        type_views_index(b@);
    }
    if a.len() != b.len() {
        return false;
    }
    let mut i: usize = 0;
    while i < a.len()
        invariant
            i <= a.len(),
            a.len() == b.len(),
            type_views(a@).len() == a.len(),
            type_views(b@).len() == b.len(),
            forall|k: int| 0 <= k < a.len() ==> #[trigger] type_views(a@)[k] == a@[k]@,
            forall|k: int| 0 <= k < b.len() ==> #[trigger] type_views(b@)[k] == b@[k]@,
            forall|k: int| 0 <= k < i ==> type_views(a@)[k] == type_views(b@)[k],
        decreases a.len() - i,
    {
        if !a[i].same(&b[i]) {
            assert(type_views(a@)[i as int] != type_views(b@)[i as int]);
            return false;
        }
        i = i + 1;
    }
    assert(type_views(a@) =~= type_views(b@));
    true
}

impl Type {
    /// Whether two types are equal.
    pub fn same(&self, other: &Type) -> (r: bool)
        ensures
            r == (self@ == other@),
        decreases self,
    {
        match (self, other) {
            (Type::Int, Type::Int) => true,
            (Type::Float, Type::Float) => true,
            (Type::Bool, Type::Bool) => true,
            (Type::Str, Type::Str) => true,
            (Type::Nil, Type::Nil) => true,
            (Type::Never, Type::Never) => true,
            (Type::TypeVar { id: a }, Type::TypeVar { id: b }) => *a == *b,
            (Type::Named { name: n, args: a }, Type::Named { name: m, args: b }) => {
                same_text(n.as_str(), m.as_str()) && same_types(a, b)
            },
            (Type::Union(a), Type::Union(b)) => same_types(a, b),
            (Type::Function { params: a, result: p }, Type::Function { params: b, result: q }) => {
                same_types(a, b) && p.same(q)
            },
            _ => false,
        }
    }

    /// The type of lists of `elem`.
    pub fn list(elem: Type) -> (r: Type)
        ensures
            r@ == Ty::Named("List"@, seq![elem@]),
    {
        let mut args: Vec<Type> = Vec::new();
        args.push(elem);
        proof {
            type_views_index(args@);
            assert(type_views(args@) =~= seq![elem@]);
        }
        Type::Named { name: owned("List"), args }
    }

    /// The struct type of that name.
    pub fn strukt(name: String) -> (r: Type)
        ensures
            r@ == struct_ty(name@),
    {
        let args: Vec<Type> = Vec::new();
        assert(type_views(args@) =~= Seq::<Ty>::empty());
        Type::Named { name, args }
    }

    /// Whether this is a list type.
    pub fn is_list(&self) -> (r: bool)
        ensures
            r == self@.is_list(),
    {
        match self {
            Type::Named { name, args } => {
                proof {
                    type_views_index(args@);
                }
                same_text(name.as_str(), "List") && args.len() == 1
            },
            _ => false,
        }
    }

    /// The element type of a list type.
    pub fn as_list_elem(&self) -> (r: Option<&Type>)
        ensures
            r is Some == self@.is_list(),
            r is Some ==> r->0@ == self@.elem(),
            r is Some ==> decreases_to!(*self => *r->0),
    {
        match self {
            Type::Named { name, args } => {
                proof {
                    type_views_index(args@);
                }
                if same_text(name.as_str(), "List") && args.len() == 1 {
                    Some(&args[0])
                } else {
                    None
                }
            },
            _ => None,
        }
    }

    /// Whether this is a range type.
    pub fn is_range(&self) -> (r: bool)
        ensures
            r == self@.is_range(),
    {
        match self {
            Type::Named { name, args } => {
                proof {
                    type_views_index(args@);
                }
                same_text(name.as_str(), "Range") && args.len() == 1
            },
            _ => false,
        }
    }

    /// The element type of a range type.
    pub fn as_range_elem(&self) -> (r: Option<&Type>)
        ensures
            r is Some == self@.is_range(),
            r is Some ==> r->0@ == self@.elem(),
            r is Some ==> decreases_to!(*self => *r->0),
    {
        match self {
            Type::Named { name, args } => {
                proof {
                    type_views_index(args@);
                }
                if same_text(name.as_str(), "Range") && args.len() == 1 {
                    Some(&args[0])
                } else {
                    None
                }
            },
            _ => None,
        }
    }

    /// The name of a struct type. Lists are built in and have none.
    pub fn as_struct_name(&self) -> (r: Option<&String>)
        ensures
            r is Some == self@.is_struct(),
            r is Some ==> r->0@ == self@->Named_0,
    {
        match self {
            Type::Named { name, args: _ } => {
                if same_text(name.as_str(), "List") { None } else { Some(name) }
            },
            _ => None,
        }
    }

    /// Whether this is a struct type.
    pub fn is_struct(&self) -> (r: bool)
        ensures
            r == self@.is_struct(),
    {
        match self {
            Type::Named { name, args: _ } => !same_text(name.as_str(), "List"),
            _ => false,
        }
    }
}

/// The struct type of that name, without type arguments.
pub open spec fn struct_ty(name: Seq<char>) -> Ty {
    Ty::Named(name, Seq::empty())
}

impl Ty {
    pub open spec fn is_list(self) -> bool {
        self matches Ty::Named(n, args) && n == "List"@ && args.len() == 1
    }

    pub open spec fn is_range(self) -> bool {
        self matches Ty::Named(n, args) && n == "Range"@ && args.len() == 1
    }

    pub open spec fn is_struct(self) -> bool {
        self matches Ty::Named(n, _) && n != "List"@
    }

    /// The first type argument: what a list or a range holds.
    pub open spec fn elem(self) -> Ty {
        self->Named_1[0]
    }
}

/// A field as a value: its name and its type.
pub type FieldView = (Seq<char>, Ty);

/// The fields of a declaration, as values.
pub open spec fn field_views(fs: Seq<(String, Type)>) -> Seq<FieldView> {
    fs.map_values(|f: (String, Type)| (f.0@, f.1@))
}

/// The types of a run of fields.
pub open spec fn field_tys(fs: Seq<FieldView>) -> Seq<Ty> {
    fs.map_values(|f: FieldView| f.1)
}

/// One struct declaration: the type and its fields in declared order.
pub struct StructDef {
    pub ty: Type,
    pub fields: Vec<(String, Type)>,
}

/// Every struct layout that a program knows, keyed by the struct's type.
pub struct StructDefs {
    pub defs: Vec<StructDef>,
}

/// Struct layouts as values; the first entry of a type is the one that counts.
pub type Defs = Seq<(Ty, Seq<FieldView>)>;

/// The declared fields of `t`.
pub open spec fn find_struct(defs: Defs, t: Ty) -> Option<Seq<FieldView>>
    decreases defs.len(),
{
    if defs.len() == 0 {
        None
    } else if defs[0].0 == t {
        Some(defs[0].1)
    } else {
        find_struct(defs.skip(1), t)
    }
}

impl View for StructDefs {
    type V = Defs;

    open spec fn view(&self) -> Defs {
        self.defs@.map_values(|d: StructDef| (d.ty@, field_views(d.fields@)))
    }
}

impl StructDefs {
    /// No struct at all.
    pub fn new() -> (r: StructDefs)
        ensures
            r@ == Defs::empty(),
    {
        let r = StructDefs { defs: Vec::new() };
        assert(r@ =~= Defs::empty());
        r
    }

    /// Adds a layout behind those already known.
    pub fn define(&mut self, ty: Type, fields: Vec<(String, Type)>)
        ensures
            final(self)@ == old(self)@.push((ty@, field_views(fields@))),
    {
        let ghost before = self@;
        self.defs.push(StructDef { ty, fields });
        assert(self@ =~= before.push((ty@, field_views(fields@))));
    }

    /// The declared fields of `ty`.
    pub fn get(&self, ty: &Type) -> (r: Option<&Vec<(String, Type)>>)
        ensures
            r is Some == find_struct(self@, ty@) is Some,
            r is Some ==> field_views(r->0@) == find_struct(self@, ty@)->0,
    {
        let mut i: usize = 0;
        assert(self@.skip(0) =~= self@);
        while i < self.defs.len()
            invariant
                i <= self.defs.len() == self@.len(),
                find_struct(self@.skip(i as int), ty@) == find_struct(self@, ty@),
            decreases self.defs.len() - i,
        {
            assert(self@.skip(i as int)[0] == self@[i as int]);
            if self.defs[i].ty.same(ty) {
                return Some(&self.defs[i].fields);
            }
            assert(self@.skip(i as int).skip(1) =~= self@.skip(i + 1));
            i = i + 1;
        }
        None
    }
}

/// One nominal union: the union type that its name stands for, the fields
/// common to all variants, and each variant with its own fields.
pub struct UnionDef {
    pub name: String,
    pub ty: Type,
    pub common: Vec<(String, Type)>,
    pub variants: Vec<(String, Vec<(String, Type)>)>,
}

/// A nominal union as a value.
pub ghost struct UnionView {
    pub name: Seq<char>,
    pub ty: Ty,
    pub common: Seq<FieldView>,
    pub variants: Seq<(Seq<char>, Seq<FieldView>)>,
}

impl View for UnionDef {
    type V = UnionView;

    open spec fn view(&self) -> UnionView {
        UnionView {
            name: self.name@,
            ty: self.ty@,
            common: field_views(self.common@),
            variants: self.variants@.map_values(|v: (String, Vec<(String, Type)>)| (v.0@, field_views(v.1@))),
        }
    }
}

/// Every nominal union that a program knows.
pub struct UnionDefs {
    pub defs: Vec<UnionDef>,
}

impl View for UnionDefs {
    type V = Seq<UnionView>;

    open spec fn view(&self) -> Seq<UnionView> {
        self.defs@.map_values(|d: UnionDef| d@)
    }
}

/// The nominal union of that name.
pub open spec fn find_union(defs: Seq<UnionView>, name: Seq<char>) -> Option<UnionView>
    decreases defs.len(),
{
    if defs.len() == 0 {
        None
    } else if defs[0].name == name {
        Some(defs[0])
    } else {
        find_union(defs.skip(1), name)
    }
}

/// The nominal union that stands for the member list `members`.
pub open spec fn find_members(defs: Seq<UnionView>, members: Seq<Ty>) -> Option<UnionView>
    decreases defs.len(),
{
    if defs.len() == 0 {
        None
    } else if defs[0].ty == Ty::Union(members) {
        Some(defs[0])
    } else {
        find_members(defs.skip(1), members)
    }
}

impl UnionDefs {
    /// No union at all.
    pub fn new() -> (r: UnionDefs)
        ensures
            r@ == Seq::<UnionView>::empty(),
    {
        let r = UnionDefs { defs: Vec::new() };
        assert(r@ =~= Seq::<UnionView>::empty());
        r
    }

    /// Adds a union behind those already known.
    pub fn define(&mut self, def: UnionDef)
        ensures
            final(self)@ == old(self)@.push(def@),
    {
        let ghost before = self@;
        self.defs.push(def);
        assert(self@ =~= before.push(def@));
    }

    /// The union of that name.
    pub fn get(&self, name: &str) -> (r: Option<&UnionDef>)
        ensures
            r is Some == find_union(self@, name@) is Some,
            r is Some ==> r->0@ == find_union(self@, name@)->0,
    {
        let mut i: usize = 0;
        assert(self@.skip(0) =~= self@);
        while i < self.defs.len()
            invariant
                i <= self.defs.len() == self@.len(),
                find_union(self@.skip(i as int), name@) == find_union(self@, name@),
            decreases self.defs.len() - i,
        {
            assert(self@.skip(i as int)[0] == self@[i as int]);
            if same_text(self.defs[i].name.as_str(), name) {
                return Some(&self.defs[i]);
            }
            assert(self@.skip(i as int).skip(1) =~= self@.skip(i + 1));
            i = i + 1;
        }
        None
    }

    /// The union whose type is the union of `members`. Which variant a value
    /// holds is told apart by declared order there, and by the order of the
    /// member list everywhere else.
    pub fn resolve(&self, members: &Vec<Type>) -> (r: Option<&UnionDef>)
        ensures
            r is Some == find_members(self@, type_views(members@)) is Some,
            r is Some ==> r->0@ == find_members(self@, type_views(members@))->0,
    {
        let mut i: usize = 0;
        let ghost ms = type_views(members@);
        assert(self@.skip(0) =~= self@);
        while i < self.defs.len()
            invariant
                i <= self.defs.len() == self@.len(),
                ms == type_views(members@),
                find_members(self@.skip(i as int), ms) == find_members(self@, ms),
            decreases self.defs.len() - i,
        {
            assert(self@.skip(i as int)[0] == self@[i as int]);
            if let Type::Union(own) = &self.defs[i].ty {
                if same_types(own, members) {
                    return Some(&self.defs[i]);
                }
            }
            assert(self@.skip(i as int).skip(1) =~= self@.skip(i + 1));
            i = i + 1;
        }
        None
    }
}

} // verus!
