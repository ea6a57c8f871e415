//! Types as they are written.
use crate::text::{owned, texts};
use crate::tokens::Spanned;
use vstd::prelude::*;
use vstd::string::StringExecFns;

verus! {

/// A type as it is written.
#[derive(Debug, PartialEq)]
pub enum TypeExpr {
    /// A type by its name.
    Name(String),
    /// A named type with arguments.
    Apply(String, Vec<Spanned<TypeExpr>>),
    /// `A | B`; at least two members.
    Union(Vec<Spanned<TypeExpr>>),
    /// `T?`.
    Optional(TypeExprRef),
    /// `(A, B -> C)`.
    Func(Vec<Spanned<TypeExpr>>, TypeExprRef),
}

/// A located, boxed type.
pub type TypeExprRef = Box<Spanned<TypeExpr>>;

/// A type as it is written, as a mathematical value.
pub ghost enum TypeAst {
    Name(Seq<char>),
    Apply(Seq<char>, Seq<TypeNode>),
    Union(Seq<TypeNode>),
    Optional(Box<TypeNode>),
    Func(Seq<TypeNode>, Box<TypeNode>),
}

/// A type with its place, as a mathematical value.
pub type TypeNode = Spanned<TypeAst>;

impl TypeExpr {
    pub open spec fn ast(self) -> TypeAst
        decreases self,
    {
        match self {
            TypeExpr::Name(name) => TypeAst::Name(name@),
            TypeExpr::Apply(name, args) => TypeAst::Apply(name@, type_nodes(args@)),
            TypeExpr::Union(members) => TypeAst::Union(type_nodes(members@)),
            TypeExpr::Optional(inner) => TypeAst::Optional(Box::new(type_node(*inner))),
            TypeExpr::Func(params, result) => TypeAst::Func(type_nodes(params@), Box::new(type_node(*result))),
        }
    }
}

impl View for TypeExpr {
    type V = TypeAst;

    open spec fn view(&self) -> TypeAst {
        self.ast()
    }
}

pub open spec fn type_node(t: Spanned<TypeExpr>) -> TypeNode
    decreases t,
{
    Spanned { span: t.span, item: t.item.ast() }
}

pub open spec fn opt_type_node(t: Option<Spanned<TypeExpr>>) -> Option<TypeNode> {
    match t {
        Some(x) => Some(type_node(x)),
        None => None,
    }
}

pub open spec fn type_nodes(ts: Seq<Spanned<TypeExpr>>) -> Seq<TypeNode>
    decreases ts,
{
    if ts.len() == 0 {
        Seq::empty()
    } else {
        type_nodes(ts.drop_last()).push(type_node(ts.last()))
    }
}

pub proof fn type_nodes_index(ts: Seq<Spanned<TypeExpr>>)
    ensures
        type_nodes(ts).len() == ts.len(),
        forall|i: int| 0 <= i < ts.len() ==> #[trigger] type_nodes(ts)[i] == type_node(ts[i]),
    decreases ts.len(),
{
    if ts.len() > 0 {
        type_nodes_index(ts.drop_last());
    }
}

pub proof fn type_nodes_push(ts: Seq<Spanned<TypeExpr>>, t: Spanned<TypeExpr>)
    ensures
        type_nodes(ts.push(t)) == type_nodes(ts).push(type_node(t)),
{
    assert(ts.push(t).drop_last() =~= ts);
}

// ── Printing ─────────────────────────────────────────────────────────────

/// How a type prints.
pub open spec fn shown_type(t: TypeAst) -> Seq<char>
    decreases t, 0int,
{
    match t {
        TypeAst::Name(name) => name,
        TypeAst::Apply(name, args) => name + "("@ + shown_types(args, ", "@) + ")"@,
        TypeAst::Union(members) => shown_types(members, " | "@),
        TypeAst::Optional(inner) => shown_type(inner.item) + "?"@,
        TypeAst::Func(params, result) => "("@ + shown_types(params, ", "@) + " -> "@ + shown_type(result.item) + ")"@,
    }
}

/// How types print, one after the other.
pub open spec fn shown_types(ts: Seq<TypeNode>, between: Seq<char>) -> Seq<char>
    decreases ts, 0int,
{
    if ts.len() == 0 {
        Seq::empty()
    } else if ts.len() == 1 {
        shown_type(ts.last().item)
    } else {
        shown_types(ts.drop_last(), between) + between + shown_type(ts.last().item)
    }
}

fn push_shown_types(out: &mut String, ts: &Vec<Spanned<TypeExpr>>, between: &str)
    ensures
        final(out)@ == old(out)@ + shown_types(type_nodes(ts@), between@),
    decreases ts, 0int,
{
    let ghost before = out@;
    let ghost v = type_nodes(ts@);
    proof {
        type_nodes_index(ts@);
    }
    let mut i: usize = 0;
    assert(out@ =~= before + shown_types(v.take(0), between@));
    while i < ts.len()
        invariant
            i <= ts.len() == v.len(),
            v == type_nodes(ts@),
            forall|k: int| 0 <= k < ts.len() ==> #[trigger] v[k] == type_node(ts@[k]),
            out@ == before + shown_types(v.take(i as int), between@),
        decreases ts.len() - i,
    {
        if i > 0 {
            out.append(between);
        }
        ts[i].item.push_shown(out);
        assert(v.take(i + 1).drop_last() =~= v.take(i as int));
        assert(v.take(i + 1).last() == v[i as int]);
        assert(out@ =~= before + shown_types(v.take(i + 1), between@));
        i = i + 1;
    }
    assert(v.take(i as int) =~= v);
}

impl TypeExpr {
    pub(crate) fn push_shown(&self, out: &mut String)
        ensures
            final(out)@ == old(out)@ + shown_type(self@),
        decreases self, 0int,
    {
        let ghost before = out@;
        match self {
            TypeExpr::Name(name) => {
                out.append(name.as_str());
            },
            TypeExpr::Apply(name, args) => {
                out.append(name.as_str());
                out.append("(");
                push_shown_types(out, args, ", ");
                out.append(")");
            },
            TypeExpr::Union(members) => {
                push_shown_types(out, members, " | ");
            },
            TypeExpr::Optional(inner) => {
                inner.item.push_shown(out);
                out.append("?");
            },
            TypeExpr::Func(params, result) => {
                out.append("(");
                push_shown_types(out, params, ", ");
                out.append(" -> ");
                result.item.push_shown(out);
                out.append(")");
            },
        }
        assert(out@ =~= before + shown_type(self@));
    }

    /// How this type prints.
    pub fn show(&self) -> (r: String)
        ensures
            r@ == shown_type(self@),
    {
        let mut out = String::new();
        self.push_shown(&mut out);
        assert(out@ =~= shown_type(self@));
        out
    }
}

// ── Names ────────────────────────────────────────────────────────────────

/// Every name in a type, in source order.
pub open spec fn type_names(t: TypeAst) -> Seq<Seq<char>>
    decreases t,
{
    match t {
        TypeAst::Name(name) => seq![name],
        TypeAst::Apply(name, args) => seq![name] + all_names(args),
        TypeAst::Union(members) => all_names(members),
        TypeAst::Optional(inner) => type_names(inner.item),
        TypeAst::Func(params, result) => all_names(params) + type_names(result.item),
    }
}

/// Every name in some types, in source order.
pub open spec fn all_names(ts: Seq<TypeNode>) -> Seq<Seq<char>>
    decreases ts,
{
    if ts.len() == 0 {
        Seq::empty()
    } else {
        all_names(ts.drop_last()) + type_names(ts.last().item)
    }
}

/// A type with other names: those of `ns` from `k` on, in source order.
pub open spec fn renamed(t: TypeAst, ns: Seq<Seq<char>>, k: int) -> TypeAst
    decreases t,
{
    match t {
        TypeAst::Name(_) => TypeAst::Name(ns[k]),
        TypeAst::Apply(_, args) => TypeAst::Apply(ns[k], all_renamed(args, ns, k + 1)),
        TypeAst::Union(members) => TypeAst::Union(all_renamed(members, ns, k)),
        TypeAst::Optional(inner) => TypeAst::Optional(
            Box::new(Spanned { span: inner.span, item: renamed(inner.item, ns, k) }),
        ),
        TypeAst::Func(params, result) => TypeAst::Func(
            all_renamed(params, ns, k),
            Box::new(Spanned { span: result.span, item: renamed(result.item, ns, k + all_names(params).len()) }),
        ),
    }
}

pub open spec fn all_renamed(ts: Seq<TypeNode>, ns: Seq<Seq<char>>, k: int) -> Seq<TypeNode>
    decreases ts,
{
    if ts.len() == 0 {
        Seq::empty()
    } else {
        all_renamed(ts.drop_last(), ns, k).push(
            Spanned { span: ts.last().span, item: renamed(ts.last().item, ns, k + all_names(ts.drop_last()).len()) },
        )
    }
}

/// The names that are written into a type are the names that it then has.
pub proof fn written_names_are_read(t: TypeAst, ns: Seq<Seq<char>>, k: int)
    requires
        0 <= k,
        k + type_names(t).len() <= ns.len(),
    ensures
        type_names(renamed(t, ns, k)) == ns.subrange(k, k + type_names(t).len()),
    decreases t,
{
    match t {
        TypeAst::Name(_) => {
            assert(type_names(renamed(t, ns, k)) =~= ns.subrange(k, k + 1));
        },
        TypeAst::Apply(_, args) => {
            all_written_names_are_read(args, ns, k + 1);
            assert(type_names(renamed(t, ns, k)) =~= ns.subrange(k, k + type_names(t).len()));
        },
        TypeAst::Union(members) => {
            all_written_names_are_read(members, ns, k);
        },
        TypeAst::Optional(inner) => {
            written_names_are_read(inner.item, ns, k);
        },
        TypeAst::Func(params, result) => {
            all_written_names_are_read(params, ns, k);
            written_names_are_read(result.item, ns, k + all_names(params).len());
            assert(type_names(renamed(t, ns, k)) =~= ns.subrange(k, k + type_names(t).len()));
        },
    }
}

proof fn all_written_names_are_read(ts: Seq<TypeNode>, ns: Seq<Seq<char>>, k: int)
    requires
        0 <= k,
        k + all_names(ts).len() <= ns.len(),
    ensures
        all_names(all_renamed(ts, ns, k)) == ns.subrange(k, k + all_names(ts).len()),
    decreases ts,
{
    if ts.len() == 0 {
        assert(all_names(all_renamed(ts, ns, k)) =~= ns.subrange(k, k as int));
    } else {
        let n = all_names(ts.drop_last()).len();
        all_written_names_are_read(ts.drop_last(), ns, k);
        written_names_are_read(ts.last().item, ns, k + n);
        let r = all_renamed(ts, ns, k);
        assert(r.drop_last() =~= all_renamed(ts.drop_last(), ns, k));
        assert(all_names(r) =~= ns.subrange(k, k + all_names(ts).len()));
    }
}

fn push_all_names(out: &mut Vec<String>, ts: &Vec<Spanned<TypeExpr>>)
    ensures
        texts(final(out)@) == texts(old(out)@) + all_names(type_nodes(ts@)),
    decreases ts,
{
    let ghost before = texts(out@);
    let ghost v = type_nodes(ts@);
    proof {
        type_nodes_index(ts@);
    }
    let mut i: usize = 0;
    assert(texts(out@) =~= before + all_names(v.take(0)));
    while i < ts.len()
        invariant
            i <= ts.len() == v.len(),
            v == type_nodes(ts@),
            forall|k: int| 0 <= k < ts.len() ==> #[trigger] v[k] == type_node(ts@[k]),
            texts(out@) == before + all_names(v.take(i as int)),
        decreases ts.len() - i,
    {
        ts[i].item.push_names(out);
        assert(v.take(i + 1).drop_last() =~= v.take(i as int));
        assert(v.take(i + 1).last() == v[i as int]);
        assert(texts(out@) =~= before + all_names(v.take(i + 1)));
        i = i + 1;
    }
    assert(v.take(i as int) =~= v);
}

fn write_all(ts: &mut Vec<Spanned<TypeExpr>>, ns: &Vec<String>, k: usize) -> (next: usize)
    requires
        k + all_names(type_nodes(old(ts)@)).len() <= ns.len(),
    ensures
        type_nodes(final(ts)@) == all_renamed(type_nodes(old(ts)@), texts(ns@), k as int),
        next == k + all_names(type_nodes(old(ts)@)).len(),
    decreases *old(ts),
{
    let ghost was = ts@;
    let ghost v = type_nodes(was);
    let ghost names = texts(ns@);
    proof {
        type_nodes_index(was);
    }
    let mut i: usize = 0;
    let mut at: usize = k;
    while i < ts.len()
        invariant
            i <= ts.len() == v.len(),
            ts.len() == was.len(),
            v == type_nodes(was),
            names == texts(ns@),
            decreases_to!(*old(ts) => was),
            forall|j: int| 0 <= j < was.len() ==> #[trigger] v[j] == type_node(was[j]),
            forall|j: int| i <= j < was.len() ==> #[trigger] ts@[j] == was[j],
            k + all_names(v).len() <= ns.len(),
            at == k + all_names(v.take(i as int)).len(),
            type_nodes(ts@.take(i as int)) == all_renamed(v.take(i as int), names, k as int),
        decreases ts.len() - i,
    {
        proof {
            assert(v.take(i + 1).drop_last() =~= v.take(i as int));
            assert(v.take(i + 1).last() == v[i as int]);
            names_prefix(v, i + 1);
        }
        let ghost now = ts@;
        assert(decreases_to!(was => was[i as int]));
        at = ts[i].item.write_names(ns, at);
        proof {
            let t = ts@[i as int];
            assert(ts@ =~= now.update(i as int, t));
            assert(ts@.take(i + 1).drop_last() =~= now.take(i as int));
            assert(ts@.take(i + 1).last() == t);
            assert(type_node(t) == (Spanned {
                span: v[i as int].span,
                item: renamed(v[i as int].item, names, k + all_names(v.take(i as int)).len()),
            }));
            assert(type_nodes(ts@.take(i + 1)) =~= type_nodes(now.take(i as int)).push(type_node(t)));
        }
        i = i + 1;
    }
    assert(v.take(i as int) =~= v);
    assert(ts@.take(i as int) =~= ts@);
    at
}

/// Writing back the names that were read leaves a type as it is.
pub proof fn own_names_change_nothing(t: TypeAst, ns: Seq<Seq<char>>, k: int)
    requires
        0 <= k,
        k + type_names(t).len() <= ns.len(),
        ns.subrange(k, k + type_names(t).len()) == type_names(t),
    ensures
        renamed(t, ns, k) == t,
    decreases t,
{
    let mine = ns.subrange(k, k + type_names(t).len());
    match t {
        TypeAst::Name(_) => {
            assert(mine[0] == ns[k]);
        },
        TypeAst::Apply(_, args) => {
            assert(mine[0] == ns[k]);
            assert(ns.subrange(k + 1, k + 1 + all_names(args).len()) =~= mine.subrange(1, mine.len() as int));
            assert(type_names(t).subrange(1, mine.len() as int) =~= all_names(args));
            own_names_change_none(args, ns, k + 1);
        },
        TypeAst::Union(members) => {
            own_names_change_none(members, ns, k);
        },
        TypeAst::Optional(inner) => {
            own_names_change_nothing(inner.item, ns, k);
        },
        TypeAst::Func(params, result) => {
            let n = all_names(params).len() as int;
            assert(ns.subrange(k, k + n) =~= mine.subrange(0, n));
            assert(type_names(t).subrange(0, n) =~= all_names(params));
            own_names_change_none(params, ns, k);
            assert(ns.subrange(k + n, k + n + type_names(result.item).len()) =~= mine.subrange(n, mine.len() as int));
            assert(type_names(t).subrange(n, mine.len() as int) =~= type_names(result.item));
            own_names_change_nothing(result.item, ns, k + n);
        },
    }
}

proof fn own_names_change_none(ts: Seq<TypeNode>, ns: Seq<Seq<char>>, k: int)
    requires
        0 <= k,
        k + all_names(ts).len() <= ns.len(),
        ns.subrange(k, k + all_names(ts).len()) == all_names(ts),
    ensures
        all_renamed(ts, ns, k) == ts,
    decreases ts,
{
    if ts.len() > 0 {
        let mine = ns.subrange(k, k + all_names(ts).len());
        let n = all_names(ts.drop_last()).len() as int;
        assert(ns.subrange(k, k + n) =~= mine.subrange(0, n));
        assert(all_names(ts).subrange(0, n) =~= all_names(ts.drop_last()));
        own_names_change_none(ts.drop_last(), ns, k);
        assert(ns.subrange(k + n, k + n + type_names(ts.last().item).len()) =~= mine.subrange(n, mine.len() as int));
        assert(all_names(ts).subrange(n, mine.len() as int) =~= type_names(ts.last().item));
        own_names_change_nothing(ts.last().item, ns, k + n);
        assert(all_renamed(ts, ns, k) =~= ts);
    } else {
        assert(all_renamed(ts, ns, k) =~= ts);
    }
}

proof fn names_prefix(ts: Seq<TypeNode>, n: int)
    requires
        0 <= n <= ts.len(),
    ensures
        all_names(ts.take(n)).len() <= all_names(ts).len(),
    decreases ts.len(),
{
    if n < ts.len() {
        names_prefix(ts.drop_last(), n);
        assert(ts.drop_last().take(n) =~= ts.take(n));
    } else {
        assert(ts.take(n) =~= ts);
    }
}

impl TypeExpr {
    fn push_names(&self, out: &mut Vec<String>)
        ensures
            texts(final(out)@) == texts(old(out)@) + type_names(self@),
        decreases self,
    {
        let ghost before = texts(out@);
        match self {
            TypeExpr::Name(name) => {
                out.push(owned(name.as_str()));
            },
            TypeExpr::Apply(name, args) => {
                out.push(owned(name.as_str()));
                assert(texts(out@) =~= before.push(name@));
                push_all_names(out, args);
            },
            TypeExpr::Union(members) => {
                push_all_names(out, members);
            },
            TypeExpr::Optional(inner) => {
                inner.item.push_names(out);
            },
            TypeExpr::Func(params, result) => {
                push_all_names(out, params);
                result.item.push_names(out);
            },
        }
        assert(texts(out@) =~= before + type_names(self@));
    }

    /// Every name in this type, in source order.
    pub fn names(&self) -> (r: Vec<String>)
        ensures
            texts(r@) == type_names(self@),
    {
        let mut out: Vec<String> = Vec::new();
        self.push_names(&mut out);
        assert(texts(out@) =~= type_names(self@));
        out
    }

    fn write_names(&mut self, ns: &Vec<String>, k: usize) -> (next: usize)
        requires
            k + type_names(old(self)@).len() <= ns.len(),
        ensures
            final(self)@ == renamed(old(self)@, texts(ns@), k as int),
            next == k + type_names(old(self)@).len(),
        decreases *old(self),
    {
        match self {
            TypeExpr::Name(name) => {
                *name = owned(ns[k].as_str());
                k + 1
            },
            TypeExpr::Apply(name, args) => {
                *name = owned(ns[k].as_str());
                write_all(args, ns, k + 1)
            },
            TypeExpr::Union(members) => write_all(members, ns, k),
            TypeExpr::Optional(inner) => inner.item.write_names(ns, k),
            TypeExpr::Func(params, result) => {
                let next: usize = write_all(params, ns, k);
                result.item.write_names(ns, next)
            },
        }
    }

    /// Replaces every name in this type by the one at its position in source
    /// order.
    pub fn names_mut(&mut self, names: &Vec<String>)
        requires
            names.len() == type_names(old(self)@).len(),
        ensures
            final(self)@ == renamed(old(self)@, texts(names@), 0),
    {
        let _ = self.write_names(names, 0);
    }
}

} // verus!
