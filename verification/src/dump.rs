//! What the liveness analysis found, as text: every read of a name, and
//! whether it copies the value or takes it.
use crate::liveness::{Liveness, Marks, Ownership};
use crate::text::owned;
use crate::tokens::{shown_span, Span, Spanned};
use crate::typed_ast::{Arg, NodeId, PlaceSeg, TypedExpr, TypedExprKind, TypedExprRef};
use vstd::prelude::*;
use vstd::string::StringExecFns;

verus! {

/// One read of a name.
#[derive(Debug)]
pub struct VarRead {
    pub name: String,
    pub span: Span,
    pub id: NodeId,
}

pub ghost struct Read {
    pub name: Seq<char>,
    pub span: Span,
    pub id: NodeId,
}

pub open spec fn read_view(r: VarRead) -> Read {
    Read { name: r.name@, span: r.span, id: r.id }
}

pub open spec fn read_views(rs: Seq<VarRead>) -> Seq<Read> {
    rs.map_values(|r: VarRead| read_view(r))
}

// ── The reads of a body ──────────────────────────────────────────────────

/// The reads of names in an expression, each part after the ones before it. A
/// function that is bound in it, and the name that a call calls, are left out.
pub open spec fn reads(e: Spanned<TypedExpr>) -> Seq<Read>
    decreases e, 2int,
{
    match e.item.kind {
        TypedExprKind::Var(name) => seq![Read { name: name@, span: e.span, id: e.item.id }],
        _ => kind_reads(e.item.kind),
    }
}

pub open spec fn kind_reads(k: TypedExprKind) -> Seq<Read>
    decreases k, 2int,
{
    match k {
        TypedExprKind::IntLit(_) => Seq::empty(),
        TypedExprKind::FloatLit(_) => Seq::empty(),
        TypedExprKind::BoolLit(_) => Seq::empty(),
        TypedExprKind::StrLit(_) => Seq::empty(),
        TypedExprKind::NoneLit => Seq::empty(),
        TypedExprKind::Var(_) => Seq::empty(),
        TypedExprKind::Unary { op: _, expr } => reads(*expr),
        TypedExprKind::Binary { op: _, left, right } => reads(*left) + reads(*right),
        TypedExprKind::Conditional { cond, true_branch, false_branch } => reads(*cond) + reads(*true_branch) + opt_reads(false_branch),
        TypedExprKind::Assign { name: _, value } => bound_reads(*value),
        TypedExprKind::Function { params: _, return_type: _, body: _ } => Seq::empty(),
        TypedExprKind::Call { callable: _, args } => args_reads(args@),
        TypedExprKind::Index { target, index } => reads(*target) + reads(*index),
        TypedExprKind::Slice { target, start, end } => reads(*target) + opt_reads(start) + opt_reads(end),
        TypedExprKind::Range { start, end } => reads(*start) + reads(*end),
        TypedExprKind::List(es) => list_reads(es@),
        TypedExprKind::Dict(ps) => pair_reads(ps@),
        TypedExprKind::Block(es) => list_reads(es@),
        TypedExprKind::ForLoop { var: _, iterable, cond, body, iter_via: _ } => reads(*iterable) + opt_reads(cond) + reads(*body),
        TypedExprKind::Comprehension { var: _, iterable, cond, body, iter_via: _ } => reads(*iterable) + opt_reads(cond) + reads(*body),
        TypedExprKind::StructInit { name: _, fields } => field_reads(fields@),
        TypedExprKind::FieldAccess { target, field: _, enum_name: _ } => reads(*target),
        TypedExprKind::PlaceAssign { place, value } => path_reads(place.path@) + reads(*value),
        TypedExprKind::VariantInit { enum_name: _, variant: _, tag: _, fields } => field_reads(fields@),
        TypedExprKind::IsVariant { target, enum_name: _, variant: _, tag: _ } => reads(*target),
        TypedExprKind::VariantField { target, enum_name: _, variant: _, field: _ } => reads(*target),
        TypedExprKind::Return(value) => opt_reads(value),
        TypedExprKind::Widen { value, tag: _ } => reads(*value),
        TypedExprKind::Narrow { value, tag: _ } => reads(*value),
        TypedExprKind::TypeTag { target, tag: _ } => reads(*target),
        TypedExprKind::Truthy(value) => reads(*value),
        TypedExprKind::Coerce(value) => reads(*value),
    }
}

pub open spec fn opt_reads(e: Option<TypedExprRef>) -> Seq<Read>
    decreases e, 2int,
{
    match e {
        Some(x) => reads(*x),
        None => Seq::empty(),
    }
}

/// The reads in a bound value, unless it is a function.
pub open spec fn bound_reads(e: Spanned<TypedExpr>) -> Seq<Read>
    decreases e, 3int,
{
    match e.item.kind {
        TypedExprKind::Function { params: _, return_type: _, body: _ } => Seq::empty(),
        _ => reads(e),
    }
}

pub open spec fn seg_reads(s: PlaceSeg) -> Seq<Read>
    decreases s, 2int,
{
    match s {
        PlaceSeg::Index { index, elem_ty: _ } => reads(*index),
        PlaceSeg::Field(_) => Seq::empty(),
    }
}

pub open spec fn arg_reads(a: Arg) -> Seq<Read>
    decreases a, 2int,
{
    match a {
        Arg::Value(e) => reads(e),
        Arg::Mut(p) => path_reads(p.path@),
    }
}

pub open spec fn list_reads(xs: Seq<Spanned<TypedExpr>>) -> Seq<Read>
    decreases xs, 2int,
{
    if xs.len() == 0 {
        Seq::empty()
    } else {
        list_reads(xs.drop_last()) + reads(xs.last())
    }
}

pub open spec fn pair_reads(xs: Seq<(Spanned<TypedExpr>, Spanned<TypedExpr>)>) -> Seq<Read>
    decreases xs, 2int,
{
    if xs.len() == 0 {
        Seq::empty()
    } else {
        pair_reads(xs.drop_last()) + reads(xs.last().0) + reads(xs.last().1)
    }
}

pub open spec fn field_reads(xs: Seq<(String, TypedExprRef)>) -> Seq<Read>
    decreases xs, 2int,
{
    if xs.len() == 0 {
        Seq::empty()
    } else {
        field_reads(xs.drop_last()) + reads(*xs.last().1)
    }
}

pub open spec fn path_reads(xs: Seq<PlaceSeg>) -> Seq<Read>
    decreases xs, 2int,
{
    if xs.len() == 0 {
        Seq::empty()
    } else {
        path_reads(xs.drop_last()) + seg_reads(xs.last())
    }
}

pub open spec fn args_reads(xs: Seq<Arg>) -> Seq<Read>
    decreases xs, 2int,
{
    if xs.len() == 0 {
        Seq::empty()
    } else {
        args_reads(xs.drop_last()) + arg_reads(xs.last())
    }
}

fn walk(e: &Spanned<TypedExpr>, out: &mut Vec<VarRead>)
    ensures
        read_views(final(out)@) == read_views(old(out)@) + reads(*e),
    decreases e, 2int,
{
    match &e.item.kind {
        TypedExprKind::Var(name) => {
            let ghost before = out@;
            let r = VarRead { name: owned(name.as_str()), span: e.span, id: e.item.id };
            out.push(r);
            assert(read_views(out@) =~= read_views(before) + seq![read_view(r)]);
        },
        k => walk_kind(k, out),
    }
}

fn walk_kind(k: &TypedExprKind, out: &mut Vec<VarRead>)
    ensures
        read_views(final(out)@) == read_views(old(out)@) + kind_reads(*k),
    decreases k, 2int,
{
    let ghost before = read_views(out@);
    match k {
        TypedExprKind::IntLit(_) => {},
        TypedExprKind::FloatLit(_) => {},
        TypedExprKind::BoolLit(_) => {},
        TypedExprKind::StrLit(_) => {},
        TypedExprKind::NoneLit => {},
        TypedExprKind::Var(_) => {},
        TypedExprKind::Unary { op: _, expr } => {
            walk(expr, out);
        },
        TypedExprKind::Binary { op: _, left, right } => {
            walk(left, out);
            walk(right, out);
        },
        TypedExprKind::Conditional { cond, true_branch, false_branch } => {
            walk(cond, out);
            walk(true_branch, out);
            walk_opt(false_branch, out);
        },
        TypedExprKind::Assign { name: _, value } => {
            walk_bound(value, out);
        },
        TypedExprKind::Function { params: _, return_type: _, body: _ } => {},
        TypedExprKind::Call { callable: _, args } => {
            walk_args(args, out);
        },
        TypedExprKind::Index { target, index } => {
            walk(target, out);
            walk(index, out);
        },
        TypedExprKind::Slice { target, start, end } => {
            walk(target, out);
            walk_opt(start, out);
            walk_opt(end, out);
        },
        TypedExprKind::Range { start, end } => {
            walk(start, out);
            walk(end, out);
        },
        TypedExprKind::List(es) => {
            walk_list(es, out);
        },
        TypedExprKind::Dict(ps) => {
            walk_pairs(ps, out);
        },
        TypedExprKind::Block(es) => {
            walk_list(es, out);
        },
        TypedExprKind::ForLoop { var: _, iterable, cond, body, iter_via: _ } => {
            walk(iterable, out);
            walk_opt(cond, out);
            walk(body, out);
        },
        TypedExprKind::Comprehension { var: _, iterable, cond, body, iter_via: _ } => {
            walk(iterable, out);
            walk_opt(cond, out);
            walk(body, out);
        },
        TypedExprKind::StructInit { name: _, fields } => {
            walk_fields(fields, out);
        },
        TypedExprKind::FieldAccess { target, field: _, enum_name: _ } => {
            walk(target, out);
        },
        TypedExprKind::PlaceAssign { place, value } => {
            walk_path(&place.path, out);
            walk(value, out);
        },
        TypedExprKind::VariantInit { enum_name: _, variant: _, tag: _, fields } => {
            walk_fields(fields, out);
        },
        TypedExprKind::IsVariant { target, enum_name: _, variant: _, tag: _ } => {
            walk(target, out);
        },
        TypedExprKind::VariantField { target, enum_name: _, variant: _, field: _ } => {
            walk(target, out);
        },
        TypedExprKind::Return(value) => {
            walk_opt(value, out);
        },
        TypedExprKind::Widen { value, tag: _ } => {
            walk(value, out);
        },
        TypedExprKind::Narrow { value, tag: _ } => {
            walk(value, out);
        },
        TypedExprKind::TypeTag { target, tag: _ } => {
            walk(target, out);
        },
        TypedExprKind::Truthy(value) => {
            walk(value, out);
        },
        TypedExprKind::Coerce(value) => {
            walk(value, out);
        },
    }
    assert(read_views(out@) =~= before + kind_reads(*k));
}

fn walk_opt(e: &Option<TypedExprRef>, out: &mut Vec<VarRead>)
    ensures
        read_views(final(out)@) == read_views(old(out)@) + opt_reads(*e),
    decreases e, 2int,
{
    match e {
        Some(x) => walk(x, out),
        None => {
            assert(read_views(out@) =~= read_views(out@) + opt_reads(*e));
        },
    }
}

fn walk_bound(e: &Spanned<TypedExpr>, out: &mut Vec<VarRead>)
    ensures
        read_views(final(out)@) == read_views(old(out)@) + bound_reads(*e),
    decreases e, 3int,
{
    match &e.item.kind {
        TypedExprKind::Function { params: _, return_type: _, body: _ } => {
            assert(read_views(out@) =~= read_views(out@) + bound_reads(*e));
        },
        _ => walk(e, out),
    }
}

fn walk_seg(s: &PlaceSeg, out: &mut Vec<VarRead>)
    ensures
        read_views(final(out)@) == read_views(old(out)@) + seg_reads(*s),
    decreases s, 2int,
{
    match s {
        PlaceSeg::Index { index, elem_ty: _ } => walk(index, out),
        PlaceSeg::Field(_) => {
            assert(read_views(out@) =~= read_views(out@) + seg_reads(*s));
        },
    }
}

fn walk_arg(a: &Arg, out: &mut Vec<VarRead>)
    ensures
        read_views(final(out)@) == read_views(old(out)@) + arg_reads(*a),
    decreases a, 2int,
{
    match a {
        Arg::Value(e) => walk(e, out),
        Arg::Mut(p) => walk_path(&p.path, out),
    }
}

fn walk_list(xs: &Vec<Spanned<TypedExpr>>, out: &mut Vec<VarRead>)
    ensures
        read_views(final(out)@) == read_views(old(out)@) + list_reads(xs@),
    decreases xs, 2int,
{
    let ghost before = read_views(out@);
    let mut i: usize = 0;
    assert(read_views(out@) =~= before + list_reads(xs@.take(0)));
    while i < xs.len()
        invariant
            i <= xs.len(),
            read_views(out@) == before + list_reads(xs@.take(i as int)),
        decreases xs.len() - i,
    {
        assert(xs@.take(i + 1).drop_last() =~= xs@.take(i as int));
        assert(xs@.take(i + 1).last() == xs@[i as int]);
        walk(&xs[i], out);
        assert(read_views(out@) =~= before + list_reads(xs@.take(i + 1)));
        i = i + 1;
    }
    assert(xs@.take(i as int) =~= xs@);
}

fn walk_pairs(xs: &Vec<(Spanned<TypedExpr>, Spanned<TypedExpr>)>, out: &mut Vec<VarRead>)
    ensures
        read_views(final(out)@) == read_views(old(out)@) + pair_reads(xs@),
    decreases xs, 2int,
{
    let ghost before = read_views(out@);
    let mut i: usize = 0;
    assert(read_views(out@) =~= before + pair_reads(xs@.take(0)));
    while i < xs.len()
        invariant
            i <= xs.len(),
            read_views(out@) == before + pair_reads(xs@.take(i as int)),
        decreases xs.len() - i,
    {
        assert(xs@.take(i + 1).drop_last() =~= xs@.take(i as int));
        assert(xs@.take(i + 1).last() == xs@[i as int]);
        walk(&xs[i].0, out);
        walk(&xs[i].1, out);
        assert(read_views(out@) =~= before + pair_reads(xs@.take(i + 1)));
        i = i + 1;
    }
    assert(xs@.take(i as int) =~= xs@);
}

fn walk_fields(xs: &Vec<(String, TypedExprRef)>, out: &mut Vec<VarRead>)
    ensures
        read_views(final(out)@) == read_views(old(out)@) + field_reads(xs@),
    decreases xs, 2int,
{
    let ghost before = read_views(out@);
    let mut i: usize = 0;
    assert(read_views(out@) =~= before + field_reads(xs@.take(0)));
    while i < xs.len()
        invariant
            i <= xs.len(),
            read_views(out@) == before + field_reads(xs@.take(i as int)),
        decreases xs.len() - i,
    {
        assert(xs@.take(i + 1).drop_last() =~= xs@.take(i as int));
        assert(xs@.take(i + 1).last() == xs@[i as int]);
        walk(&xs[i].1, out);
        assert(read_views(out@) =~= before + field_reads(xs@.take(i + 1)));
        i = i + 1;
    }
    assert(xs@.take(i as int) =~= xs@);
}

fn walk_path(xs: &Vec<PlaceSeg>, out: &mut Vec<VarRead>)
    ensures
        read_views(final(out)@) == read_views(old(out)@) + path_reads(xs@),
    decreases xs, 2int,
{
    let ghost before = read_views(out@);
    let mut i: usize = 0;
    assert(read_views(out@) =~= before + path_reads(xs@.take(0)));
    while i < xs.len()
        invariant
            i <= xs.len(),
            read_views(out@) == before + path_reads(xs@.take(i as int)),
        decreases xs.len() - i,
    {
        assert(xs@.take(i + 1).drop_last() =~= xs@.take(i as int));
        assert(xs@.take(i + 1).last() == xs@[i as int]);
        walk_seg(&xs[i], out);
        assert(read_views(out@) =~= before + path_reads(xs@.take(i + 1)));
        i = i + 1;
    }
    assert(xs@.take(i as int) =~= xs@);
}

fn walk_args(xs: &Vec<Arg>, out: &mut Vec<VarRead>)
    ensures
        read_views(final(out)@) == read_views(old(out)@) + args_reads(xs@),
    decreases xs, 2int,
{
    let ghost before = read_views(out@);
    let mut i: usize = 0;
    assert(read_views(out@) =~= before + args_reads(xs@.take(0)));
    while i < xs.len()
        invariant
            i <= xs.len(),
            read_views(out@) == before + args_reads(xs@.take(i as int)),
        decreases xs.len() - i,
    {
        assert(xs@.take(i + 1).drop_last() =~= xs@.take(i as int));
        assert(xs@.take(i + 1).last() == xs@[i as int]);
        walk_arg(&xs[i], out);
        assert(read_views(out@) =~= before + args_reads(xs@.take(i + 1)));
        i = i + 1;
    }
    assert(xs@.take(i as int) =~= xs@);
}

// ── The lines ────────────────────────────────────────────────────────────

pub open spec fn dump_line(r: Read, m: Marks) -> Seq<char> {
    "  "@ + r.name + " @ "@ + shown_span(r.span) + " -> "@ + if m.last.contains(r.id) {
        "Move"@
    } else {
        "Copy"@
    } + "\n"@
}

pub open spec fn dump_lines(rs: Seq<Read>, m: Marks) -> Seq<char>
    decreases rs.len(),
{
    if rs.len() == 0 {
        Seq::empty()
    } else {
        dump_lines(rs.drop_last(), m) + dump_line(rs.last(), m)
    }
}

/// What is printed of a body: a heading, and one line for each read.
pub open spec fn dumped(name: Seq<char>, rs: Seq<Read>, m: Marks) -> Seq<char> {
    "-- liveness: "@ + name + " --\n"@ + dump_lines(rs, m)
}

fn dump_reads(name: &str, rs: &Vec<VarRead>, liveness: &Liveness) -> (r: String)
    ensures
        r@ == dumped(name@, read_views(rs@), liveness@),
{
    let ghost v = read_views(rs@);
    let mut out = owned("-- liveness: ");
    out.append(name);
    out.append(" --\n");
    let ghost head = out@;
    let mut i: usize = 0;
    assert(out@ =~= head + dump_lines(v.take(0), liveness@));
    while i < rs.len()
        invariant
            i <= rs.len() == v.len(),
            v == read_views(rs@),
            out@ == head + dump_lines(v.take(i as int), liveness@),
        decreases rs.len() - i,
    {
        assert(v.take(i + 1).drop_last() =~= v.take(i as int));
        assert(v.take(i + 1).last() == read_view(rs@[i as int]));
        out.append("  ");
        out.append(rs[i].name.as_str());
        out.append(" @ ");
        out.append(rs[i].span.show().as_str());
        out.append(" -> ");
        match liveness.ownership(rs[i].id) {
            Ownership::Copy => {
                out.append("Copy");
            },
            Ownership::Move => {
                out.append("Move");
            },
        }
        out.append("\n");
        assert(out@ =~= head + dump_lines(v.take(i + 1), liveness@));
        i = i + 1;
    }
    assert(v.take(i as int) =~= v);
    out
}

/// What is printed of the body of a function.
pub fn dump_body(name: &str, body: &Spanned<TypedExpr>, liveness: &Liveness) -> (r: String)
    ensures
        r@ == dumped(name@, reads(*body), liveness@),
{
    let mut rs: Vec<VarRead> = Vec::new();
    walk(body, &mut rs);
    assert(read_views(rs@) =~= reads(*body));
    dump_reads(name, &rs, liveness)
}

/// What is printed of a run of top-level statements.
pub fn dump_entry(name: &str, stmts: &Vec<Spanned<TypedExpr>>, liveness: &Liveness) -> (r: String)
    ensures
        r@ == dumped(name@, list_reads(stmts@), liveness@),
{
    let mut rs: Vec<VarRead> = Vec::new();
    walk_list(stmts, &mut rs);
    assert(read_views(rs@) =~= list_reads(stmts@));
    dump_reads(name, &rs, liveness)
}

} // verus!
