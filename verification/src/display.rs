//! How expressions print in messages. A part prints with its place, and by the
//! names of its own parts.
use crate::expression::{
    field_decl_views, field_decl_views_index, match_arm_views, match_arm_views_index, node, nodes, nodes_index,
    opt_node, pattern_view, variant_decl_views, variant_decl_views_index, Ast, DataDeclExpr, DataDeclExprView,
    ExprRef, Expression, FieldDecl, FieldDeclView, ImportKind, ImportKindView, MatchArm, MatchArmView, Node, Pattern,
    PatternView, VariantDecl, VariantDeclView,
};
use crate::inspect::{debug_ast, debug_parameters, push_ast, push_parameters, push_str, str_debug};
use crate::text::texts;
use crate::tokens::{shown, shown_span, Spanned};
use crate::type_expr::shown_type;
use vstd::prelude::*;
use vstd::string::StringExecFns;

verus! {

/// How a part prints: its place, and what it is.
pub open spec fn part(n: Node) -> Seq<char> {
    shown_span(n.span) + "\t"@ + debug_ast(n.item)
}

fn push_part(out: &mut String, e: &Spanned<Expression>)
    ensures
        final(out)@ == old(out)@ + part(node(*e)),
{
    let ghost before = out@;
    let place = e.span.show();
    out.append(place.as_str());
    out.append("\t");
    push_ast(out, &e.item);
    assert(out@ =~= before + part(node(*e)));
}

/// How parts print, one after the other.
pub open spec fn parts(ns: Seq<Node>, between: Seq<char>) -> Seq<char>
    decreases ns.len(),
{
    if ns.len() == 0 {
        Seq::empty()
    } else if ns.len() == 1 {
        part(ns.last())
    } else {
        parts(ns.drop_last(), between) + between + part(ns.last())
    }
}

fn push_parts(out: &mut String, es: &Vec<Spanned<Expression>>, between: &str)
    ensures
        final(out)@ == old(out)@ + parts(nodes(es@), between@),
{
    let ghost before = out@;
    let ghost v = nodes(es@);
    proof {
        nodes_index(es@);
    }
    let mut i: usize = 0;
    assert(out@ =~= before + parts(v.take(0), between@));
    while i < es.len()
        invariant
            i <= es.len() == v.len(),
            v == nodes(es@),
            forall|k: int| 0 <= k < es.len() ==> #[trigger] v[k] == node(es@[k]),
            out@ == before + parts(v.take(i as int), between@),
        decreases es.len() - i,
    {
        if i > 0 {
            out.append(between);
        }
        push_part(out, &es[i]);
        assert(v.take(i + 1).drop_last() =~= v.take(i as int));
        assert(v.take(i + 1).last() == v[i as int]);
        assert(out@ =~= before + parts(v.take(i + 1), between@));
        i = i + 1;
    }
    assert(v.take(i as int) =~= v);
}

/// Texts with commas between them.
pub open spec fn listed(ns: Seq<Seq<char>>) -> Seq<char>
    decreases ns.len(),
{
    if ns.len() == 0 {
        Seq::empty()
    } else if ns.len() == 1 {
        ns.last()
    } else {
        listed(ns.drop_last()) + ", "@ + ns.last()
    }
}

fn push_listed(out: &mut String, ns: &Vec<String>)
    ensures
        final(out)@ == old(out)@ + listed(texts(ns@)),
{
    let ghost before = out@;
    let ghost v = texts(ns@);
    let mut i: usize = 0;
    assert(out@ =~= before + listed(v.take(0)));
    while i < ns.len()
        invariant
            i <= ns.len() == v.len(),
            v == texts(ns@),
            out@ == before + listed(v.take(i as int)),
        decreases ns.len() - i,
    {
        if i > 0 {
            out.append(", ");
        }
        out.append(ns[i].as_str());
        assert(v.take(i + 1).drop_last() =~= v.take(i as int));
        assert(v.take(i + 1).last() == ns@[i as int]@);
        assert(out@ =~= before + listed(v.take(i + 1)));
        i = i + 1;
    }
    assert(v.take(i as int) =~= v);
}

pub open spec fn shown_field(f: FieldDeclView) -> Seq<char> {
    match f.name {
        Some(name) => name + ": "@ + shown_type(f.ty.item),
        None => shown_type(f.ty.item),
    }
}

pub open spec fn shown_fields(fs: Seq<FieldDeclView>) -> Seq<char>
    decreases fs.len(),
{
    if fs.len() == 0 {
        Seq::empty()
    } else if fs.len() == 1 {
        shown_field(fs.last())
    } else {
        shown_fields(fs.drop_last()) + ", "@ + shown_field(fs.last())
    }
}

fn push_fields(out: &mut String, fs: &Vec<FieldDecl>)
    ensures
        final(out)@ == old(out)@ + shown_fields(field_decl_views(fs@)),
{
    let ghost before = out@;
    let ghost v = field_decl_views(fs@);
    proof {
        field_decl_views_index(fs@);
    }
    let mut i: usize = 0;
    assert(out@ =~= before + shown_fields(v.take(0)));
    while i < fs.len()
        invariant
            i <= fs.len() == v.len(),
            v == field_decl_views(fs@),
            forall|k: int| 0 <= k < fs.len() ==> #[trigger] v[k] == crate::expression::field_decl_view(fs@[k]),
            out@ == before + shown_fields(v.take(i as int)),
        decreases fs.len() - i,
    {
        let ghost now = out@;
        if i > 0 {
            out.append(", ");
        }
        if let Some(name) = &fs[i].name {
            out.append(name.as_str());
            out.append(": ");
        }
        fs[i].ty.item.push_shown(out);
        assert(v.take(i + 1).drop_last() =~= v.take(i as int));
        assert(v.take(i + 1).last() == v[i as int]);
        assert(out@ =~= before + shown_fields(v.take(i + 1)));
        i = i + 1;
    }
    assert(v.take(i as int) =~= v);
}

pub open spec fn shown_variant(d: VariantDeclView) -> Seq<char> {
    if d.fields.len() == 0 {
        d.name
    } else {
        d.name + "("@ + shown_fields(d.fields) + ")"@
    }
}

pub open spec fn shown_variants(ds: Seq<VariantDeclView>) -> Seq<char>
    decreases ds.len(),
{
    if ds.len() == 0 {
        Seq::empty()
    } else if ds.len() == 1 {
        shown_variant(ds.last())
    } else {
        shown_variants(ds.drop_last()) + " | "@ + shown_variant(ds.last())
    }
}

fn push_variants(out: &mut String, ds: &Vec<VariantDecl>)
    ensures
        final(out)@ == old(out)@ + shown_variants(variant_decl_views(ds@)),
{
    let ghost before = out@;
    let ghost v = variant_decl_views(ds@);
    proof {
        variant_decl_views_index(ds@);
    }
    let mut i: usize = 0;
    assert(out@ =~= before + shown_variants(v.take(0)));
    while i < ds.len()
        invariant
            i <= ds.len() == v.len(),
            v == variant_decl_views(ds@),
            forall|k: int| 0 <= k < ds.len() ==> #[trigger] v[k] == crate::expression::variant_decl_view(ds@[k]),
            out@ == before + shown_variants(v.take(i as int)),
        decreases ds.len() - i,
    {
        if i > 0 {
            out.append(" | ");
        }
        out.append(ds[i].name.as_str());
        proof {
            field_decl_views_index(ds@[i as int].fields@);
        }
        if ds[i].fields.len() > 0 {
            out.append("(");
            push_fields(out, &ds[i].fields);
            out.append(")");
        }
        assert(v.take(i + 1).drop_last() =~= v.take(i as int));
        assert(v.take(i + 1).last() == v[i as int]);
        assert(out@ =~= before + shown_variants(v.take(i + 1)));
        i = i + 1;
    }
    assert(v.take(i as int) =~= v);
}

pub open spec fn shown_data(d: DataDeclExprView) -> Seq<char> {
    let head = "data "@ + d.name + "("@ + shown_fields(d.fields) + ")"@;
    if d.variants.len() == 0 {
        head
    } else {
        head + " is "@ + shown_variants(d.variants)
    }
}

fn push_data(out: &mut String, d: &DataDeclExpr)
    ensures
        final(out)@ == old(out)@ + shown_data(crate::expression::data_decl_expr_view(*d)),
{
    let ghost before = out@;
    out.append("data ");
    out.append(d.name.as_str());
    out.append("(");
    push_fields(out, &d.fields);
    out.append(")");
    proof {
        variant_decl_views_index(d.variants@);
    }
    if d.variants.len() > 0 {
        out.append(" is ");
        push_variants(out, &d.variants);
    }
    assert(out@ =~= before + shown_data(crate::expression::data_decl_expr_view(*d)));
}

/// How a pattern prints.
pub open spec fn shown_pattern(p: PatternView) -> Seq<char> {
    let head = match p.path {
        Some(path) => path + "."@ + p.variant,
        None => p.variant,
    };
    if p.binds.len() == 0 {
        head
    } else {
        head + "("@ + listed(p.binds) + ")"@
    }
}

fn push_pattern(out: &mut String, p: &Pattern)
    ensures
        final(out)@ == old(out)@ + shown_pattern(pattern_view(*p)),
{
    let ghost before = out@;
    if let Some(path) = &p.path {
        out.append(path.as_str());
        out.append(".");
    }
    out.append(p.variant.as_str());
    if p.binds.len() > 0 {
        out.append("(");
        push_listed(out, &p.binds);
        out.append(")");
    }
    assert(out@ =~= before + shown_pattern(pattern_view(*p)));
}

pub open spec fn shown_arm(a: MatchArmView) -> Seq<char> {
    let head = "is "@ + shown_pattern(a.pattern);
    let guarded = match a.guard {
        Some(g) => head + " and "@ + part(*g),
        None => head,
    };
    guarded + " then "@ + part(*a.body) + "  "@
}

pub open spec fn shown_arms(arms: Seq<MatchArmView>) -> Seq<char>
    decreases arms.len(),
{
    if arms.len() == 0 {
        Seq::empty()
    } else {
        shown_arms(arms.drop_last()) + shown_arm(arms.last())
    }
}

fn push_arms(out: &mut String, arms: &Vec<MatchArm>)
    ensures
        final(out)@ == old(out)@ + shown_arms(match_arm_views(arms@)),
{
    let ghost before = out@;
    let ghost v = match_arm_views(arms@);
    proof {
        match_arm_views_index(arms@);
    }
    let mut i: usize = 0;
    assert(out@ =~= before + shown_arms(v.take(0)));
    while i < arms.len()
        invariant
            i <= arms.len() == v.len(),
            v == match_arm_views(arms@),
            forall|k: int| 0 <= k < arms.len() ==> #[trigger] v[k] == crate::expression::match_arm_view(arms@[k]),
            out@ == before + shown_arms(v.take(i as int)),
        decreases arms.len() - i,
    {
        let ghost now = out@;
        out.append("is ");
        push_pattern(out, &arms[i].pattern);
        if let Some(g) = &arms[i].guard {
            out.append(" and ");
            push_part(out, g);
        }
        out.append(" then ");
        push_part(out, &arms[i].body);
        out.append("  ");
        assert(out@ =~= now + shown_arm(v[i as int]));
        assert(v.take(i + 1).drop_last() =~= v.take(i as int));
        assert(v.take(i + 1).last() == v[i as int]);
        assert(out@ =~= before + shown_arms(v.take(i + 1)));
        i = i + 1;
    }
    assert(v.take(i as int) =~= v);
}

pub open spec fn opt_part(before: Seq<char>, n: Option<Box<Node>>) -> Seq<char> {
    match n {
        Some(x) => before + part(*x),
        None => Seq::empty(),
    }
}

fn push_opt_part(out: &mut String, head: &str, e: &Option<ExprRef>)
    ensures
        final(out)@ == old(out)@ + opt_part(head@, opt_node(*e)),
{
    let ghost before = out@;
    if let Some(x) = e {
        out.append(head);
        push_part(out, x);
    }
    assert(out@ =~= before + opt_part(head@, opt_node(*e)));
}

/// How an expression prints.
pub open spec fn shown_expression(a: Ast) -> Seq<char> {
    match a {
        Ast::Literal(x) => shown(x.token),
        Ast::Unary(x) => shown(x.op) + part(*x.expr),
        Ast::Binary(x) => "("@ + part(*x.left) + " "@ + shown(x.op) + " "@ + part(*x.right) + ")"@,
        Ast::Conditional(x) => "if "@ + part(*x.cond) + " then "@ + part(*x.true_branch) + opt_part(
            " else "@,
            x.false_branch,
        ),
        Ast::Assign(x) => part(*x.target) + " = "@ + part(*x.value),
        Ast::Function(x) => "fn "@ + debug_parameters(x.params) + " -> "@ + part(*x.body),
        Ast::Call(x) => part(*x.callable) + "("@ + parts(x.args, ", "@) + ")"@,
        Ast::Tuple(es) => if es.len() == 1 {
            "("@ + parts(es, ", "@) + ",)"@
        } else {
            "("@ + parts(es, ", "@) + ")"@
        },
        Ast::Block(es) => if es.len() == 0 {
            "{}"@
        } else {
            "{ "@ + parts(es, "; "@) + " }"@
        },
        Ast::Annotated(x) => part(*x.expr) + " : "@ + shown_type(x.ty.item),
        Ast::Index(x) => part(*x.target) + "["@ + part(*x.index) + "]"@,
        Ast::Slice(x) => part(*x.target) + "["@ + opt_part(""@, x.start) + ".."@ + opt_part(""@, x.end) + "]"@,
        Ast::Range(x) => part(*x.start) + ".."@ + part(*x.end),
        Ast::ForLoop(x) => "for "@ + x.var + " in "@ + part(*x.iterable) + opt_part(" if "@, x.cond) + " do "@ + part(
            *x.body,
        ),
        Ast::Comprehension(x) => "["@ + part(*x) + "]"@,
        Ast::DataDecl(d) => shown_data(d),
        Ast::FieldAccess(x) => part(*x.target) + "."@ + x.field,
        Ast::Import(x) => match x.kind {
            ImportKindView::Named(names) => "import "@ + str_debug(x.path) + " { "@ + listed(names) + " }"@,
            ImportKindView::Qualified(alias) => "import "@ + str_debug(x.path) + " as "@ + alias,
        },
        Ast::Match(x) => "match "@ + part(*x.subject) + " { "@ + shown_arms(x.arms) + opt_part("else "@, x.default)
            + "}"@,
        Ast::IsPattern(x) => part(*x.subject) + " is "@ + shown_pattern(x.pattern),
        Ast::Return(v) => match v {
            Some(x) => "return "@ + part(*x),
            None => "return"@,
        },
        Ast::Try(x) => part(*x) + "?"@,
        Ast::Unwrap(x) => part(*x) + "!"@,
        Ast::Catch(value, handler) => part(*value) + " catch "@ + part(*handler),
        Ast::MutArg(x) => "mut "@ + part(*x),
    }
}

#[verifier::rlimit(60)]
fn push_compound(out: &mut String, e: &Expression)
    requires
        e is Tuple || e is Block || e is Annotated || e is Index || e is Slice || e is Range || e is ForLoop
            || e is Comprehension || e is DataDecl,
    ensures
        final(out)@ == old(out)@ + shown_expression(e@),
{
    let ghost before = out@;
    match e {
        Expression::Tuple(es) => {
            out.append("(");
            push_parts(out, es, ", ");
            proof {
                nodes_index(es@);
            }
            if es.len() == 1 {
                out.append(",)");
            } else {
                out.append(")");
            }
        },
        Expression::Block(es) => {
            proof {
                nodes_index(es@);
            }
            if es.len() == 0 {
                out.append("{}");
            } else {
                out.append("{ ");
                push_parts(out, es, "; ");
                out.append(" }");
            }
        },
        Expression::Annotated(x) => {
            push_part(out, &x.expr);
            out.append(" : ");
            x.ty.item.push_shown(out);
        },
        Expression::Index(x) => {
            push_part(out, &x.target);
            out.append("[");
            push_part(out, &x.index);
            out.append("]");
        },
        Expression::Slice(x) => {
            push_part(out, &x.target);
            out.append("[");
            push_opt_part(out, "", &x.start);
            out.append("..");
            push_opt_part(out, "", &x.end);
            out.append("]");
        },
        Expression::Range(x) => {
            push_part(out, &x.start);
            out.append("..");
            push_part(out, &x.end);
        },
        Expression::ForLoop(x) => {
            out.append("for ");
            out.append(x.var.as_str());
            out.append(" in ");
            push_part(out, &x.iterable);
            push_opt_part(out, " if ", &x.cond);
            out.append(" do ");
            push_part(out, &x.body);
        },
        Expression::Comprehension(x) => {
            out.append("[");
            push_part(out, x);
            out.append("]");
        },
        Expression::DataDecl(d) => {
            push_data(out, d);
        },
        _ => {},
    }
    assert(out@ =~= before + shown_expression(e@));
}

#[verifier::rlimit(60)]
fn push_other(out: &mut String, e: &Expression)
    requires
        e is FieldAccess || e is Import || e is Match || e is IsPattern || e is Return || e is Try || e is Unwrap
            || e is Catch || e is MutArg,
    ensures
        final(out)@ == old(out)@ + shown_expression(e@),
{
    let ghost before = out@;
    match e {
        Expression::FieldAccess(x) => {
            push_part(out, &x.target);
            out.append(".");
            out.append(x.field.as_str());
        },
        Expression::Import(x) => {
            out.append("import ");
            push_str(out, x.path.as_str());
            match &x.kind {
                ImportKind::Named(names) => {
                    out.append(" { ");
                    push_listed(out, names);
                    out.append(" }");
                },
                ImportKind::Qualified(alias) => {
                    out.append(" as ");
                    out.append(alias.as_str());
                },
            }
        },
        Expression::Match(x) => {
            out.append("match ");
            push_part(out, &x.subject);
            out.append(" { ");
            push_arms(out, &x.arms);
            push_opt_part(out, "else ", &x.default);
            out.append("}");
        },
        Expression::IsPattern(x) => {
            push_part(out, &x.subject);
            out.append(" is ");
            push_pattern(out, &x.pattern);
        },
        Expression::Return(v) => match v {
            Some(x) => {
                out.append("return ");
                push_part(out, x);
            },
            None => {
                out.append("return");
            },
        },
        Expression::Try(x) => {
            push_part(out, x);
            out.append("?");
        },
        Expression::Unwrap(x) => {
            push_part(out, x);
            out.append("!");
        },
        Expression::Catch { value, handler } => {
            push_part(out, value);
            out.append(" catch ");
            push_part(out, handler);
        },
        Expression::MutArg(x) => {
            out.append("mut ");
            push_part(out, x);
        },
        _ => {},
    }
    assert(out@ =~= before + shown_expression(e@));
}

#[verifier::rlimit(60)]
fn push_simple(out: &mut String, e: &Expression)
    requires
        e is Literal || e is Unary || e is Binary || e is Conditional || e is Assign || e is Function || e is Call,
    ensures
        final(out)@ == old(out)@ + shown_expression(e@),
{
    let ghost before = out@;
    match e {
        Expression::Literal(x) => {
            let t = x.token.show();
            out.append(t.as_str());
        },
        Expression::Unary(x) => {
            let t = x.op.show();
            out.append(t.as_str());
            push_part(out, &x.expr);
        },
        Expression::Binary(x) => {
            let t = x.op.show();
            out.append("(");
            push_part(out, &x.left);
            out.append(" ");
            out.append(t.as_str());
            out.append(" ");
            push_part(out, &x.right);
            out.append(")");
        },
        Expression::Conditional(x) => {
            out.append("if ");
            push_part(out, &x.cond);
            out.append(" then ");
            push_part(out, &x.true_branch);
            push_opt_part(out, " else ", &x.false_branch);
        },
        Expression::Assign(x) => {
            push_part(out, &x.target);
            out.append(" = ");
            push_part(out, &x.value);
        },
        Expression::Function(x) => {
            out.append("fn ");
            push_parameters(out, &x.params);
            out.append(" -> ");
            push_part(out, &x.body);
        },
        Expression::Call(x) => {
            push_part(out, &x.callable);
            out.append("(");
            push_parts(out, &x.args, ", ");
            out.append(")");
        },
        _ => {},
    }
    assert(out@ =~= before + shown_expression(e@));
}

impl Expression {
    /// How this expression prints.
    pub fn show(&self) -> (r: String)
        ensures
            r@ == shown_expression(self@),
    {
        let mut out = String::new();
        match self {
            Expression::Literal(_)
            | Expression::Unary(_)
            | Expression::Binary(_)
            | Expression::Conditional(_)
            | Expression::Assign(_)
            | Expression::Function(_)
            | Expression::Call(_) => {
                push_simple(&mut out, self);
            },
            Expression::Tuple(_)
            | Expression::Block(_)
            | Expression::Annotated(_)
            | Expression::Index(_)
            | Expression::Slice(_)
            | Expression::Range(_)
            | Expression::ForLoop(_)
            | Expression::Comprehension(_)
            | Expression::DataDecl(_) => {
                push_compound(&mut out, self);
            },
            Expression::FieldAccess(_)
            | Expression::Import(_)
            | Expression::Match(_)
            | Expression::IsPattern(_)
            | Expression::Return(_)
            | Expression::Try(_)
            | Expression::Unwrap(_)
            | Expression::Catch { value: _, handler: _ }
            | Expression::MutArg(_) => {
                push_other(&mut out, self);
            },
        }
        assert(out@ =~= shown_expression(self@));
        out
    }
}

} // verus!
