//! Renaming: every reference to a name that gets a new one, in what is written.
use crate::expression::{
    AnnotatedExpr, AnnotatedExprView, AssignExpr, AssignExprView, Ast, BinaryExpr, BinaryExprView, CallExpr,
    CallExprView, ConditionalExpr, ConditionalExprView, DataDeclExpr, DataDeclExprView, ExprRef, Expression,
    FieldAccessExpr, FieldAccessExprView, FieldDecl, FieldDeclView, ForLoopExpr, ForLoopExprView, FunctionExpr,
    FunctionExprView, IndexExpr, IndexExprView, IsPatternExpr, IsPatternExprView, LiteralExpr, LiteralExprView,
    MatchArm, MatchArmView, MatchExpr, MatchExprView, Node, Parameter, ParameterView, Pattern, PatternView, RangeExpr,
    RangeExprView, SliceExpr, SliceExprView, UnaryExpr, UnaryExprView, VariantDecl, VariantDeclView,
    annotated_expr_view, assign_expr_view, binary_expr_view, call_expr_view, conditional_expr_view,
    data_decl_expr_view, field_access_expr_view, field_decl_view, field_decl_views, field_decl_views_index,
    for_loop_expr_view, function_expr_view, identifier_of, index_expr_view, is_pattern_expr_view, match_arm_view,
    match_arm_views, match_arm_views_index, match_expr_view, node, nodes, nodes_index, opt_node, parameter_view,
    parameter_views, parameter_views_index, pattern_view, range_expr_view, slice_expr_view, unary_expr_view,
    variant_decl_view, variant_decl_views, variant_decl_views_index,
};
use crate::text::{NameSet, chars_of, owned, same_text, string_of, texts};
use crate::tokens::{Spanned, Tok, Token};
use crate::type_expr::{TypeExpr, TypeNode, opt_type_node, own_names_change_nothing, renamed, type_names, type_node};
use vstd::prelude::*;

verus! {
// ── Renaming ─────────────────────────────────────────────────────────────

/// What names become, in the order in which that was settled.
pub type Pairs = Seq<(Seq<char>, Seq<char>)>;

pub open spec fn pair_views(ps: Seq<(String, String)>) -> Pairs {
    ps.map_values(|p: (String, String)| (p.0@, p.1@))
}

/// What a name becomes.
pub open spec fn becomes(ps: Pairs, name: Seq<char>) -> Option<Seq<char>>
    decreases ps.len(),
{
    if ps.len() == 0 {
        None
    } else if ps.last().0 == name {
        Some(ps.last().1)
    } else {
        becomes(ps.drop_last(), name)
    }
}

pub(crate) fn find_name<'a>(ps: &'a Vec<(String, String)>, name: &str) -> (r: Option<&'a String>)
    ensures
        match becomes(pair_views(ps@), name@) {
            Some(s) => r is Some && r->0@ == s,
            None => r is None,
        },
{
    let ghost v = pair_views(ps@);
    let mut i: usize = ps.len();
    assert(v.take(i as int) =~= v);
    while i > 0
        invariant
            i <= ps.len() == v.len(),
            v == pair_views(ps@),
            becomes(v.take(i as int), name@) == becomes(v, name@),
        decreases i,
    {
        assert(v.take(i as int).drop_last() =~= v.take(i - 1));
        assert(v.take(i as int).last() == v[i - 1]);
        i = i - 1;
        if same_text(ps[i].0.as_str(), name) {
            return Some(&ps[i].1);
        }
    }
    None
}

/// The renamings that a module is subject to: of plain names, and of the
/// members of each module that it has under an alias.
pub struct Renames {
    pub subst: Vec<(String, String)>,
    pub qualified: Vec<(String, Vec<(String, String)>)>,
}

pub ghost struct RenamesView {
    pub subst: Pairs,
    pub qualified: Seq<(Seq<char>, Pairs)>,
}

impl View for Renames {
    type V = RenamesView;

    open spec fn view(&self) -> RenamesView {
        RenamesView { subst: pair_views(self.subst@), qualified: alias_views(self.qualified@) }
    }
}

pub open spec fn alias_views(qs: Seq<(String, Vec<(String, String)>)>) -> Seq<(Seq<char>, Pairs)> {
    qs.map_values(|q: (String, Vec<(String, String)>)| (q.0@, pair_views(q.1@)))
}

/// The members of the module under an alias.
pub open spec fn members_of(qs: Seq<(Seq<char>, Pairs)>, alias: Seq<char>) -> Option<Pairs>
    decreases qs.len(),
{
    if qs.len() == 0 {
        None
    } else if qs.last().0 == alias {
        Some(qs.last().1)
    } else {
        members_of(qs.drop_last(), alias)
    }
}

pub(crate) fn find_members<'a>(
    qs: &'a Vec<(String, Vec<(String, String)>)>,
    alias: &str,
) -> (r: Option<&'a Vec<(String, String)>>)
    ensures
        match members_of(alias_views(qs@), alias@) {
            Some(m) => r is Some && pair_views(r->0@) == m,
            None => r is None,
        },
{
    let ghost v = alias_views(qs@);
    let mut i: usize = qs.len();
    assert(v.take(i as int) =~= v);
    while i > 0
        invariant
            i <= qs.len() == v.len(),
            v == alias_views(qs@),
            members_of(v.take(i as int), alias@) == members_of(v, alias@),
        decreases i,
    {
        assert(v.take(i as int).drop_last() =~= v.take(i - 1));
        assert(v.take(i as int).last() == v[i - 1]);
        i = i - 1;
        if same_text(qs[i].0.as_str(), alias) {
            return Some(&qs[i].1);
        }
    }
    None
}

/// The position of the first dot of a name.
pub open spec fn first_dot(s: Seq<char>, i: int) -> Option<int>
    decreases s.len() - i,
{
    if i < 0 || i >= s.len() {
        None
    } else if s[i] == '.' {
        Some(i)
    } else {
        first_dot(s, i + 1)
    }
}

/// What the name of a type or a trait becomes. A dotted one is a member of the
/// module under an alias.
pub open spec fn rename_name(name: Seq<char>, cx: RenamesView) -> Seq<char> {
    let to = match first_dot(name, 0) {
        Some(i) => match members_of(cx.qualified, name.take(i)) {
            Some(m) => becomes(m, name.skip(i + 1)),
            None => None,
        },
        None => becomes(cx.subst, name),
    };
    match to {
        Some(s) => s,
        None => name,
    }
}

fn dot_at(s: &Vec<char>) -> (r: Option<usize>)
    ensures
        match first_dot(s@, 0) {
            Some(i) => r is Some && r->0 == i && 0 <= i < s.len(),
            None => r is None,
        },
{
    let mut i: usize = 0;
    while i < s.len()
        invariant
            i <= s.len(),
            first_dot(s@, i as int) == first_dot(s@, 0),
        decreases s.len() - i,
    {
        if s[i] == '.' {
            return Some(i);
        }
        i = i + 1;
    }
    None
}

fn rewrite_name(name: &str, cx: &Renames) -> (r: String)
    ensures
        r@ == rename_name(name@, cx@),
{
    let chars = chars_of(name);
    let to = match dot_at(&chars) {
        Some(i) => {
            let alias = string_of(&chars, 0, i);
            let member = string_of(&chars, i + 1, chars.len());
            assert(alias@ =~= name@.take(i as int));
            assert(member@ =~= name@.skip(i + 1));
            match find_members(&cx.qualified, alias.as_str()) {
                Some(m) => find_name(m, member.as_str()),
                None => None,
            }
        },
        None => find_name(&cx.subst, name),
    };
    match to {
        Some(s) => owned(s.as_str()),
        None => owned(name),
    }
}

pub open spec fn rename_names(ns: Seq<Seq<char>>, cx: RenamesView) -> Seq<Seq<char>> {
    ns.map_values(|n: Seq<char>| rename_name(n, cx))
}

fn rewrite_names(ns: &Vec<String>, cx: &Renames) -> (r: Vec<String>)
    ensures
        texts(r@) == rename_names(texts(ns@), cx@),
{
    let mut out: Vec<String> = Vec::new();
    let mut i: usize = 0;
    while i < ns.len()
        invariant
            i <= ns.len(),
            texts(out@) =~= rename_names(texts(ns@).take(i as int), cx@),
        decreases ns.len() - i,
    {
        let ghost before = out@;
        out.push(rewrite_name(ns[i].as_str(), cx));
        assert(texts(out@) =~= texts(before).push(rename_name(ns@[i as int]@, cx@)));
        i = i + 1;
    }
    assert(texts(ns@).take(i as int) =~= texts(ns@));
    out
}

/// A type with all its names renamed.
pub open spec fn rename_type(t: TypeNode, cx: RenamesView) -> TypeNode {
    Spanned { span: t.span, item: renamed(t.item, rename_names(type_names(t.item), cx), 0) }
}

fn rewrite_type_expr(t: Spanned<TypeExpr>, cx: &Renames) -> (r: Spanned<TypeExpr>)
    ensures
        type_node(r) == rename_type(type_node(t), cx@),
{
    let mut t = t;
    let names = t.item.names();
    let new = rewrite_names(&names, cx);
    proof {
        assert(texts(new@).len() == texts(names@).len());
    }
    t.item.names_mut(&new);
    t
}

pub open spec fn rename_opt_type(t: Option<TypeNode>, cx: RenamesView) -> Option<TypeNode> {
    match t {
        Some(x) => Some(rename_type(x, cx)),
        None => None,
    }
}

fn rewrite_opt_type(t: Option<Spanned<TypeExpr>>, cx: &Renames) -> (r: Option<Spanned<TypeExpr>>)
    ensures
        opt_type_node(r) == rename_opt_type(opt_type_node(t), cx@),
{
    match t {
        Some(x) => Some(rewrite_type_expr(x, cx)),
        None => None,
    }
}

/// A plain name renamed, where it is to be.
pub open spec fn rename_plain(name: Seq<char>, cx: RenamesView) -> Seq<char> {
    match becomes(cx.subst, name) {
        Some(s) => s,
        None => name,
    }
}

fn rewrite_plain(name: String, cx: &Renames) -> (r: String)
    ensures
        r@ == rename_plain(name@, cx@),
{
    match find_name(&cx.subst, name.as_str()) {
        Some(s) => owned(s.as_str()),
        None => name,
    }
}

/// A name where it is referred to: renamed unless something local has it.
pub open spec fn rename_token(t: Tok, cx: RenamesView, sh: Set<Seq<char>>) -> Tok {
    match t {
        Tok::Name(name) => if sh.contains(name) {
            t
        } else {
            Tok::Name(rename_plain(name, cx))
        },
        _ => t,
    }
}

fn rewrite_token(t: Token, cx: &Renames, sh: &NameSet) -> (r: Token)
    ensures
        r@ == rename_token(t@, cx@, sh.set()),
{
    match t {
        Token::Identifier(name) => {
            if sh.contains(name.as_str()) {
                Token::Identifier(name)
            } else {
                Token::Identifier(rewrite_plain(name, cx))
            }
        },
        other => other,
    }
}

pub open spec fn rename_pattern(p: PatternView, cx: RenamesView) -> PatternView {
    match p.path {
        Some(path) => PatternView { path: Some(rename_plain(path, cx)), ..p },
        None => PatternView { variant: rename_plain(p.variant, cx), ..p },
    }
}

fn rewrite_pattern(p: Pattern, cx: &Renames) -> (r: Pattern)
    ensures
        pattern_view(r) == rename_pattern(pattern_view(p), cx@),
{
    match p.path {
        Some(path) => Pattern {
            path: Some(rewrite_plain(path, cx)),
            variant: p.variant,
            binds: p.binds,
            resolved_member: p.resolved_member,
        },
        None => Pattern {
            path: None,
            variant: rewrite_plain(p.variant, cx),
            binds: p.binds,
            resolved_member: p.resolved_member,
        },
    }
}

pub open spec fn rename_fields(fs: Seq<FieldDeclView>, cx: RenamesView) -> Seq<FieldDeclView> {
    fs.map_values(|f: FieldDeclView| FieldDeclView { name: f.name, ty: rename_type(f.ty, cx) })
}

fn rewrite_fields(fs: Vec<FieldDecl>, cx: &Renames) -> (r: Vec<FieldDecl>)
    ensures
        field_decl_views(r@) == rename_fields(field_decl_views(fs@), cx@),
{
    let ghost v = field_decl_views(fs@);
    proof {
        field_decl_views_index(fs@);
    }
    let ghost given = fs@;
    let mut left = fs;
    let mut out: Vec<FieldDecl> = Vec::new();
    while left.len() > 0
        invariant
            left.len() + out.len() == v.len() == given.len(),
            left@ == given.take(left.len() as int),
            forall|k: int| 0 <= k < given.len() ==> #[trigger] v[k] == field_decl_view(given[k]),
            forall|k: int|
                0 <= k < out.len() ==> field_decl_view(#[trigger] out@[k]) == rename_fields(v, cx@)[v.len() - 1 - k],
        decreases left.len(),
    {
        let ghost n = left.len();
        match left.pop() {
            Some(f) => {
                assert(f == given[n - 1]);
                assert(v[n - 1] == field_decl_view(given[n - 1]));
                let ty = rewrite_type_expr(f.ty, cx);
                out.push(FieldDecl { name: f.name, ty });
                assert(left@ =~= given.take(n - 1));
            },
            None => {},
        }
    }
    let r = reversed(out);
    proof {
        field_decl_views_index(r@);
        assert(field_decl_views(r@) =~= rename_fields(v, cx@));
    }
    r
}

/// The same items in the opposite order.
pub(crate) fn reversed<T>(items: Vec<T>) -> (r: Vec<T>)
    ensures
        r@.len() == items@.len(),
        forall|k: int| 0 <= k < r@.len() ==> #[trigger] r@[k] == items@[items@.len() - 1 - k],
{
    let ghost given = items@;
    let mut left = items;
    let mut out: Vec<T> = Vec::new();
    while left.len() > 0
        invariant
            left.len() + out.len() == given.len(),
            left@ == given.take(left.len() as int),
            forall|k: int| 0 <= k < out.len() ==> #[trigger] out@[k] == given[given.len() - 1 - k],
        decreases left.len(),
    {
        let ghost n = left.len();
        match left.pop() {
            Some(x) => {
                assert(x == given[n - 1]);
                out.push(x);
                assert(left@ =~= given.take(n - 1));
            },
            None => {},
        }
    }
    out
}

pub open spec fn rename_variants(ds: Seq<VariantDeclView>, cx: RenamesView, local: bool) -> Seq<VariantDeclView> {
    ds.map_values(
        |d: VariantDeclView|
            VariantDeclView {
                name: if local {
                    d.name
                } else {
                    rename_plain(d.name, cx)
                },
                fields: rename_fields(d.fields, cx),
            },
    )
}

fn rewrite_variants(ds: Vec<VariantDecl>, cx: &Renames, local: bool) -> (r: Vec<VariantDecl>)
    ensures
        variant_decl_views(r@) == rename_variants(variant_decl_views(ds@), cx@, local),
{
    let ghost v = variant_decl_views(ds@);
    proof {
        variant_decl_views_index(ds@);
    }
    let ghost given = ds@;
    let mut left = ds;
    let mut out: Vec<VariantDecl> = Vec::new();
    while left.len() > 0
        invariant
            left.len() + out.len() == v.len() == given.len(),
            left@ == given.take(left.len() as int),
            forall|k: int| 0 <= k < given.len() ==> #[trigger] v[k] == variant_decl_view(given[k]),
            forall|k: int|
                0 <= k < out.len() ==> variant_decl_view(#[trigger] out@[k]) == rename_variants(v, cx@, local)[v.len()
                    - 1 - k],
        decreases left.len(),
    {
        let ghost n = left.len();
        match left.pop() {
            Some(d) => {
                assert(d == given[n - 1]);
                assert(v[n - 1] == variant_decl_view(given[n - 1]));
                let name = if local {
                    d.name
                } else {
                    rewrite_plain(d.name, cx)
                };
                let fields = rewrite_fields(d.fields, cx);
                out.push(VariantDecl { name, fields });
                assert(left@ =~= given.take(n - 1));
            },
            None => {},
        }
    }
    let r = reversed(out);
    proof {
        variant_decl_views_index(r@);
        assert(variant_decl_views(r@) =~= rename_variants(v, cx@, local));
    }
    r
}

/// A declaration: its own names are renamed where it is one of the module's,
/// and the types and traits that it refers to everywhere.
pub open spec fn rename_data(d: DataDeclExprView, cx: RenamesView, local: bool) -> DataDeclExprView {
    DataDeclExprView {
        name: if local {
            d.name
        } else {
            rename_plain(d.name, cx)
        },
        type_params: d.type_params,
        fields: rename_fields(d.fields, cx),
        variants: rename_variants(d.variants, cx, local),
        provides: rename_names(d.provides, cx),
    }
}

fn rewrite_data(d: DataDeclExpr, cx: &Renames, local: bool) -> (r: DataDeclExpr)
    ensures
        data_decl_expr_view(r) == rename_data(data_decl_expr_view(d), cx@, local),
{
    let name = if local {
        d.name
    } else {
        rewrite_plain(d.name, cx)
    };
    let fields = rewrite_fields(d.fields, cx);
    let variants = rewrite_variants(d.variants, cx, local);
    let provides = rewrite_names(&d.provides, cx);
    DataDeclExpr { name, type_params: d.type_params, fields, variants, provides }
}

pub open spec fn rename_params(ps: Seq<ParameterView>, cx: RenamesView) -> Seq<ParameterView> {
    ps.map_values(
        |p: ParameterView| ParameterView { name: p.name, ty: rename_opt_type(p.ty, cx), mutable: p.mutable },
    )
}

fn rewrite_params(ps: Vec<Parameter>, cx: &Renames) -> (r: Vec<Parameter>)
    ensures
        parameter_views(r@) == rename_params(parameter_views(ps@), cx@),
{
    let ghost v = parameter_views(ps@);
    proof {
        parameter_views_index(ps@);
    }
    let ghost given = ps@;
    let mut left = ps;
    let mut out: Vec<Parameter> = Vec::new();
    while left.len() > 0
        invariant
            left.len() + out.len() == v.len() == given.len(),
            left@ == given.take(left.len() as int),
            forall|k: int| 0 <= k < given.len() ==> #[trigger] v[k] == parameter_view(given[k]),
            forall|k: int|
                0 <= k < out.len() ==> parameter_view(#[trigger] out@[k]) == rename_params(v, cx@)[v.len() - 1 - k],
        decreases left.len(),
    {
        let ghost n = left.len();
        match left.pop() {
            Some(p) => {
                assert(p == given[n - 1]);
                assert(v[n - 1] == parameter_view(given[n - 1]));
                let ty = rewrite_opt_type(p.ty, cx);
                out.push(Parameter { name: p.name, ty, mutable: p.mutable });
                assert(left@ =~= given.take(n - 1));
            },
            None => {},
        }
    }
    let r = reversed(out);
    proof {
        parameter_views_index(r@);
        assert(parameter_views(r@) =~= rename_params(v, cx@));
    }
    r
}

pub open spec fn param_names(ps: Seq<ParameterView>) -> Set<Seq<char>>
    decreases ps.len(),
{
    if ps.len() == 0 {
        Set::empty()
    } else {
        param_names(ps.drop_last()).insert(ps.last().name)
    }
}

fn names_of_params(ps: &Vec<Parameter>) -> (r: NameSet)
    ensures
        r.set() == param_names(parameter_views(ps@)),
{
    let ghost v = parameter_views(ps@);
    proof {
        parameter_views_index(ps@);
    }
    let mut out = NameSet::empty();
    let mut i: usize = 0;
    while i < ps.len()
        invariant
            i <= ps.len() == v.len(),
            forall|k: int| 0 <= k < ps.len() ==> #[trigger] v[k] == parameter_view(ps@[k]),
            out.set() == param_names(v.take(i as int)),
        decreases ps.len() - i,
    {
        assert(v.take(i + 1).drop_last() =~= v.take(i as int));
        assert(v.take(i + 1).last() == v[i as int]);
        out = out.with(ps[i].name.as_str());
        i = i + 1;
    }
    assert(v.take(i as int) =~= v);
    out
}

/// What names an arm of a `match` adds to the local ones.
pub open spec fn with_binds(sh: Set<Seq<char>>, binds: Seq<Seq<char>>) -> Set<Seq<char>>
    decreases binds.len(),
{
    if binds.len() == 0 {
        sh
    } else if binds.last() == "_"@ {
        with_binds(sh, binds.drop_last())
    } else {
        with_binds(sh, binds.drop_last()).insert(binds.last())
    }
}

/// The local names after an arm: those that it added are gone again.
pub open spec fn without_binds(sh: Set<Seq<char>>, before: Set<Seq<char>>, binds: Seq<Seq<char>>) -> Set<Seq<char>>
    decreases binds.len(),
{
    if binds.len() == 0 {
        sh
    } else if binds.last() == "_"@ || before.contains(binds.last()) {
        without_binds(sh, before, binds.drop_last())
    } else {
        without_binds(sh, before, binds.drop_last()).remove(binds.last())
    }
}

fn add_binds(sh: &NameSet, binds: &Vec<String>) -> (r: NameSet)
    ensures
        r.set() == with_binds(sh.set(), texts(binds@)),
{
    let ghost v = texts(binds@);
    let mut out = sh.copied();
    let mut i: usize = 0;
    while i < binds.len()
        invariant
            i <= binds.len() == v.len(),
            v == texts(binds@),
            out.set() == with_binds(sh.set(), v.take(i as int)),
        decreases binds.len() - i,
    {
        assert(v.take(i + 1).drop_last() =~= v.take(i as int));
        assert(v.take(i + 1).last() == binds@[i as int]@);
        if !same_text(binds[i].as_str(), "_") {
            out = out.with(binds[i].as_str());
        }
        i = i + 1;
    }
    assert(v.take(i as int) =~= v);
    out
}

fn drop_binds(sh: &NameSet, before: &NameSet, binds: &Vec<String>) -> (r: NameSet)
    ensures
        r.set() == without_binds(sh.set(), before.set(), texts(binds@)),
{
    let ghost v = texts(binds@);
    let mut out = sh.copied();
    let mut i: usize = 0;
    while i < binds.len()
        invariant
            i <= binds.len() == v.len(),
            v == texts(binds@),
            out.set() == without_binds(sh.set(), before.set(), v.take(i as int)),
        decreases binds.len() - i,
    {
        assert(v.take(i + 1).drop_last() =~= v.take(i as int));
        assert(v.take(i + 1).last() == binds@[i as int]@);
        if !same_text(binds[i].as_str(), "_") && !before.contains(binds[i].as_str()) {
            out = out.without(binds[i].as_str());
        }
        i = i + 1;
    }
    assert(v.take(i as int) =~= v);
    out
}

/// An expression with its references renamed, and the local names after it.
/// `sh` are the local names before it, which are not renamed. Within a
/// function, `local` holds, and a name that is bound becomes a local one;
/// outside it is the module's own and is renamed.
pub open spec fn rename_ast(a: Ast, cx: RenamesView, sh: Set<Seq<char>>, local: bool) -> (Ast, Set<Seq<char>>)
    decreases a, 2int,
{
    match a {
        Ast::Literal(x) => (Ast::Literal(LiteralExprView { token: rename_token(x.token, cx, sh) }), sh),
        Ast::Return(x) => {
            let (x, sh) = rename_opt(x, cx, sh, local);
            (Ast::Return(x), sh)
        },
        Ast::Unary(x) => {
            let (expr, sh) = rename_node(*x.expr, cx, sh, local);
            (Ast::Unary(UnaryExprView { expr: Box::new(expr), ..x }), sh)
        },
        Ast::Binary(x) => {
            let (left, sh) = rename_node(*x.left, cx, sh, local);
            let (right, sh) = rename_node(*x.right, cx, sh, local);
            (Ast::Binary(BinaryExprView { op: x.op, left: Box::new(left), right: Box::new(right) }), sh)
        },
        Ast::Conditional(x) => {
            let (cond, sh) = rename_node(*x.cond, cx, sh, local);
            let (true_branch, sh) = rename_node(*x.true_branch, cx, sh, local);
            let (false_branch, sh) = rename_opt(x.false_branch, cx, sh, local);
            (Ast::Conditional(ConditionalExprView { cond: Box::new(cond), true_branch: Box::new(true_branch), false_branch }), sh)
        },
        Ast::Assign(x) => rename_assign(x, cx, sh, local),
        Ast::Function(x) => rename_function(x, cx, sh, local),
        Ast::Call(x) => rename_call(x, cx, sh, local),
        Ast::Tuple(es) => {
            let (es, sh) = rename_all(es, cx, sh, local);
            (Ast::Tuple(es), sh)
        },
        Ast::Block(es) => {
            let (es, sh) = rename_all(es, cx, sh, local);
            (Ast::Block(es), sh)
        },
        Ast::Annotated(x) => {
            let (expr, sh) = rename_node(*x.expr, cx, sh, local);
            (Ast::Annotated(AnnotatedExprView { expr: Box::new(expr), ty: rename_type(x.ty, cx) }), sh)
        },
        Ast::Index(x) => {
            let (target, sh) = rename_node(*x.target, cx, sh, local);
            let (index, sh) = rename_node(*x.index, cx, sh, local);
            (Ast::Index(IndexExprView { target: Box::new(target), index: Box::new(index) }), sh)
        },
        Ast::Slice(x) => {
            let (target, sh) = rename_node(*x.target, cx, sh, local);
            let (start, sh) = rename_opt(x.start, cx, sh, local);
            let (end, sh) = rename_opt(x.end, cx, sh, local);
            (Ast::Slice(SliceExprView { target: Box::new(target), start, end }), sh)
        },
        Ast::Range(x) => {
            let (start, sh) = rename_node(*x.start, cx, sh, local);
            let (end, sh) = rename_node(*x.end, cx, sh, local);
            (Ast::Range(RangeExprView { start: Box::new(start), end: Box::new(end) }), sh)
        },
        Ast::ForLoop(x) => rename_for_loop(x, cx, sh, local),
        Ast::Comprehension(x) => {
            let (x, sh) = rename_node(*x, cx, sh, local);
            (Ast::Comprehension(Box::new(x)), sh)
        },
        Ast::DataDecl(d) => (Ast::DataDecl(rename_data(d, cx, local)), sh),
        Ast::FieldAccess(x) => rename_field_access(x, cx, sh, local),
        Ast::Import(x) => (Ast::Import(x), sh),
        Ast::Match(x) => rename_match(x, cx, sh, local),
        Ast::IsPattern(x) => rename_is_pattern(x, cx, sh, local),
        Ast::Try(x) => {
            let (x, sh) = rename_node(*x, cx, sh, local);
            (Ast::Try(Box::new(x)), sh)
        },
        Ast::Unwrap(x) => {
            let (x, sh) = rename_node(*x, cx, sh, local);
            (Ast::Unwrap(Box::new(x)), sh)
        },
        Ast::Catch(value, handler) => {
            let (value, sh) = rename_node(*value, cx, sh, local);
            let (handler, sh) = rename_node(*handler, cx, sh, local);
            (Ast::Catch(Box::new(value), Box::new(handler)), sh)
        },
        Ast::MutArg(x) => {
            let (x, sh) = rename_node(*x, cx, sh, local);
            (Ast::MutArg(Box::new(x)), sh)
        },
    }
}

pub open spec fn rename_node(n: Node, cx: RenamesView, sh: Set<Seq<char>>, local: bool) -> (Node, Set<Seq<char>>)
    decreases n, 2int,
{
    let (item, sh) = rename_ast(n.item, cx, sh, local);
    (Spanned { span: n.span, item }, sh)
}

pub open spec fn rename_opt(n: Option<Box<Node>>, cx: RenamesView, sh: Set<Seq<char>>, local: bool) -> (
    Option<Box<Node>>,
    Set<Seq<char>>,
)
    decreases n, 2int,
{
    match n {
        Some(x) => {
            let (x, sh) = rename_node(*x, cx, sh, local);
            (Some(Box::new(x)), sh)
        },
        None => (None, sh),
    }
}

pub open spec fn rename_all(ns: Seq<Node>, cx: RenamesView, sh: Set<Seq<char>>, local: bool) -> (
    Seq<Node>,
    Set<Seq<char>>,
)
    decreases ns, 2int,
{
    if ns.len() == 0 {
        (Seq::empty(), sh)
    } else {
        let (done, sh) = rename_all(ns.drop_last(), cx, sh, local);
        let (n, sh) = rename_node(ns.last(), cx, sh, local);
        (done.push(n), sh)
    }
}

/// The arguments of a call. Of `name = value`, a field of a struct, only the
/// value is looked at.
pub open spec fn rename_args(ns: Seq<Node>, cx: RenamesView, sh: Set<Seq<char>>, local: bool) -> (
    Seq<Node>,
    Set<Seq<char>>,
)
    decreases ns, 2int,
{
    if ns.len() == 0 {
        (Seq::empty(), sh)
    } else {
        let (done, sh) = rename_args(ns.drop_last(), cx, sh, local);
        let (n, sh) = rename_arg(ns.last(), cx, sh, local);
        (done.push(n), sh)
    }
}

pub open spec fn rename_arg(n: Node, cx: RenamesView, sh: Set<Seq<char>>, local: bool) -> (Node, Set<Seq<char>>)
    decreases n, 3int,
{
    match n.item {
        Ast::Assign(x) => {
            let (value, sh) = rename_node(*x.value, cx, sh, local);
            (Spanned { span: n.span, item: Ast::Assign(AssignExprView { value: Box::new(value), ..x }) }, sh)
        },
        _ => rename_node(n, cx, sh, local),
    }
}

/// A field. Of the module under an alias it is that module's name.
pub open spec fn rename_field_access(x: FieldAccessExprView, cx: RenamesView, sh: Set<Seq<char>>, local: bool) -> (
    Ast,
    Set<Seq<char>>,
)
    decreases x, 2int,
{
    match member_name(x, cx, sh) {
        Some(name) => (Ast::Literal(LiteralExprView { token: Tok::Name(name) }), sh),
        None => {
            let (target, sh) = rename_node(*x.target, cx, sh, local);
            (Ast::FieldAccess(FieldAccessExprView { target: Box::new(target), field: x.field }), sh)
        },
    }
}

/// The name of a module's member that a field access stands for.
pub open spec fn member_name(x: FieldAccessExprView, cx: RenamesView, sh: Set<Seq<char>>) -> Option<Seq<char>> {
    match identifier_of(x.target.item) {
        Some(alias) => if sh.contains(alias) {
            None
        } else {
            match members_of(cx.qualified, alias) {
                Some(m) => becomes(m, x.field),
                None => None,
            }
        },
        None => None,
    }
}

pub open spec fn rename_assign(x: AssignExprView, cx: RenamesView, sh: Set<Seq<char>>, local: bool) -> (
    Ast,
    Set<Seq<char>>,
)
    decreases x, 2int,
{
    let (value, sh) = rename_node(*x.value, cx, sh, local);
    let typ = rename_opt_type(x.typ, cx);
    match identifier_of(x.target.item) {
        Some(name) => if local {
            (
                Ast::Assign(AssignExprView { target: x.target, typ, value: Box::new(value), decl: x.decl }),
                sh.insert(name),
            )
        } else {
            let token = Tok::Name(rename_plain(name, cx));
            let target = Spanned { span: x.target.span, item: Ast::Literal(LiteralExprView { token }) };
            (
                Ast::Assign(AssignExprView { target: Box::new(target), typ, value: Box::new(value), decl: x.decl }),
                sh,
            )
        },
        None => {
            let (target, sh) = rename_node(*x.target, cx, sh, local);
            (
                Ast::Assign(AssignExprView { target: Box::new(target), typ, value: Box::new(value), decl: x.decl }),
                sh,
            )
        },
    }
}

/// A function. Its body is a scope of its own, in which its parameters are
/// local.
pub open spec fn rename_function(x: FunctionExprView, cx: RenamesView, sh: Set<Seq<char>>, local: bool) -> (
    Ast,
    Set<Seq<char>>,
)
    decreases x, 2int,
{
    let (body, _) = rename_node(*x.body, cx, param_names(x.params), true);
    (
        Ast::Function(
            FunctionExprView {
                params: rename_params(x.params, cx),
                body: Box::new(body),
                return_type: rename_opt_type(x.return_type, cx),
            },
        ),
        sh,
    )
}

pub open spec fn rename_call(x: CallExprView, cx: RenamesView, sh: Set<Seq<char>>, local: bool) -> (
    Ast,
    Set<Seq<char>>,
)
    decreases x, 2int,
{
    let (callable, sh) = rename_node(*x.callable, cx, sh, local);
    let (args, sh) = rename_args(x.args, cx, sh, local);
    (Ast::Call(CallExprView { callable: Box::new(callable), args }), sh)
}

/// A loop. Its variable is local in its guard and its body.
pub open spec fn rename_for_loop(x: ForLoopExprView, cx: RenamesView, sh: Set<Seq<char>>, local: bool) -> (
    Ast,
    Set<Seq<char>>,
)
    decreases x, 2int,
{
    let (iterable, sh) = rename_node(*x.iterable, cx, sh, local);
    let was = sh.contains(x.var);
    let sh = sh.insert(x.var);
    let (cond, sh) = rename_opt(x.cond, cx, sh, local);
    let (body, sh) = rename_node(*x.body, cx, sh, local);
    let sh = if was {
        sh
    } else {
        sh.remove(x.var)
    };
    (
        Ast::ForLoop(
            ForLoopExprView { var: x.var, iterable: Box::new(iterable), cond, body: Box::new(body) },
        ),
        sh,
    )
}

/// An arm. The names that its pattern binds are local in its guard and its
/// body.
pub open spec fn rename_arm(x: MatchArmView, cx: RenamesView, sh: Set<Seq<char>>, local: bool) -> (
    MatchArmView,
    Set<Seq<char>>,
)
    decreases x, 2int,
{
    let inner = with_binds(sh, x.pattern.binds);
    let (guard, inner) = rename_opt(x.guard, cx, inner, local);
    let (body, inner) = rename_node(*x.body, cx, inner, local);
    (
        MatchArmView { pattern: rename_pattern(x.pattern, cx), guard, body: Box::new(body) },
        without_binds(inner, sh, x.pattern.binds),
    )
}

pub open spec fn rename_arms(xs: Seq<MatchArmView>, cx: RenamesView, sh: Set<Seq<char>>, local: bool) -> (
    Seq<MatchArmView>,
    Set<Seq<char>>,
)
    decreases xs, 2int,
{
    if xs.len() == 0 {
        (Seq::empty(), sh)
    } else {
        let (done, sh) = rename_arms(xs.drop_last(), cx, sh, local);
        let (x, sh) = rename_arm(xs.last(), cx, sh, local);
        (done.push(x), sh)
    }
}

pub open spec fn rename_match(x: MatchExprView, cx: RenamesView, sh: Set<Seq<char>>, local: bool) -> (
    Ast,
    Set<Seq<char>>,
)
    decreases x, 2int,
{
    let (subject, sh) = rename_node(*x.subject, cx, sh, local);
    let (arms, sh) = rename_arms(x.arms, cx, sh, local);
    let (default, sh) = rename_opt(x.default, cx, sh, local);
    (Ast::Match(MatchExprView { subject: Box::new(subject), arms, default }), sh)
}

pub open spec fn rename_is_pattern(x: IsPatternExprView, cx: RenamesView, sh: Set<Seq<char>>, local: bool) -> (
    Ast,
    Set<Seq<char>>,
)
    decreases x, 2int,
{
    let (subject, sh) = rename_node(*x.subject, cx, sh, local);
    (
        Ast::IsPattern(
            IsPatternExprView { subject: Box::new(subject), pattern: rename_pattern(x.pattern, cx) },
        ),
        sh,
    )
}

pub(crate) fn rewrite_node(
    n: Spanned<Expression>,
    cx: &Renames,
    sh: NameSet,
    local: bool,
) -> (r: (Spanned<Expression>, NameSet))
    ensures
        (node(r.0), r.1.set()) == rename_node(node(n), cx@, sh.set(), local),
    decreases n, 2int,
{
    let (item, sh) = rewrite(n.item, cx, sh, local);
    (Spanned { span: n.span, item }, sh)
}

fn rewrite_ref(n: ExprRef, cx: &Renames, sh: NameSet, local: bool) -> (r: (ExprRef, NameSet))
    ensures
        (node(*r.0), r.1.set()) == rename_node(node(*n), cx@, sh.set(), local),
    decreases n, 3int,
{
    let (x, sh) = rewrite_node(*n, cx, sh, local);
    (Box::new(x), sh)
}

fn rewrite_opt(n: Option<ExprRef>, cx: &Renames, sh: NameSet, local: bool) -> (r: (Option<ExprRef>, NameSet))
    ensures
        (opt_node(r.0), r.1.set()) == rename_opt(opt_node(n), cx@, sh.set(), local),
    decreases n, 2int,
{
    match n {
        Some(x) => {
            let (x, sh) = rewrite_ref(x, cx, sh, local);
            (Some(x), sh)
        },
        None => (None, sh),
    }
}

fn rewrite_all(
    es: Vec<Spanned<Expression>>,
    cx: &Renames,
    sh: NameSet,
    local: bool,
) -> (r: (Vec<Spanned<Expression>>, NameSet))
    ensures
        (nodes(r.0@), r.1.set()) == rename_all(nodes(es@), cx@, sh.set(), local),
    decreases es, 2int,
{
    let ghost given = es;
    let ghost v = nodes(es@);
    let ghost start = sh.set();
    proof {
        nodes_index(es@);
    }
    let mut left = reversed(es);
    let mut sh = sh;
    let mut out: Vec<Spanned<Expression>> = Vec::new();
    while left.len() > 0
        invariant
            out.len() + left.len() == v.len() == given.len(),
            forall|k: int| 0 <= k < given.len() ==> #[trigger] v[k] == node(given@[k]),
            forall|k: int| 0 <= k < left.len() ==> #[trigger] left@[k] == given@[given.len() - 1 - k],
            given == es,
            (nodes(out@), sh.set()) == rename_all(v.take(out.len() as int), cx@, start, local),
        decreases left.len(),
    {
        let ghost i = out.len() as int;
        assert(v.take(i + 1).drop_last() =~= v.take(i));
        assert(v.take(i + 1).last() == v[i]);
        match left.pop() {
            Some(x) => {
                assert(x == given@[i]);
                assert(decreases_to!(es => es@[i]));
                let (y, after) = rewrite_node(x, cx, sh, local);
                sh = after;
                let ghost done = out@;
                out.push(y);
                assert(out@.drop_last() =~= done);
            },
            None => {},
        }
    }
    assert(v.take(out.len() as int) =~= v);
    (out, sh)
}

fn rewrite_args(
    es: Vec<Spanned<Expression>>,
    cx: &Renames,
    sh: NameSet,
    local: bool,
) -> (r: (Vec<Spanned<Expression>>, NameSet))
    ensures
        (nodes(r.0@), r.1.set()) == rename_args(nodes(es@), cx@, sh.set(), local),
    decreases es, 2int,
{
    let ghost given = es;
    let ghost v = nodes(es@);
    let ghost start = sh.set();
    proof {
        nodes_index(es@);
    }
    let mut left = reversed(es);
    let mut sh = sh;
    let mut out: Vec<Spanned<Expression>> = Vec::new();
    while left.len() > 0
        invariant
            out.len() + left.len() == v.len() == given.len(),
            forall|k: int| 0 <= k < given.len() ==> #[trigger] v[k] == node(given@[k]),
            forall|k: int| 0 <= k < left.len() ==> #[trigger] left@[k] == given@[given.len() - 1 - k],
            given == es,
            (nodes(out@), sh.set()) == rename_args(v.take(out.len() as int), cx@, start, local),
        decreases left.len(),
    {
        let ghost i = out.len() as int;
        assert(v.take(i + 1).drop_last() =~= v.take(i));
        assert(v.take(i + 1).last() == v[i]);
        match left.pop() {
            Some(x) => {
                assert(x == given@[i]);
                assert(decreases_to!(es => es@[i]));
                let (y, after) = rewrite_arg(x, cx, sh, local);
                sh = after;
                let ghost done = out@;
                out.push(y);
                assert(out@.drop_last() =~= done);
            },
            None => {},
        }
    }
    assert(v.take(out.len() as int) =~= v);
    (out, sh)
}

fn rewrite_arms(es: Vec<MatchArm>, cx: &Renames, sh: NameSet, local: bool) -> (r: (Vec<MatchArm>, NameSet))
    ensures
        (match_arm_views(r.0@), r.1.set()) == rename_arms(match_arm_views(es@), cx@, sh.set(), local),
    decreases es, 2int,
{
    let ghost given = es;
    let ghost v = match_arm_views(es@);
    let ghost start = sh.set();
    proof {
        match_arm_views_index(es@);
    }
    let mut left = reversed(es);
    let mut sh = sh;
    let mut out: Vec<MatchArm> = Vec::new();
    while left.len() > 0
        invariant
            out.len() + left.len() == v.len() == given.len(),
            forall|k: int| 0 <= k < given.len() ==> #[trigger] v[k] == match_arm_view(given@[k]),
            forall|k: int| 0 <= k < left.len() ==> #[trigger] left@[k] == given@[given.len() - 1 - k],
            given == es,
            (match_arm_views(out@), sh.set()) == rename_arms(v.take(out.len() as int), cx@, start, local),
        decreases left.len(),
    {
        let ghost i = out.len() as int;
        assert(v.take(i + 1).drop_last() =~= v.take(i));
        assert(v.take(i + 1).last() == v[i]);
        match left.pop() {
            Some(x) => {
                assert(x == given@[i]);
                assert(decreases_to!(es => es@[i]));
                let (y, after) = rewrite_arm(x, cx, sh, local);
                sh = after;
                let ghost done = out@;
                out.push(y);
                assert(out@.drop_last() =~= done);
            },
            None => {},
        }
    }
    assert(v.take(out.len() as int) =~= v);
    (out, sh)
}

fn rewrite_arg(n: Spanned<Expression>, cx: &Renames, sh: NameSet, local: bool) -> (r: (Spanned<Expression>, NameSet))
    ensures
        (node(r.0), r.1.set()) == rename_arg(node(n), cx@, sh.set(), local),
    decreases n, 3int,
{
    let ghost given = n;
    match n.item {
        Expression::Assign(x) => {
            assert(given.item.ast() == Ast::Assign(assign_expr_view(x)));
            let (value, sh) = rewrite_ref(x.value, cx, sh, local);
            let y = AssignExpr { target: x.target, typ: x.typ, value, decl: x.decl };
            let item = Expression::Assign(y);
            assert(item.ast() == Ast::Assign(assign_expr_view(y)));
            (Spanned { span: n.span, item }, sh)
        },
        item => {
            let same = Spanned { span: n.span, item };
            assert(same == given);
            rewrite_node(same, cx, sh, local)
        },
    }
}

fn rewrite_arm(x: MatchArm, cx: &Renames, sh: NameSet, local: bool) -> (r: (MatchArm, NameSet))
    ensures
        (match_arm_view(r.0), r.1.set()) == rename_arm(match_arm_view(x), cx@, sh.set(), local),
    decreases x, 2int,
{
    let inner = add_binds(&sh, &x.pattern.binds);
    let (guard, inner) = rewrite_opt(x.guard, cx, inner, local);
    let (body, inner) = rewrite_ref(x.body, cx, inner, local);
    let after = drop_binds(&inner, &sh, &x.pattern.binds);
    let pattern = rewrite_pattern(x.pattern, cx);
    (MatchArm { pattern, guard, body }, after)
}

fn rewrite_unary(x: UnaryExpr, cx: &Renames, sh: NameSet, local: bool) -> (r: (Expression, NameSet))
    ensures
        (r.0@, r.1.set()) == rename_ast(Ast::Unary(unary_expr_view(x)), cx@, sh.set(), local),
    decreases x, 2int,
{
    let (expr, sh) = rewrite_ref(x.expr, cx, sh, local);
    let y = UnaryExpr { op: x.op, expr };
    let e = Expression::Unary(y);
    assert(e.ast() == Ast::Unary(unary_expr_view(y)));
    (e, sh)
}

fn rewrite_binary(x: BinaryExpr, cx: &Renames, sh: NameSet, local: bool) -> (r: (Expression, NameSet))
    ensures
        (r.0@, r.1.set()) == rename_ast(Ast::Binary(binary_expr_view(x)), cx@, sh.set(), local),
    decreases x, 2int,
{
    let (left, sh) = rewrite_ref(x.left, cx, sh, local);
    let (right, sh) = rewrite_ref(x.right, cx, sh, local);
    let y = BinaryExpr { op: x.op, left, right };
    let e = Expression::Binary(y);
    assert(e.ast() == Ast::Binary(binary_expr_view(y)));
    (e, sh)
}

fn rewrite_conditional(x: ConditionalExpr, cx: &Renames, sh: NameSet, local: bool) -> (r: (Expression, NameSet))
    ensures
        (r.0@, r.1.set()) == rename_ast(Ast::Conditional(conditional_expr_view(x)), cx@, sh.set(), local),
    decreases x, 2int,
{
    let (cond, sh) = rewrite_ref(x.cond, cx, sh, local);
    let (true_branch, sh) = rewrite_ref(x.true_branch, cx, sh, local);
    let (false_branch, sh) = rewrite_opt(x.false_branch, cx, sh, local);
    let y = ConditionalExpr { cond, true_branch, false_branch };
    let e = Expression::Conditional(y);
    assert(e.ast() == Ast::Conditional(conditional_expr_view(y)));
    (e, sh)
}

fn rewrite_assign(x: AssignExpr, cx: &Renames, sh: NameSet, local: bool) -> (r: (Expression, NameSet))
    ensures
        (r.0@, r.1.set()) == rename_ast(Ast::Assign(assign_expr_view(x)), cx@, sh.set(), local),
    decreases x, 2int,
{
    let (value, sh) = rewrite_ref(x.value, cx, sh, local);
    let typ = rewrite_opt_type(x.typ, cx);
    let name: Option<String> = match x.target.item.get_identifier() {
        Some(name) => Some(owned(name)),
        None => None,
    };
    let (target, sh) = match name {
        Some(name) => if local {
            (x.target, sh.with(name.as_str()))
        } else {
            let token = Token::Identifier(rewrite_plain(name, cx));
            (Box::new(Spanned { span: x.target.span, item: Expression::Literal(LiteralExpr { token }) }), sh)
        },
        None => rewrite_ref(x.target, cx, sh, local),
    };
    let y = AssignExpr { target, typ, value, decl: x.decl };
    let e = Expression::Assign(y);
    assert(e.ast() == Ast::Assign(assign_expr_view(y)));
    (e, sh)
}

fn rewrite_function(x: FunctionExpr, cx: &Renames, sh: NameSet, local: bool) -> (r: (Expression, NameSet))
    ensures
        (r.0@, r.1.set()) == rename_ast(Ast::Function(function_expr_view(x)), cx@, sh.set(), local),
    decreases x, 2int,
{
    let inner = names_of_params(&x.params);
    let (body, _) = rewrite_ref(x.body, cx, inner, true);
    let params = rewrite_params(x.params, cx);
    let return_type = rewrite_opt_type(x.return_type, cx);
    let y = FunctionExpr { params, body, return_type };
    let e = Expression::Function(y);
    assert(e.ast() == Ast::Function(function_expr_view(y)));
    (e, sh)
}

fn rewrite_call(x: CallExpr, cx: &Renames, sh: NameSet, local: bool) -> (r: (Expression, NameSet))
    ensures
        (r.0@, r.1.set()) == rename_ast(Ast::Call(call_expr_view(x)), cx@, sh.set(), local),
    decreases x, 2int,
{
    let (callable, sh) = rewrite_ref(x.callable, cx, sh, local);
    let (args, sh) = rewrite_args(x.args, cx, sh, local);
    let y = CallExpr { callable, args };
    let e = Expression::Call(y);
    assert(e.ast() == Ast::Call(call_expr_view(y)));
    (e, sh)
}

fn rewrite_annotated(x: AnnotatedExpr, cx: &Renames, sh: NameSet, local: bool) -> (r: (Expression, NameSet))
    ensures
        (r.0@, r.1.set()) == rename_ast(Ast::Annotated(annotated_expr_view(x)), cx@, sh.set(), local),
    decreases x, 2int,
{
    let (expr, sh) = rewrite_ref(x.expr, cx, sh, local);
    let ty = rewrite_type_expr(x.ty, cx);
    let y = AnnotatedExpr { expr, ty };
    let e = Expression::Annotated(y);
    assert(e.ast() == Ast::Annotated(annotated_expr_view(y)));
    (e, sh)
}

fn rewrite_index(x: IndexExpr, cx: &Renames, sh: NameSet, local: bool) -> (r: (Expression, NameSet))
    ensures
        (r.0@, r.1.set()) == rename_ast(Ast::Index(index_expr_view(x)), cx@, sh.set(), local),
    decreases x, 2int,
{
    let (target, sh) = rewrite_ref(x.target, cx, sh, local);
    let (index, sh) = rewrite_ref(x.index, cx, sh, local);
    let y = IndexExpr { target, index };
    let e = Expression::Index(y);
    assert(e.ast() == Ast::Index(index_expr_view(y)));
    (e, sh)
}

fn rewrite_slice(x: SliceExpr, cx: &Renames, sh: NameSet, local: bool) -> (r: (Expression, NameSet))
    ensures
        (r.0@, r.1.set()) == rename_ast(Ast::Slice(slice_expr_view(x)), cx@, sh.set(), local),
    decreases x, 2int,
{
    let (target, sh) = rewrite_ref(x.target, cx, sh, local);
    let (start, sh) = rewrite_opt(x.start, cx, sh, local);
    let (end, sh) = rewrite_opt(x.end, cx, sh, local);
    let y = SliceExpr { target, start, end };
    let e = Expression::Slice(y);
    assert(e.ast() == Ast::Slice(slice_expr_view(y)));
    (e, sh)
}

fn rewrite_range(x: RangeExpr, cx: &Renames, sh: NameSet, local: bool) -> (r: (Expression, NameSet))
    ensures
        (r.0@, r.1.set()) == rename_ast(Ast::Range(range_expr_view(x)), cx@, sh.set(), local),
    decreases x, 2int,
{
    let (start, sh) = rewrite_ref(x.start, cx, sh, local);
    let (end, sh) = rewrite_ref(x.end, cx, sh, local);
    let y = RangeExpr { start, end };
    let e = Expression::Range(y);
    assert(e.ast() == Ast::Range(range_expr_view(y)));
    (e, sh)
}

fn rewrite_for_loop(x: ForLoopExpr, cx: &Renames, sh: NameSet, local: bool) -> (r: (Expression, NameSet))
    ensures
        (r.0@, r.1.set()) == rename_ast(Ast::ForLoop(for_loop_expr_view(x)), cx@, sh.set(), local),
    decreases x, 2int,
{
    let (iterable, sh) = rewrite_ref(x.iterable, cx, sh, local);
    let was = sh.contains(x.var.as_str());
    let sh = sh.with(x.var.as_str());
    let (cond, sh) = rewrite_opt(x.cond, cx, sh, local);
    let (body, sh) = rewrite_ref(x.body, cx, sh, local);
    let sh = if was {
        sh
    } else {
        sh.without(x.var.as_str())
    };
    let y = ForLoopExpr { var: x.var, iterable, cond, body };
    let e = Expression::ForLoop(y);
    assert(e.ast() == Ast::ForLoop(for_loop_expr_view(y)));
    (e, sh)
}

fn rewrite_field_access(x: FieldAccessExpr, cx: &Renames, sh: NameSet, local: bool) -> (r: (Expression, NameSet))
    ensures
        (r.0@, r.1.set()) == rename_ast(Ast::FieldAccess(field_access_expr_view(x)), cx@, sh.set(), local),
    decreases x, 2int,
{
    let to: Option<String> = match x.target.item.get_identifier() {
        Some(alias) => if sh.contains(alias) {
            None
        } else {
            match find_members(&cx.qualified, alias) {
                Some(m) => match find_name(m, x.field.as_str()) {
                    Some(s) => Some(owned(s.as_str())),
                    None => None,
                },
                None => None,
            }
        },
        None => None,
    };
    match to {
        Some(s) => (Expression::Literal(LiteralExpr { token: Token::Identifier(s) }), sh),
        None => {
            let (target, sh) = rewrite_ref(x.target, cx, sh, local);
            let y = FieldAccessExpr { target, field: x.field };
            let e = Expression::FieldAccess(y);
            assert(e.ast() == Ast::FieldAccess(field_access_expr_view(y)));
            (e, sh)
        },
    }
}

fn rewrite_match(x: MatchExpr, cx: &Renames, sh: NameSet, local: bool) -> (r: (Expression, NameSet))
    ensures
        (r.0@, r.1.set()) == rename_ast(Ast::Match(match_expr_view(x)), cx@, sh.set(), local),
    decreases x, 2int,
{
    let (subject, sh) = rewrite_ref(x.subject, cx, sh, local);
    let (arms, sh) = rewrite_arms(x.arms, cx, sh, local);
    let (default, sh) = rewrite_opt(x.default, cx, sh, local);
    let y = MatchExpr { subject, arms, default };
    let e = Expression::Match(y);
    assert(e.ast() == Ast::Match(match_expr_view(y)));
    (e, sh)
}

fn rewrite_is_pattern(x: IsPatternExpr, cx: &Renames, sh: NameSet, local: bool) -> (r: (Expression, NameSet))
    ensures
        (r.0@, r.1.set()) == rename_ast(Ast::IsPattern(is_pattern_expr_view(x)), cx@, sh.set(), local),
    decreases x, 2int,
{
    let (subject, sh) = rewrite_ref(x.subject, cx, sh, local);
    let pattern = rewrite_pattern(x.pattern, cx);
    let y = IsPatternExpr { subject, pattern };
    let e = Expression::IsPattern(y);
    assert(e.ast() == Ast::IsPattern(is_pattern_expr_view(y)));
    (e, sh)
}

/// An expression with its references renamed. `sh` are the names that are
/// local where it starts; those that are local after it come back.
#[verifier::rlimit(60)]
fn rewrite(e: Expression, cx: &Renames, sh: NameSet, local: bool) -> (r: (Expression, NameSet))
    ensures
        (r.0@, r.1.set()) == rename_ast(e@, cx@, sh.set(), local),
    decreases e, 2int,
{
    let ghost given = e;
    match e {
        Expression::Literal(x) => {
            let token = rewrite_token(x.token, cx, &sh);
            (Expression::Literal(LiteralExpr { token }), sh)
        },
        Expression::Return(x) => {
            let (x, sh) = rewrite_opt(x, cx, sh, local);
            (Expression::Return(x), sh)
        },
        Expression::Unary(x) => {
            assert(given.ast() == Ast::Unary(unary_expr_view(x)));
            rewrite_unary(x, cx, sh, local)
        },
        Expression::Binary(x) => {
            assert(given.ast() == Ast::Binary(binary_expr_view(x)));
            rewrite_binary(x, cx, sh, local)
        },
        Expression::Conditional(x) => {
            assert(given.ast() == Ast::Conditional(conditional_expr_view(x)));
            rewrite_conditional(x, cx, sh, local)
        },
        Expression::Assign(x) => {
            assert(given.ast() == Ast::Assign(assign_expr_view(x)));
            rewrite_assign(x, cx, sh, local)
        },
        Expression::Function(x) => {
            assert(given.ast() == Ast::Function(function_expr_view(x)));
            rewrite_function(x, cx, sh, local)
        },
        Expression::Call(x) => {
            assert(given.ast() == Ast::Call(call_expr_view(x)));
            rewrite_call(x, cx, sh, local)
        },
        Expression::Tuple(es) => {
            let (es, sh) = rewrite_all(es, cx, sh, local);
            (Expression::Tuple(es), sh)
        },
        Expression::Block(es) => {
            let (es, sh) = rewrite_all(es, cx, sh, local);
            (Expression::Block(es), sh)
        },
        Expression::Annotated(x) => {
            assert(given.ast() == Ast::Annotated(annotated_expr_view(x)));
            rewrite_annotated(x, cx, sh, local)
        },
        Expression::Index(x) => {
            assert(given.ast() == Ast::Index(index_expr_view(x)));
            rewrite_index(x, cx, sh, local)
        },
        Expression::Slice(x) => {
            assert(given.ast() == Ast::Slice(slice_expr_view(x)));
            rewrite_slice(x, cx, sh, local)
        },
        Expression::Range(x) => {
            assert(given.ast() == Ast::Range(range_expr_view(x)));
            rewrite_range(x, cx, sh, local)
        },
        Expression::ForLoop(x) => {
            assert(given.ast() == Ast::ForLoop(for_loop_expr_view(x)));
            rewrite_for_loop(x, cx, sh, local)
        },
        Expression::Comprehension(x) => {
            let (x, sh) = rewrite_ref(x, cx, sh, local);
            (Expression::Comprehension(x), sh)
        },
        Expression::DataDecl(x) => {
            let d = rewrite_data(x, cx, local);
            (Expression::DataDecl(d), sh)
        },
        Expression::FieldAccess(x) => {
            assert(given.ast() == Ast::FieldAccess(field_access_expr_view(x)));
            rewrite_field_access(x, cx, sh, local)
        },
        Expression::Import(x) => (Expression::Import(x), sh),
        Expression::Match(x) => {
            assert(given.ast() == Ast::Match(match_expr_view(x)));
            rewrite_match(x, cx, sh, local)
        },
        Expression::IsPattern(x) => {
            assert(given.ast() == Ast::IsPattern(is_pattern_expr_view(x)));
            rewrite_is_pattern(x, cx, sh, local)
        },
        Expression::Try(x) => {
            let (x, sh) = rewrite_ref(x, cx, sh, local);
            (Expression::Try(x), sh)
        },
        Expression::Unwrap(x) => {
            let (x, sh) = rewrite_ref(x, cx, sh, local);
            (Expression::Unwrap(x), sh)
        },
        Expression::Catch { value, handler } => {
            let (value, sh) = rewrite_ref(value, cx, sh, local);
            let (handler, sh) = rewrite_ref(handler, cx, sh, local);
            (Expression::Catch { value, handler }, sh)
        },
        Expression::MutArg(x) => {
            let (x, sh) = rewrite_ref(x, cx, sh, local);
            (Expression::MutArg(x), sh)
        },
    }
}

/// Renaming nothing.
pub open spec fn empty_renames() -> RenamesView {
    RenamesView { subst: Seq::empty(), qualified: Seq::empty() }
}

proof fn type_kept(t: TypeNode)
    ensures
        rename_type(t, empty_renames()) == t,
{
    let ns = type_names(t.item);
    assert(rename_names(ns, empty_renames()) =~= ns);
    assert(ns.subrange(0, ns.len() as int) =~= ns);
    own_names_change_nothing(t.item, ns, 0);
}

proof fn fields_kept(fs: Seq<FieldDeclView>)
    ensures
        rename_fields(fs, empty_renames()) == fs,
{
    assert forall|i: int| 0 <= i < fs.len() implies rename_fields(fs, empty_renames())[i] == fs[i] by {
        type_kept(fs[i].ty);
    }
    assert(rename_fields(fs, empty_renames()) =~= fs);
}

proof fn data_kept(d: DataDeclExprView, local: bool)
    ensures
        rename_data(d, empty_renames(), local) == d,
{
    let cx = empty_renames();
    fields_kept(d.fields);
    assert forall|i: int| 0 <= i < d.variants.len() implies rename_variants(d.variants, cx, local)[i]
        == d.variants[i] by {
        fields_kept(d.variants[i].fields);
    }
    assert(rename_variants(d.variants, cx, local) =~= d.variants);
    assert(rename_names(d.provides, cx) =~= d.provides);
}

proof fn params_kept(ps: Seq<ParameterView>)
    ensures
        rename_params(ps, empty_renames()) == ps,
{
    assert forall|i: int| 0 <= i < ps.len() implies rename_params(ps, empty_renames())[i] == ps[i] by {
        match ps[i].ty {
            Some(t) => type_kept(t),
            None => {},
        }
    }
    assert(rename_params(ps, empty_renames()) =~= ps);
}

/// Where nothing is renamed, an expression stays as it is.
pub proof fn renaming_nothing_changes_nothing(a: Ast, sh: Set<Seq<char>>, local: bool)
    ensures
        rename_ast(a, empty_renames(), sh, local).0 == a,
    decreases a, 2int,
{
    let cx = empty_renames();
    match a {
        Ast::Literal(_) => {},
        Ast::Return(x) => opt_kept(x, sh, local),
        Ast::Unary(x) => {
            node_kept(*x.expr, sh, local);
        },
        Ast::Binary(x) => {
            node_kept(*x.left, sh, local);
            let after_left = rename_node(*x.left, cx, sh, local).1;
            node_kept(*x.right, after_left, local);
        },
        Ast::Conditional(x) => {
            node_kept(*x.cond, sh, local);
            let after_cond = rename_node(*x.cond, cx, sh, local).1;
            node_kept(*x.true_branch, after_cond, local);
            let after_true_branch = rename_node(*x.true_branch, cx, after_cond, local).1;
            opt_kept(x.false_branch, after_true_branch, local);
        },
        Ast::Assign(x) => {
            node_kept(*x.value, sh, local);
            node_kept(*x.target, rename_node(*x.value, cx, sh, local).1, local);
            match x.typ {
                Some(t) => type_kept(t),
                None => {},
            }
        },
        Ast::Function(x) => {
            node_kept(*x.body, param_names(x.params), true);
            params_kept(x.params);
            match x.return_type {
                Some(t) => type_kept(t),
                None => {},
            }
        },
        Ast::Call(x) => {
            node_kept(*x.callable, sh, local);
            let after_callable = rename_node(*x.callable, cx, sh, local).1;
            args_kept(x.args, after_callable, local);
        },
        Ast::Tuple(es) => all_kept(es, sh, local),
        Ast::Block(es) => all_kept(es, sh, local),
        Ast::Annotated(x) => {
            node_kept(*x.expr, sh, local);
            type_kept(x.ty);
        },
        Ast::Index(x) => {
            node_kept(*x.target, sh, local);
            let after_target = rename_node(*x.target, cx, sh, local).1;
            node_kept(*x.index, after_target, local);
        },
        Ast::Slice(x) => {
            node_kept(*x.target, sh, local);
            let after_target = rename_node(*x.target, cx, sh, local).1;
            opt_kept(x.start, after_target, local);
            let after_start = rename_opt(x.start, cx, after_target, local).1;
            opt_kept(x.end, after_start, local);
        },
        Ast::Range(x) => {
            node_kept(*x.start, sh, local);
            let after_start = rename_node(*x.start, cx, sh, local).1;
            node_kept(*x.end, after_start, local);
        },
        Ast::ForLoop(x) => {
            node_kept(*x.iterable, sh, local);
            let inner = rename_node(*x.iterable, cx, sh, local).1.insert(x.var);
            opt_kept(x.cond, inner, local);
            node_kept(*x.body, rename_opt(x.cond, cx, inner, local).1, local);
        },
        Ast::Comprehension(x) => node_kept(*x, sh, local),
        Ast::DataDecl(d) => data_kept(d, local),
        Ast::FieldAccess(x) => node_kept(*x.target, sh, local),
        Ast::Import(_) => {},
        Ast::Match(x) => {
            node_kept(*x.subject, sh, local);
            let after_subject = rename_node(*x.subject, cx, sh, local).1;
            arms_kept(x.arms, after_subject, local);
            let after_arms = rename_arms(x.arms, cx, after_subject, local).1;
            opt_kept(x.default, after_arms, local);
        },
        Ast::IsPattern(x) => {
            node_kept(*x.subject, sh, local);
        },
        Ast::Try(x) => node_kept(*x, sh, local),
        Ast::Unwrap(x) => node_kept(*x, sh, local),
        Ast::Catch(value, handler) => {
            node_kept(*value, sh, local);
            node_kept(*handler, rename_node(*value, cx, sh, local).1, local);
        },
        Ast::MutArg(x) => node_kept(*x, sh, local),
    }
}

proof fn node_kept(n: Node, sh: Set<Seq<char>>, local: bool)
    ensures
        rename_node(n, empty_renames(), sh, local).0 == n,
    decreases n, 2int,
{
    renaming_nothing_changes_nothing(n.item, sh, local);
}

proof fn opt_kept(n: Option<Box<Node>>, sh: Set<Seq<char>>, local: bool)
    ensures
        rename_opt(n, empty_renames(), sh, local).0 == n,
    decreases n, 2int,
{
    match n {
        Some(x) => node_kept(*x, sh, local),
        None => {},
    }
}

proof fn all_kept(ns: Seq<Node>, sh: Set<Seq<char>>, local: bool)
    ensures
        rename_all(ns, empty_renames(), sh, local).0 == ns,
    decreases ns, 2int,
{
    if ns.len() > 0 {
        let cx = empty_renames();
        all_kept(ns.drop_last(), sh, local);
        node_kept(ns.last(), rename_all(ns.drop_last(), cx, sh, local).1, local);
    }
    assert(rename_all(ns, empty_renames(), sh, local).0 =~= ns);
}

proof fn args_kept(ns: Seq<Node>, sh: Set<Seq<char>>, local: bool)
    ensures
        rename_args(ns, empty_renames(), sh, local).0 == ns,
    decreases ns, 2int,
{
    if ns.len() > 0 {
        let cx = empty_renames();
        args_kept(ns.drop_last(), sh, local);
        let after = rename_args(ns.drop_last(), cx, sh, local).1;
        let n = ns.last();
        match n.item {
            Ast::Assign(x) => node_kept(*x.value, after, local),
            _ => node_kept(n, after, local),
        }
        assert(rename_arg(n, cx, after, local).0 == n);
    }
    assert(rename_args(ns, empty_renames(), sh, local).0 =~= ns);
}

proof fn arms_kept(xs: Seq<MatchArmView>, sh: Set<Seq<char>>, local: bool)
    ensures
        rename_arms(xs, empty_renames(), sh, local).0 == xs,
    decreases xs, 2int,
{
    if xs.len() > 0 {
        let cx = empty_renames();
        arms_kept(xs.drop_last(), sh, local);
        let after = rename_arms(xs.drop_last(), cx, sh, local).1;
        let x = xs.last();
        let inner = with_binds(after, x.pattern.binds);
        opt_kept(x.guard, inner, local);
        node_kept(*x.body, rename_opt(x.guard, cx, inner, local).1, local);
        assert(rename_arm(x, cx, after, local).0 == x);
    }
    assert(rename_arms(xs, empty_renames(), sh, local).0 =~= xs);
}

} // verus!
