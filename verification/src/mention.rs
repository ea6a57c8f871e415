//! Which names an expression mentions, and what becomes of each when names are
//! given new ones.
use crate::expression::{
    identifier_of, AssignExprView, Ast, BinaryExprView, CallExprView, ConditionalExprView, FieldAccessExprView,
    ForLoopExprView, FunctionExprView, IndexExprView, IsPatternExprView, LiteralExprView, MatchArmView, MatchExprView, Node,
    ParameterView, PatternView, RangeExprView, SliceExprView, VariantDeclView,
};
use crate::rename::{
    becomes, members_of, param_names, rename_all, rename_arg, rename_args, rename_arm, rename_arms, rename_ast,
    rename_node, rename_opt, rename_params, rename_pattern, with_binds, without_binds, RenamesView,
};
use crate::tokens::{Spanned, Tok};
use vstd::prelude::*;

verus! {

// ── Every name that is written ───────────────────────────────────────────

/// The names written in an expression, in a fixed order: those of values, of
/// variables that it binds, of fields, and of the variants and types in patterns
/// and declarations.
pub open spec fn names_in(a: Ast) -> Seq<Seq<char>>
    decreases a, 2int,
{
    match a {
        Ast::Literal(x) => match x.token {
            Tok::Name(name) => seq![name],
            _ => Seq::empty(),
        },
        Ast::Return(x) => names_in_opt(x),
        Ast::Unary(x) => names_in_node(*x.expr),
        Ast::Binary(x) => names_in_node(*x.left) + names_in_node(*x.right),
        Ast::Conditional(x) => names_in_node(*x.cond) + names_in_node(*x.true_branch) + names_in_opt(x.false_branch),
        Ast::Assign(x) => names_in_node(*x.value) + names_in_node(*x.target),
        Ast::Function(x) => names_of_parameters(x.params) + names_in_node(*x.body),
        Ast::Call(x) => names_in_node(*x.callable) + names_in_all(x.args),
        Ast::Tuple(es) => names_in_all(es),
        Ast::Block(es) => names_in_all(es),
        Ast::Annotated(x) => names_in_node(*x.expr),
        Ast::Index(x) => names_in_node(*x.target) + names_in_node(*x.index),
        Ast::Slice(x) => names_in_node(*x.target) + names_in_opt(x.start) + names_in_opt(x.end),
        Ast::Range(x) => names_in_node(*x.start) + names_in_node(*x.end),
        Ast::ForLoop(x) => names_in_node(*x.iterable) + seq![x.var] + names_in_opt(x.cond) + names_in_node(*x.body),
        Ast::Comprehension(x) => names_in_node(*x),
        Ast::DataDecl(d) => seq![d.name] + names_of_variants(d.variants),
        Ast::FieldAccess(x) => names_in_node(*x.target) + seq![x.field],
        Ast::Import(_) => Seq::empty(),
        Ast::Match(x) => names_in_node(*x.subject) + names_in_arms(x.arms) + names_in_opt(x.default),
        Ast::IsPattern(x) => names_in_node(*x.subject) + names_in_pattern(x.pattern),
        Ast::Try(x) => names_in_node(*x),
        Ast::Unwrap(x) => names_in_node(*x),
        Ast::Catch(value, handler) => names_in_node(*value) + names_in_node(*handler),
        Ast::MutArg(x) => names_in_node(*x),
    }
}

pub open spec fn names_in_node(n: Node) -> Seq<Seq<char>>
    decreases n, 2int,
{
    names_in(n.item)
}

pub open spec fn names_in_opt(n: Option<Box<Node>>) -> Seq<Seq<char>>
    decreases n, 2int,
{
    match n {
        Some(x) => names_in_node(*x),
        None => Seq::empty(),
    }
}

pub open spec fn names_in_all(ns: Seq<Node>) -> Seq<Seq<char>>
    decreases ns, 2int,
{
    if ns.len() == 0 {
        Seq::empty()
    } else {
        names_in_all(ns.drop_last()) + names_in_node(ns.last())
    }
}

pub open spec fn names_in_pattern(p: PatternView) -> Seq<Seq<char>> {
    (match p.path {
        Some(path) => seq![path],
        None => Seq::empty(),
    }) + seq![p.variant] + p.binds
}

pub open spec fn names_in_arms(xs: Seq<MatchArmView>) -> Seq<Seq<char>>
    decreases xs, 2int,
{
    if xs.len() == 0 {
        Seq::empty()
    } else {
        names_in_arms(xs.drop_last()) + names_in_arm(xs.last())
    }
}

pub open spec fn names_in_arm(x: MatchArmView) -> Seq<Seq<char>>
    decreases x, 2int,
{
    names_in_pattern(x.pattern) + names_in_opt(x.guard) + names_in_node(*x.body)
}

pub open spec fn names_of_parameters(ps: Seq<ParameterView>) -> Seq<Seq<char>> {
    ps.map_values(|p: ParameterView| p.name)
}

pub open spec fn names_of_variants(ds: Seq<VariantDeclView>) -> Seq<Seq<char>> {
    ds.map_values(|d: VariantDeclView| d.name)
}

// ── Whose names they are ─────────────────────────────────────────────────

/// A name that is written: one of the module's names or of its imports, a
/// member of the module under an alias, or any other, which is bound around it
/// or is the name of a field.
pub ghost enum Mention {
    Own(Seq<char>),
    Member(Seq<char>, Seq<char>),
    Other(Seq<char>),
}

/// What is to stand for the name.
pub open spec fn image(m: Mention, cx: RenamesView) -> Seq<char> {
    match m {
        Mention::Own(name) => match becomes(cx.subst, name) {
            Some(to) => to,
            None => name,
        },
        Mention::Member(alias, field) => becomes(members_of(cx.qualified, alias)->0, field)->0,
        Mention::Other(name) => name,
    }
}

pub open spec fn images(ms: Seq<Mention>, cx: RenamesView) -> Seq<Seq<char>> {
    Seq::new(ms.len(), |i: int| image(ms[i], cx))
}

/// Names that are no one's concern.
pub open spec fn others(ns: Seq<Seq<char>>) -> Seq<Mention> {
    Seq::new(ns.len(), |i: int| Mention::Other(ns[i]))
}

/// Names that are the module's unless `local` holds.
pub open spec fn declared(ns: Seq<Seq<char>>, local: bool) -> Seq<Mention> {
    Seq::new(
        ns.len(),
        |i: int|
            if local {
                Mention::Other(ns[i])
            } else {
                Mention::Own(ns[i])
            },
    )
}

/// Whether the alias has such a member.
pub open spec fn is_member(cx: RenamesView, alias: Seq<char>, field: Seq<char>) -> bool {
    members_of(cx.qualified, alias) matches Some(m) && becomes(m, field) is Some
}

/// The names that a pattern binds.
pub open spec fn bound_by(binds: Seq<Seq<char>>) -> Set<Seq<char>> {
    Set::new(|n: Seq<char>| binds.contains(n) && n != "_"@)
}

/// The names of parameters.
pub open spec fn parameters(ps: Seq<ParameterView>) -> Set<Seq<char>> {
    Set::new(|n: Seq<char>| exists|i: int| 0 <= i < ps.len() && (#[trigger] ps[i]).name == n)
}

/// What a pattern mentions: its type, or else its variant, is the module's.
pub open spec fn pattern_mentions(p: PatternView) -> Seq<Mention> {
    (match p.path {
        Some(path) => seq![Mention::Own(path), Mention::Other(p.variant)],
        None => seq![Mention::Own(p.variant)],
    }) + others(p.binds)
}

/// What an expression mentions, name by name, and the names that are local
/// after it. `sh` are those that are local before it. Within a function, `local`
/// holds: what is bound there is local from then on.
pub open spec fn mentions(a: Ast, cx: RenamesView, sh: Set<Seq<char>>, local: bool) -> (Seq<Mention>, Set<Seq<char>>)
    decreases a, 2int,
{
    match a {
        Ast::Literal(x) => match x.token {
            Tok::Name(name) => (
                seq![
                    if sh.contains(name) {
                        Mention::Other(name)
                    } else {
                        Mention::Own(name)
                    },
                ],
                sh,
            ),
            _ => (Seq::empty(), sh),
        },
        Ast::Return(x) => opt_mentions(x, cx, sh, local),
        Ast::Unary(x) => node_mentions(*x.expr, cx, sh, local),
        Ast::Binary(x) => {
            let (l, sh) = node_mentions(*x.left, cx, sh, local);
            let (r, sh) = node_mentions(*x.right, cx, sh, local);
            (l + r, sh)
        },
        Ast::Conditional(x) => {
            let (c, sh) = node_mentions(*x.cond, cx, sh, local);
            let (t, sh) = node_mentions(*x.true_branch, cx, sh, local);
            let (f, sh) = opt_mentions(x.false_branch, cx, sh, local);
            (c + t + f, sh)
        },
        Ast::Assign(x) => {
            let (v, sh) = node_mentions(*x.value, cx, sh, local);
            match x.target.item {
                Ast::Literal(lit) => match lit.token {
                    Tok::Name(name) => if local {
                        (v + seq![Mention::Other(name)], sh.insert(name))
                    } else {
                        (v + seq![Mention::Own(name)], sh)
                    },
                    _ => (v, sh),
                },
                _ => {
                    let (t, sh) = node_mentions(*x.target, cx, sh, local);
                    (v + t, sh)
                },
            }
        },
        Ast::Function(x) => {
            let (b, _) = node_mentions(*x.body, cx, parameters(x.params), true);
            (others(names_of_parameters(x.params)) + b, sh)
        },
        Ast::Call(x) => {
            let (c, sh) = node_mentions(*x.callable, cx, sh, local);
            let (args, sh) = args_mentions(x.args, cx, sh, local);
            (c + args, sh)
        },
        Ast::Tuple(es) => all_mentions(es, cx, sh, local),
        Ast::Block(es) => all_mentions(es, cx, sh, local),
        Ast::Annotated(x) => node_mentions(*x.expr, cx, sh, local),
        Ast::Index(x) => {
            let (t, sh) = node_mentions(*x.target, cx, sh, local);
            let (i, sh) = node_mentions(*x.index, cx, sh, local);
            (t + i, sh)
        },
        Ast::Slice(x) => {
            let (t, sh) = node_mentions(*x.target, cx, sh, local);
            let (s, sh) = opt_mentions(x.start, cx, sh, local);
            let (e, sh) = opt_mentions(x.end, cx, sh, local);
            (t + s + e, sh)
        },
        Ast::Range(x) => {
            let (s, sh) = node_mentions(*x.start, cx, sh, local);
            let (e, sh) = node_mentions(*x.end, cx, sh, local);
            (s + e, sh)
        },
        Ast::ForLoop(x) => {
            let (i, sh) = node_mentions(*x.iterable, cx, sh, local);
            let (c, within) = opt_mentions(x.cond, cx, sh.insert(x.var), local);
            let (b, within) = node_mentions(*x.body, cx, within, local);
            (
                i + seq![Mention::Other(x.var)] + c + b,
                if sh.contains(x.var) {
                    within
                } else {
                    within.remove(x.var)
                },
            )
        },
        Ast::Comprehension(x) => node_mentions(*x, cx, sh, local),
        Ast::DataDecl(d) => (declared(seq![d.name] + names_of_variants(d.variants), local), sh),
        Ast::FieldAccess(x) => match x.target.item {
            Ast::Literal(lit) => match lit.token {
                Tok::Name(alias) => if !sh.contains(alias) && is_member(cx, alias, x.field) {
                    (seq![Mention::Member(alias, x.field)], sh)
                } else {
                    let (t, sh) = node_mentions(*x.target, cx, sh, local);
                    (t + seq![Mention::Other(x.field)], sh)
                },
                _ => (seq![Mention::Other(x.field)], sh),
            },
            _ => {
                let (t, sh) = node_mentions(*x.target, cx, sh, local);
                (t + seq![Mention::Other(x.field)], sh)
            },
        },
        Ast::Import(_) => (Seq::empty(), sh),
        Ast::Match(x) => {
            let (s, sh) = node_mentions(*x.subject, cx, sh, local);
            let (arms, sh) = arms_mentions(x.arms, cx, sh, local);
            let (d, sh) = opt_mentions(x.default, cx, sh, local);
            (s + arms + d, sh)
        },
        Ast::IsPattern(x) => {
            let (s, sh) = node_mentions(*x.subject, cx, sh, local);
            (s + pattern_mentions(x.pattern), sh)
        },
        Ast::Try(x) => node_mentions(*x, cx, sh, local),
        Ast::Unwrap(x) => node_mentions(*x, cx, sh, local),
        Ast::Catch(value, handler) => {
            let (v, sh) = node_mentions(*value, cx, sh, local);
            let (h, sh) = node_mentions(*handler, cx, sh, local);
            (v + h, sh)
        },
        Ast::MutArg(x) => node_mentions(*x, cx, sh, local),
    }
}

pub open spec fn node_mentions(n: Node, cx: RenamesView, sh: Set<Seq<char>>, local: bool) -> (
    Seq<Mention>,
    Set<Seq<char>>,
)
    decreases n, 2int,
{
    mentions(n.item, cx, sh, local)
}

pub open spec fn opt_mentions(n: Option<Box<Node>>, cx: RenamesView, sh: Set<Seq<char>>, local: bool) -> (
    Seq<Mention>,
    Set<Seq<char>>,
)
    decreases n, 2int,
{
    match n {
        Some(x) => node_mentions(*x, cx, sh, local),
        None => (Seq::empty(), sh),
    }
}

pub open spec fn all_mentions(ns: Seq<Node>, cx: RenamesView, sh: Set<Seq<char>>, local: bool) -> (
    Seq<Mention>,
    Set<Seq<char>>,
)
    decreases ns, 2int,
{
    if ns.len() == 0 {
        (Seq::empty(), sh)
    } else {
        let (done, sh) = all_mentions(ns.drop_last(), cx, sh, local);
        let (n, sh) = node_mentions(ns.last(), cx, sh, local);
        (done + n, sh)
    }
}

/// The arguments of a call. `name = value` there gives a field its value.
pub open spec fn args_mentions(ns: Seq<Node>, cx: RenamesView, sh: Set<Seq<char>>, local: bool) -> (
    Seq<Mention>,
    Set<Seq<char>>,
)
    decreases ns, 2int,
{
    if ns.len() == 0 {
        (Seq::empty(), sh)
    } else {
        let (done, sh) = args_mentions(ns.drop_last(), cx, sh, local);
        let (n, sh) = match ns.last().item {
            Ast::Assign(x) => {
                let (v, sh) = node_mentions(*x.value, cx, sh, local);
                (v + others(names_in_node(*x.target)), sh)
            },
            _ => node_mentions(ns.last(), cx, sh, local),
        };
        (done + n, sh)
    }
}

pub open spec fn arms_mentions(xs: Seq<MatchArmView>, cx: RenamesView, sh: Set<Seq<char>>, local: bool) -> (
    Seq<Mention>,
    Set<Seq<char>>,
)
    decreases xs, 2int,
{
    if xs.len() == 0 {
        (Seq::empty(), sh)
    } else {
        let (done, sh) = arms_mentions(xs.drop_last(), cx, sh, local);
        let (x, sh) = arm_mentions(xs.last(), cx, sh, local);
        (done + x, sh)
    }
}

/// An arm. What its pattern binds is local in it, and no longer after it.
pub open spec fn arm_mentions(x: MatchArmView, cx: RenamesView, sh: Set<Seq<char>>, local: bool) -> (
    Seq<Mention>,
    Set<Seq<char>>,
)
    decreases x, 2int,
{
    let binds = bound_by(x.pattern.binds);
    let (g, within) = opt_mentions(x.guard, cx, sh.union(binds), local);
    let (b, within) = node_mentions(*x.body, cx, within, local);
    (pattern_mentions(x.pattern) + g + b, within.difference(binds.difference(sh)))
}

// ── Small facts ──────────────────────────────────────────────────────────

proof fn images_add(a: Seq<Mention>, b: Seq<Mention>, cx: RenamesView)
    ensures
        images(a + b, cx) == images(a, cx) + images(b, cx),
{
    assert(images(a + b, cx) =~= images(a, cx) + images(b, cx));
}

proof fn images_add_3(a: Seq<Mention>, b: Seq<Mention>, c: Seq<Mention>, cx: RenamesView)
    ensures
        images(a + b + c, cx) == images(a, cx) + images(b, cx) + images(c, cx),
{
    images_add(a + b, c, cx);
    images_add(a, b, cx);
}

proof fn others_stay(ns: Seq<Seq<char>>, cx: RenamesView)
    ensures
        images(others(ns), cx) == ns,
{
    assert(images(others(ns), cx) =~= ns);
}

proof fn one_image(m: Mention, cx: RenamesView)
    ensures
        images(seq![m], cx) == seq![image(m, cx)],
{
    assert(images(seq![m], cx) =~= seq![image(m, cx)]);
}

proof fn binds_are_bound(sh: Set<Seq<char>>, binds: Seq<Seq<char>>)
    ensures
        with_binds(sh, binds) == sh.union(bound_by(binds)),
    decreases binds.len(),
{
    if binds.len() > 0 {
        let front = binds.drop_last();
        binds_are_bound(sh, front);
        assert forall|n: Seq<char>| #[trigger] bound_by(binds).contains(n) <==> bound_by(front).contains(n) || (n
            == binds.last() && n != "_"@) by {
            if front.contains(n) {
                let i = choose|i: int| 0 <= i < front.len() && front[i] == n;
                assert(binds[i] == n);
            }
            if binds.contains(n) {
                let i = choose|i: int| 0 <= i < binds.len() && binds[i] == n;
                if i < front.len() {
                    assert(front[i] == n);
                }
            }
            assert(binds[binds.len() - 1] == binds.last());
        }
    }
    assert(with_binds(sh, binds) =~= sh.union(bound_by(binds)));
}

proof fn binds_are_gone(inner: Set<Seq<char>>, sh: Set<Seq<char>>, binds: Seq<Seq<char>>)
    ensures
        without_binds(inner, sh, binds) == inner.difference(bound_by(binds).difference(sh)),
    decreases binds.len(),
{
    if binds.len() > 0 {
        let front = binds.drop_last();
        binds_are_gone(inner, sh, front);
        assert forall|n: Seq<char>| #[trigger] bound_by(binds).contains(n) <==> bound_by(front).contains(n) || (n
            == binds.last() && n != "_"@) by {
            if front.contains(n) {
                let i = choose|i: int| 0 <= i < front.len() && front[i] == n;
                assert(binds[i] == n);
            }
            if binds.contains(n) {
                let i = choose|i: int| 0 <= i < binds.len() && binds[i] == n;
                if i < front.len() {
                    assert(front[i] == n);
                }
            }
            assert(binds[binds.len() - 1] == binds.last());
        }
    }
    assert(without_binds(inner, sh, binds) =~= inner.difference(bound_by(binds).difference(sh)));
}

proof fn parameters_are_local(ps: Seq<ParameterView>)
    ensures
        param_names(ps) == parameters(ps),
    decreases ps.len(),
{
    if ps.len() > 0 {
        let front = ps.drop_last();
        parameters_are_local(front);
        assert forall|n: Seq<char>| #[trigger] parameters(ps).contains(n) <==> parameters(front).contains(n) || n
            == ps.last().name by {
            if parameters(front).contains(n) {
                let i = choose|i: int| 0 <= i < front.len() && (#[trigger] front[i]).name == n;
                assert(ps[i].name == n);
            }
            if parameters(ps).contains(n) {
                let i = choose|i: int| 0 <= i < ps.len() && (#[trigger] ps[i]).name == n;
                if i < front.len() {
                    assert(front[i].name == n);
                }
            }
            assert(ps[ps.len() - 1] == ps.last());
        }
    }
    assert(param_names(ps) =~= parameters(ps));
}

proof fn pattern_follows(p: PatternView, cx: RenamesView)
    ensures
        names_in_pattern(rename_pattern(p, cx)) == images(pattern_mentions(p), cx),
{
    assert(names_in_pattern(rename_pattern(p, cx)) =~= images(pattern_mentions(p), cx));
}

// ── The law ──────────────────────────────────────────────────────────────

/// What renaming leaves of an expression: each name written in it is what is to
/// stand for the name that was there, and the names that are local after it are
/// those that the expression makes local.
pub open spec fn follows(a: Ast, cx: RenamesView, sh: Set<Seq<char>>, local: bool) -> bool {
    let (b, after) = rename_ast(a, cx, sh, local);
    let (ms, then_local) = mentions(a, cx, sh, local);
    names_in(b) == images(ms, cx) && after == then_local
}

pub open spec fn node_follows(n: Node, cx: RenamesView, sh: Set<Seq<char>>, local: bool) -> bool {
    let (b, after) = rename_node(n, cx, sh, local);
    let (ms, then_local) = node_mentions(n, cx, sh, local);
    names_in_node(b) == images(ms, cx) && after == then_local
}

pub open spec fn opt_follows(n: Option<Box<Node>>, cx: RenamesView, sh: Set<Seq<char>>, local: bool) -> bool {
    let (b, after) = rename_opt(n, cx, sh, local);
    let (ms, then_local) = opt_mentions(n, cx, sh, local);
    names_in_opt(b) == images(ms, cx) && after == then_local
}

/// Every name of the module that an expression refers to, wherever it stands,
/// is replaced by what it becomes; members under an alias likewise; and every
/// other name stays what it was.
pub proof fn every_reference_follows(a: Ast, cx: RenamesView, sh: Set<Seq<char>>, local: bool)
    ensures
        follows(a, cx, sh, local),
    decreases a, 2int,
{
    match a {
        Ast::Literal(x) => {
            assert(names_in(rename_ast(a, cx, sh, local).0) =~= images(mentions(a, cx, sh, local).0, cx));
        },
        Ast::Return(x) => opt_names_follow(x, cx, sh, local),
        Ast::Unary(x) => node_names_follow(*x.expr, cx, sh, local),
        Ast::Binary(x) => binary_follows(x, cx, sh, local),
        Ast::Conditional(x) => conditional_follows(x, cx, sh, local),
        Ast::Assign(x) => assign_follows(x, cx, sh, local),
        Ast::Function(x) => function_follows(x, cx, sh, local),
        Ast::Call(x) => call_follows(x, cx, sh, local),
        Ast::Tuple(es) => all_follow(es, cx, sh, local),
        Ast::Block(es) => all_follow(es, cx, sh, local),
        Ast::Annotated(x) => node_names_follow(*x.expr, cx, sh, local),
        Ast::Index(x) => index_follows(x, cx, sh, local),
        Ast::Slice(x) => slice_follows(x, cx, sh, local),
        Ast::Range(x) => range_follows(x, cx, sh, local),
        Ast::ForLoop(x) => loop_follows(x, cx, sh, local),
        Ast::Comprehension(x) => node_names_follow(*x, cx, sh, local),
        Ast::DataDecl(d) => {
            let ns = seq![d.name] + names_of_variants(d.variants);
            assert(names_in(rename_ast(a, cx, sh, local).0) =~= images(declared(ns, local), cx));
        },
        Ast::FieldAccess(x) => field_follows(x, cx, sh, local),
        Ast::Import(_) => {
            assert(images(Seq::empty(), cx) =~= Seq::empty());
        },
        Ast::Match(x) => match_follows(x, cx, sh, local),
        Ast::IsPattern(x) => is_follows(x, cx, sh, local),
        Ast::Try(x) => node_names_follow(*x, cx, sh, local),
        Ast::Unwrap(x) => node_names_follow(*x, cx, sh, local),
        Ast::Catch(value, handler) => {
            node_names_follow(*value, cx, sh, local);
            let (l, s1) = node_mentions(*value, cx, sh, local);
            node_names_follow(*handler, cx, s1, local);
            images_add(l, node_mentions(*handler, cx, s1, local).0, cx);
        },
        Ast::MutArg(x) => node_names_follow(*x, cx, sh, local),
    }
}

proof fn binary_follows(x: BinaryExprView, cx: RenamesView, sh: Set<Seq<char>>, local: bool)
    ensures
        follows(Ast::Binary(x), cx, sh, local),
    decreases x, 2int,
{
    node_names_follow(*x.left, cx, sh, local);
    let (l, s1) = node_mentions(*x.left, cx, sh, local);
    node_names_follow(*x.right, cx, s1, local);
    images_add(l, node_mentions(*x.right, cx, s1, local).0, cx);
}

proof fn conditional_follows(x: ConditionalExprView, cx: RenamesView, sh: Set<Seq<char>>, local: bool)
    ensures
        follows(Ast::Conditional(x), cx, sh, local),
    decreases x, 2int,
{
    node_names_follow(*x.cond, cx, sh, local);
    let (c, s1) = node_mentions(*x.cond, cx, sh, local);
    node_names_follow(*x.true_branch, cx, s1, local);
    let (t, s2) = node_mentions(*x.true_branch, cx, s1, local);
    opt_names_follow(x.false_branch, cx, s2, local);
    let (f, s3) = opt_mentions(x.false_branch, cx, s2, local);
    images_add_3(c, t, f, cx);
}

proof fn function_follows(x: FunctionExprView, cx: RenamesView, sh: Set<Seq<char>>, local: bool)
    ensures
        follows(Ast::Function(x), cx, sh, local),
    decreases x, 2int,
{
    parameters_are_local(x.params);
    node_names_follow(*x.body, cx, parameters(x.params), true);
    let (b, _) = node_mentions(*x.body, cx, parameters(x.params), true);
    let ns = names_of_parameters(x.params);
    images_add(others(ns), b, cx);
    others_stay(ns, cx);
    assert(names_of_parameters(rename_params(x.params, cx)) =~= ns);
}

proof fn call_follows(x: CallExprView, cx: RenamesView, sh: Set<Seq<char>>, local: bool)
    ensures
        follows(Ast::Call(x), cx, sh, local),
    decreases x, 2int,
{
    node_names_follow(*x.callable, cx, sh, local);
    let (c, s1) = node_mentions(*x.callable, cx, sh, local);
    args_follow(x.args, cx, s1, local);
    images_add(c, args_mentions(x.args, cx, s1, local).0, cx);
}

proof fn index_follows(x: IndexExprView, cx: RenamesView, sh: Set<Seq<char>>, local: bool)
    ensures
        follows(Ast::Index(x), cx, sh, local),
    decreases x, 2int,
{
    node_names_follow(*x.target, cx, sh, local);
    let (l, s1) = node_mentions(*x.target, cx, sh, local);
    node_names_follow(*x.index, cx, s1, local);
    images_add(l, node_mentions(*x.index, cx, s1, local).0, cx);
}

proof fn slice_follows(x: SliceExprView, cx: RenamesView, sh: Set<Seq<char>>, local: bool)
    ensures
        follows(Ast::Slice(x), cx, sh, local),
    decreases x, 2int,
{
    node_names_follow(*x.target, cx, sh, local);
    let (t, s1) = node_mentions(*x.target, cx, sh, local);
    opt_names_follow(x.start, cx, s1, local);
    let (s, s2) = opt_mentions(x.start, cx, s1, local);
    opt_names_follow(x.end, cx, s2, local);
    images_add_3(t, s, opt_mentions(x.end, cx, s2, local).0, cx);
}

proof fn range_follows(x: RangeExprView, cx: RenamesView, sh: Set<Seq<char>>, local: bool)
    ensures
        follows(Ast::Range(x), cx, sh, local),
    decreases x, 2int,
{
    node_names_follow(*x.start, cx, sh, local);
    let (l, s1) = node_mentions(*x.start, cx, sh, local);
    node_names_follow(*x.end, cx, s1, local);
    images_add(l, node_mentions(*x.end, cx, s1, local).0, cx);
}

proof fn loop_follows(x: ForLoopExprView, cx: RenamesView, sh: Set<Seq<char>>, local: bool)
    ensures
        follows(Ast::ForLoop(x), cx, sh, local),
    decreases x, 2int,
{
    node_names_follow(*x.iterable, cx, sh, local);
    let (i, s1) = node_mentions(*x.iterable, cx, sh, local);
    opt_names_follow(x.cond, cx, s1.insert(x.var), local);
    let (c, s2) = opt_mentions(x.cond, cx, s1.insert(x.var), local);
    node_names_follow(*x.body, cx, s2, local);
    let (b, s3) = node_mentions(*x.body, cx, s2, local);
    let v = seq![Mention::Other(x.var)];
    images_add(i + v + c, b, cx);
    images_add_3(i, v, c, cx);
    one_image(Mention::Other(x.var), cx);
}

proof fn field_follows(x: FieldAccessExprView, cx: RenamesView, sh: Set<Seq<char>>, local: bool)
    ensures
        follows(Ast::FieldAccess(x), cx, sh, local),
    decreases x, 2int,
{
    node_names_follow(*x.target, cx, sh, local);
    let (t, s1) = node_mentions(*x.target, cx, sh, local);
    images_add(t, seq![Mention::Other(x.field)], cx);
    one_image(Mention::Other(x.field), cx);
    if let Some(alias) = identifier_of(x.target.item) {
        one_image(Mention::Member(alias, x.field), cx);
    } else {
        assert(x.target.item is Literal ==> t =~= Seq::empty());
        assert(t + seq![Mention::Other(x.field)] =~= if x.target.item is Literal {
            seq![Mention::Other(x.field)]
        } else {
            t + seq![Mention::Other(x.field)]
        });
    }
}

proof fn match_follows(x: MatchExprView, cx: RenamesView, sh: Set<Seq<char>>, local: bool)
    ensures
        follows(Ast::Match(x), cx, sh, local),
    decreases x, 2int,
{
    node_names_follow(*x.subject, cx, sh, local);
    let (s, s1) = node_mentions(*x.subject, cx, sh, local);
    arms_follow(x.arms, cx, s1, local);
    let (arms, s2) = arms_mentions(x.arms, cx, s1, local);
    opt_names_follow(x.default, cx, s2, local);
    images_add_3(s, arms, opt_mentions(x.default, cx, s2, local).0, cx);
}

proof fn is_follows(x: IsPatternExprView, cx: RenamesView, sh: Set<Seq<char>>, local: bool)
    ensures
        follows(Ast::IsPattern(x), cx, sh, local),
    decreases x, 2int,
{
    node_names_follow(*x.subject, cx, sh, local);
    pattern_follows(x.pattern, cx);
    images_add(node_mentions(*x.subject, cx, sh, local).0, pattern_mentions(x.pattern), cx);
}

proof fn node_names_follow(n: Node, cx: RenamesView, sh: Set<Seq<char>>, local: bool)
    ensures
        node_follows(n, cx, sh, local),
    decreases n, 2int,
{
    every_reference_follows(n.item, cx, sh, local);
}

proof fn opt_names_follow(n: Option<Box<Node>>, cx: RenamesView, sh: Set<Seq<char>>, local: bool)
    ensures
        opt_follows(n, cx, sh, local),
    decreases n, 2int,
{
    match n {
        Some(x) => node_names_follow(*x, cx, sh, local),
        None => {
            assert(images(Seq::empty(), cx) =~= Seq::empty());
        },
    }
}

proof fn assign_follows(x: AssignExprView, cx: RenamesView, sh: Set<Seq<char>>, local: bool)
    ensures
        follows(Ast::Assign(x), cx, sh, local),
    decreases x, 2int,
{
    node_names_follow(*x.value, cx, sh, local);
    let (v, s1) = node_mentions(*x.value, cx, sh, local);
    node_names_follow(*x.target, cx, s1, local);
    let (t, s2) = node_mentions(*x.target, cx, s1, local);
    images_add(v, t, cx);
    match identifier_of(x.target.item) {
        Some(name) => {
            let m = if local {
                Mention::Other(name)
            } else {
                Mention::Own(name)
            };
            images_add(v, seq![m], cx);
            one_image(m, cx);
            assert(names_in(x.target.item) == seq![name]);
            let token = Tok::Name(image(m, cx));
            let new = Spanned { span: x.target.span, item: Ast::Literal(LiteralExprView { token }) };
            assert(names_in(new.item) == seq![image(m, cx)]);
            assert(names_in_node(new) == seq![image(m, cx)]);
            assert(names_in_node(*x.target) == seq![name]);
        },
        None => {
            if x.target.item is Literal {
                assert(t =~= Seq::empty());
                assert(v + t =~= v);
            }
        },
    }
}

proof fn all_follow(ns: Seq<Node>, cx: RenamesView, sh: Set<Seq<char>>, local: bool)
    ensures
        ({
            let (b, after) = rename_all(ns, cx, sh, local);
            let (ms, then_local) = all_mentions(ns, cx, sh, local);
            names_in_all(b) == images(ms, cx) && after == then_local
        }),
    decreases ns, 2int,
{
    if ns.len() == 0 {
        assert(images(Seq::empty(), cx) =~= Seq::empty());
    } else {
        all_follow(ns.drop_last(), cx, sh, local);
        let (done, s1) = all_mentions(ns.drop_last(), cx, sh, local);
        node_names_follow(ns.last(), cx, s1, local);
        images_add(done, node_mentions(ns.last(), cx, s1, local).0, cx);
        let front = rename_all(ns.drop_last(), cx, sh, local).0;
        let b = rename_all(ns, cx, sh, local).0;
        assert(b.drop_last() =~= front);
    }
}

proof fn args_follow(ns: Seq<Node>, cx: RenamesView, sh: Set<Seq<char>>, local: bool)
    ensures
        ({
            let (b, after) = rename_args(ns, cx, sh, local);
            let (ms, then_local) = args_mentions(ns, cx, sh, local);
            names_in_all(b) == images(ms, cx) && after == then_local
        }),
    decreases ns, 2int,
{
    if ns.len() == 0 {
        assert(images(Seq::empty(), cx) =~= Seq::empty());
    } else {
        args_follow(ns.drop_last(), cx, sh, local);
        let (done, s1) = args_mentions(ns.drop_last(), cx, sh, local);
        let n = ns.last();
        let last = match n.item {
            Ast::Assign(x) => {
                node_names_follow(*x.value, cx, s1, local);
                let (v, s2) = node_mentions(*x.value, cx, s1, local);
                let kept = names_in_node(*x.target);
                images_add(v, others(kept), cx);
                others_stay(kept, cx);
                v + others(kept)
            },
            _ => {
                node_names_follow(n, cx, s1, local);
                node_mentions(n, cx, s1, local).0
            },
        };
        images_add(done, last, cx);
        assert(names_in_node(rename_arg(n, cx, s1, local).0) == images(last, cx));
        let front = rename_args(ns.drop_last(), cx, sh, local).0;
        let b = rename_args(ns, cx, sh, local).0;
        assert(b.drop_last() =~= front);
    }
}

proof fn arms_follow(xs: Seq<MatchArmView>, cx: RenamesView, sh: Set<Seq<char>>, local: bool)
    ensures
        ({
            let (b, after) = rename_arms(xs, cx, sh, local);
            let (ms, then_local) = arms_mentions(xs, cx, sh, local);
            names_in_arms(b) == images(ms, cx) && after == then_local
        }),
    decreases xs, 2int,
{
    if xs.len() == 0 {
        assert(images(Seq::empty(), cx) =~= Seq::empty());
    } else {
        arms_follow(xs.drop_last(), cx, sh, local);
        let (done, s1) = arms_mentions(xs.drop_last(), cx, sh, local);
        arm_follows(xs.last(), cx, s1, local);
        images_add(done, arm_mentions(xs.last(), cx, s1, local).0, cx);
        let front = rename_arms(xs.drop_last(), cx, sh, local).0;
        let b = rename_arms(xs, cx, sh, local).0;
        assert(b.drop_last() =~= front);
    }
}

proof fn arm_follows(x: MatchArmView, cx: RenamesView, sh: Set<Seq<char>>, local: bool)
    ensures
        ({
            let (b, after) = rename_arm(x, cx, sh, local);
            let (ms, then_local) = arm_mentions(x, cx, sh, local);
            names_in_arm(b) == images(ms, cx) && after == then_local
        }),
    decreases x, 2int,
{
    let binds = x.pattern.binds;
    binds_are_bound(sh, binds);
    let within = sh.union(bound_by(binds));
    opt_names_follow(x.guard, cx, within, local);
    let (g, s1) = opt_mentions(x.guard, cx, within, local);
    node_names_follow(*x.body, cx, s1, local);
    let (b, s2) = node_mentions(*x.body, cx, s1, local);
    binds_are_gone(s2, sh, binds);
    pattern_follows(x.pattern, cx);
    images_add_3(pattern_mentions(x.pattern), g, b, cx);
}

} // verus!
