//! Which types an expression names, and what becomes of each when names are
//! given new ones.
use crate::expression::{
    identifier_of, AssignExprView, Ast, DataDeclExprView, FieldAccessExprView, FieldDeclView, ForLoopExprView,
    MatchArmView, MatchExprView, Node, ParameterView, SliceExprView, VariantDeclView,
};
use crate::rename::{
    becomes, first_dot, members_of, param_names, rename_all, rename_arg, rename_args, rename_arm, rename_arms,
    rename_ast, rename_fields, rename_name, rename_names, rename_node, rename_opt, rename_opt_type, rename_params,
    rename_type, rename_variants, with_binds, RenamesView,
};
use crate::type_expr::{all_names, type_names, written_names_are_read, TypeAst, TypeNode};
use vstd::prelude::*;

verus! {

// ── What a type's name becomes ───────────────────────────────────────────

/// Whether the first point of the name is the one at `i`.
pub open spec fn parted_at(name: Seq<char>, i: int) -> bool {
    0 <= i < name.len() && name[i] == '.' && !name.take(i).contains('.')
}

/// What is to stand for the name of a type: what the module's own name becomes,
/// or, with an alias before a point, what the other module calls it.
pub open spec fn type_image(name: Seq<char>, cx: RenamesView) -> Seq<char> {
    let to = if name.contains('.') {
        let i = choose|i: int| parted_at(name, i);
        match members_of(cx.qualified, name.take(i)) {
            Some(m) => becomes(m, name.skip(i + 1)),
            None => None,
        }
    } else {
        becomes(cx.subst, name)
    };
    match to {
        Some(s) => s,
        None => name,
    }
}

pub open spec fn type_images(ns: Seq<Seq<char>>, cx: RenamesView) -> Seq<Seq<char>> {
    ns.map_values(|n: Seq<char>| type_image(n, cx))
}

proof fn the_first_point(name: Seq<char>, from: int)
    requires
        0 <= from <= name.len(),
        !name.take(from).contains('.'),
    ensures
        first_dot(name, from) matches Some(i) ==> parted_at(name, i),
        first_dot(name, from) is None ==> !name.contains('.'),
    decreases name.len() - from,
{
    if from < name.len() {
        if name[from] != '.' {
            assert(name.take(from + 1) =~= name.take(from).push(name[from]));
            if name.take(from + 1).contains('.') {
                let longer = name.take(from + 1);
                let k = choose|k: int| 0 <= k < longer.len() && longer[k] == '.';
                assert(name.take(from)[k] == '.');
            }
            the_first_point(name, from + 1);
        }
    } else {
        assert(name.take(from) =~= name);
    }
}

proof fn one_first_point(name: Seq<char>, i: int, j: int)
    requires
        parted_at(name, i),
        parted_at(name, j),
    ensures
        i == j,
{
    if i < j {
        assert(name.take(j)[i] == '.');
    }
    if j < i {
        assert(name.take(i)[j] == '.');
    }
}

proof fn a_name_becomes_its_image(name: Seq<char>, cx: RenamesView)
    ensures
        rename_name(name, cx) == type_image(name, cx),
{
    assert(name.take(0) =~= Seq::empty());
    the_first_point(name, 0);
    if let Some(i) = first_dot(name, 0) {
        assert(name.contains(name[i]));
        let j = choose|j: int| parted_at(name, j);
        one_first_point(name, i, j);
    }
}

proof fn names_become_their_images(ns: Seq<Seq<char>>, cx: RenamesView)
    ensures
        rename_names(ns, cx) == type_images(ns, cx),
{
    assert forall|i: int| 0 <= i < ns.len() implies rename_names(ns, cx)[i] == type_images(ns, cx)[i] by {
        a_name_becomes_its_image(ns[i], cx);
    }
    assert(rename_names(ns, cx) =~= type_images(ns, cx));
}

// ── The names of types in an expression ──────────────────────────────────

/// The names in a type, in the order in which they stand.
pub open spec fn words_of(t: TypeAst) -> Seq<Seq<char>>
    decreases t,
{
    match t {
        TypeAst::Name(name) => seq![name],
        TypeAst::Apply(name, args) => seq![name] + words_of_all(args),
        TypeAst::Union(members) => words_of_all(members),
        TypeAst::Optional(inner) => words_of(inner.item),
        TypeAst::Func(params, result) => words_of_all(params) + words_of(result.item),
    }
}

pub open spec fn words_of_all(ts: Seq<TypeNode>) -> Seq<Seq<char>>
    decreases ts,
{
    if ts.len() == 0 {
        Seq::empty()
    } else {
        words_of_all(ts.drop_last()) + words_of(ts.last().item)
    }
}

pub open spec fn words_of_opt(t: Option<TypeNode>) -> Seq<Seq<char>> {
    match t {
        Some(t) => words_of(t.item),
        None => Seq::empty(),
    }
}

pub open spec fn parameter_words(ps: Seq<ParameterView>) -> Seq<Seq<char>>
    decreases ps.len(),
{
    if ps.len() == 0 {
        Seq::empty()
    } else {
        parameter_words(ps.drop_last()) + words_of_opt(ps.last().ty)
    }
}

pub open spec fn field_words(fs: Seq<FieldDeclView>) -> Seq<Seq<char>>
    decreases fs.len(),
{
    if fs.len() == 0 {
        Seq::empty()
    } else {
        field_words(fs.drop_last()) + words_of(fs.last().ty.item)
    }
}

pub open spec fn variant_words(ds: Seq<VariantDeclView>) -> Seq<Seq<char>>
    decreases ds.len(),
{
    if ds.len() == 0 {
        Seq::empty()
    } else {
        variant_words(ds.drop_last()) + field_words(ds.last().fields)
    }
}

/// The names of types and traits in an expression, in a fixed order: those of
/// parameters, results, bindings, annotations and declarations. What stands to
/// the left in an argument `name = value` has none.
pub open spec fn words_in(a: Ast) -> Seq<Seq<char>>
    decreases a, 2int,
{
    match a {
        Ast::Literal(_) => Seq::empty(),
        Ast::Return(x) => words_in_opt(x),
        Ast::Unary(x) => words_in_node(*x.expr),
        Ast::Binary(x) => words_in_node(*x.left) + words_in_node(*x.right),
        Ast::Conditional(x) => words_in_node(*x.cond) + words_in_node(*x.true_branch) + words_in_opt(x.false_branch),
        Ast::Assign(x) => words_in_node(*x.value) + words_of_opt(x.typ) + words_in_node(*x.target),
        Ast::Function(x) => parameter_words(x.params) + words_in_node(*x.body) + words_of_opt(x.return_type),
        Ast::Call(x) => words_in_node(*x.callable) + words_in_args(x.args),
        Ast::Tuple(es) => words_in_all(es),
        Ast::Block(es) => words_in_all(es),
        Ast::Annotated(x) => words_in_node(*x.expr) + words_of(x.ty.item),
        Ast::Index(x) => words_in_node(*x.target) + words_in_node(*x.index),
        Ast::Slice(x) => words_in_node(*x.target) + words_in_opt(x.start) + words_in_opt(x.end),
        Ast::Range(x) => words_in_node(*x.start) + words_in_node(*x.end),
        Ast::ForLoop(x) => words_in_node(*x.iterable) + words_in_opt(x.cond) + words_in_node(*x.body),
        Ast::Comprehension(x) => words_in_node(*x),
        Ast::DataDecl(d) => field_words(d.fields) + variant_words(d.variants) + d.provides,
        Ast::FieldAccess(x) => words_in_node(*x.target),
        Ast::Import(_) => Seq::empty(),
        Ast::Match(x) => words_in_node(*x.subject) + words_in_arms(x.arms) + words_in_opt(x.default),
        Ast::IsPattern(x) => words_in_node(*x.subject),
        Ast::Try(x) => words_in_node(*x),
        Ast::Unwrap(x) => words_in_node(*x),
        Ast::Catch(value, handler) => words_in_node(*value) + words_in_node(*handler),
        Ast::MutArg(x) => words_in_node(*x),
    }
}

pub open spec fn words_in_node(n: Node) -> Seq<Seq<char>>
    decreases n, 2int,
{
    words_in(n.item)
}

pub open spec fn words_in_opt(n: Option<Box<Node>>) -> Seq<Seq<char>>
    decreases n, 2int,
{
    match n {
        Some(x) => words_in_node(*x),
        None => Seq::empty(),
    }
}

pub open spec fn words_in_all(ns: Seq<Node>) -> Seq<Seq<char>>
    decreases ns, 2int,
{
    if ns.len() == 0 {
        Seq::empty()
    } else {
        words_in_all(ns.drop_last()) + words_in_node(ns.last())
    }
}

pub open spec fn words_in_args(ns: Seq<Node>) -> Seq<Seq<char>>
    decreases ns, 2int,
{
    if ns.len() == 0 {
        Seq::empty()
    } else {
        words_in_args(ns.drop_last()) + words_in_arg(ns.last())
    }
}

pub open spec fn words_in_arg(n: Node) -> Seq<Seq<char>>
    decreases n, 3int,
{
    match n.item {
        Ast::Assign(x) => words_in_node(*x.value),
        _ => words_in_node(n),
    }
}

pub open spec fn words_in_arms(xs: Seq<MatchArmView>) -> Seq<Seq<char>>
    decreases xs, 2int,
{
    if xs.len() == 0 {
        Seq::empty()
    } else {
        words_in_arms(xs.drop_last()) + words_in_arm(xs.last())
    }
}

pub open spec fn words_in_arm(x: MatchArmView) -> Seq<Seq<char>>
    decreases x, 2int,
{
    words_in_opt(x.guard) + words_in_node(*x.body)
}

// ── Types alone ──────────────────────────────────────────────────────────

proof fn images_join(a: Seq<Seq<char>>, b: Seq<Seq<char>>, cx: RenamesView)
    ensures
        type_images(a + b, cx) == type_images(a, cx) + type_images(b, cx),
{
    assert(type_images(a + b, cx) =~= type_images(a, cx) + type_images(b, cx));
}

proof fn images_join_3(a: Seq<Seq<char>>, b: Seq<Seq<char>>, c: Seq<Seq<char>>, cx: RenamesView)
    ensures
        type_images(a + b + c, cx) == type_images(a, cx) + type_images(b, cx) + type_images(c, cx),
{
    images_join(a + b, c, cx);
    images_join(a, b, cx);
}

proof fn no_images(cx: RenamesView)
    ensures
        type_images(Seq::empty(), cx) == Seq::<Seq<char>>::empty(),
{
    assert(type_images(Seq::empty(), cx) =~= Seq::<Seq<char>>::empty());
}

proof fn words_are_names(t: TypeAst)
    ensures
        words_of(t) == type_names(t),
    decreases t,
{
    match t {
        TypeAst::Name(_) => {},
        TypeAst::Apply(_, args) => all_words_are_names(args),
        TypeAst::Union(members) => all_words_are_names(members),
        TypeAst::Optional(inner) => words_are_names(inner.item),
        TypeAst::Func(params, result) => {
            all_words_are_names(params);
            words_are_names(result.item);
        },
    }
}

proof fn all_words_are_names(ts: Seq<TypeNode>)
    ensures
        words_of_all(ts) == all_names(ts),
    decreases ts,
{
    if ts.len() > 0 {
        all_words_are_names(ts.drop_last());
        words_are_names(ts.last().item);
    }
}

/// Every name in a type is replaced by what is to stand for it.
pub proof fn every_name_in_a_type_follows(t: TypeNode, cx: RenamesView)
    ensures
        words_of(rename_type(t, cx).item) == type_images(words_of(t.item), cx),
{
    let ns = type_names(t.item);
    let new = rename_names(ns, cx);
    words_are_names(t.item);
    names_become_their_images(ns, cx);
    written_names_are_read(t.item, new, 0);
    words_are_names(rename_type(t, cx).item);
    assert(new.subrange(0, ns.len() as int) =~= new);
}

proof fn opt_type_follows(t: Option<TypeNode>, cx: RenamesView)
    ensures
        words_of_opt(rename_opt_type(t, cx)) == type_images(words_of_opt(t), cx),
{
    match t {
        Some(x) => every_name_in_a_type_follows(x, cx),
        None => no_images(cx),
    }
}

proof fn parameters_follow(ps: Seq<ParameterView>, cx: RenamesView)
    ensures
        parameter_words(rename_params(ps, cx)) == type_images(parameter_words(ps), cx),
    decreases ps.len(),
{
    if ps.len() == 0 {
        no_images(cx);
    } else {
        parameters_follow(ps.drop_last(), cx);
        opt_type_follows(ps.last().ty, cx);
        images_join(parameter_words(ps.drop_last()), words_of_opt(ps.last().ty), cx);
        assert(rename_params(ps, cx).drop_last() =~= rename_params(ps.drop_last(), cx));
    }
}

proof fn fields_follow(fs: Seq<FieldDeclView>, cx: RenamesView)
    ensures
        field_words(rename_fields(fs, cx)) == type_images(field_words(fs), cx),
    decreases fs.len(),
{
    if fs.len() == 0 {
        no_images(cx);
    } else {
        fields_follow(fs.drop_last(), cx);
        every_name_in_a_type_follows(fs.last().ty, cx);
        images_join(field_words(fs.drop_last()), words_of(fs.last().ty.item), cx);
        assert(rename_fields(fs, cx).drop_last() =~= rename_fields(fs.drop_last(), cx));
    }
}

proof fn variants_follow(ds: Seq<VariantDeclView>, cx: RenamesView, local: bool)
    ensures
        variant_words(rename_variants(ds, cx, local)) == type_images(variant_words(ds), cx),
    decreases ds.len(),
{
    if ds.len() == 0 {
        no_images(cx);
    } else {
        variants_follow(ds.drop_last(), cx, local);
        fields_follow(ds.last().fields, cx);
        images_join(variant_words(ds.drop_last()), field_words(ds.last().fields), cx);
        assert(rename_variants(ds, cx, local).drop_last() =~= rename_variants(ds.drop_last(), cx, local));
    }
}

// ── Expressions ──────────────────────────────────────────────────────────

/// Every name of a type or trait in an expression, wherever it stands, is
/// replaced by what is to stand for it. Which names are local makes no
/// difference.
pub proof fn every_type_follows(a: Ast, cx: RenamesView, sh: Set<Seq<char>>, local: bool)
    ensures
        words_in(rename_ast(a, cx, sh, local).0) == type_images(words_in(a), cx),
    decreases a, 2int,
{
    match a {
        Ast::Literal(_) => no_images(cx),
        Ast::Return(x) => opt_words_follow(x, cx, sh, local),
        Ast::Unary(x) => node_words_follow(*x.expr, cx, sh, local),
        Ast::Binary(x) => {
            node_words_follow(*x.left, cx, sh, local);
            node_words_follow(*x.right, cx, rename_node(*x.left, cx, sh, local).1, local);
            images_join(words_in_node(*x.left), words_in_node(*x.right), cx);
        },
        Ast::Conditional(x) => {
            node_words_follow(*x.cond, cx, sh, local);
            let s1 = rename_node(*x.cond, cx, sh, local).1;
            node_words_follow(*x.true_branch, cx, s1, local);
            let s2 = rename_node(*x.true_branch, cx, s1, local).1;
            opt_words_follow(x.false_branch, cx, s2, local);
            images_join_3(
                words_in_node(*x.cond),
                words_in_node(*x.true_branch),
                words_in_opt(x.false_branch),
                cx,
            );
        },
        Ast::Assign(x) => assign_words_follow(x, cx, sh, local),
        Ast::Function(x) => {
            parameters_follow(x.params, cx);
            node_words_follow(*x.body, cx, param_names(x.params), true);
            opt_type_follows(x.return_type, cx);
            images_join_3(
                parameter_words(x.params),
                words_in_node(*x.body),
                words_of_opt(x.return_type),
                cx,
            );
        },
        Ast::Call(x) => {
            node_words_follow(*x.callable, cx, sh, local);
            let s1 = rename_node(*x.callable, cx, sh, local).1;
            args_words_follow(x.args, cx, s1, local);
            images_join(words_in_node(*x.callable), words_in_args(x.args), cx);
        },
        Ast::Tuple(es) => all_words_follow(es, cx, sh, local),
        Ast::Block(es) => all_words_follow(es, cx, sh, local),
        Ast::Annotated(x) => {
            node_words_follow(*x.expr, cx, sh, local);
            every_name_in_a_type_follows(x.ty, cx);
            images_join(words_in_node(*x.expr), words_of(x.ty.item), cx);
        },
        Ast::Index(x) => {
            node_words_follow(*x.target, cx, sh, local);
            node_words_follow(*x.index, cx, rename_node(*x.target, cx, sh, local).1, local);
            images_join(words_in_node(*x.target), words_in_node(*x.index), cx);
        },
        Ast::Slice(x) => slice_words_follow(x, cx, sh, local),
        Ast::Range(x) => {
            node_words_follow(*x.start, cx, sh, local);
            node_words_follow(*x.end, cx, rename_node(*x.start, cx, sh, local).1, local);
            images_join(words_in_node(*x.start), words_in_node(*x.end), cx);
        },
        Ast::ForLoop(x) => loop_words_follow(x, cx, sh, local),
        Ast::Comprehension(x) => node_words_follow(*x, cx, sh, local),
        Ast::DataDecl(d) => data_words_follow(d, cx, sh, local),
        Ast::FieldAccess(x) => field_words_follow(x, cx, sh, local),
        Ast::Import(_) => no_images(cx),
        Ast::Match(x) => match_words_follow(x, cx, sh, local),
        Ast::IsPattern(x) => node_words_follow(*x.subject, cx, sh, local),
        Ast::Try(x) => node_words_follow(*x, cx, sh, local),
        Ast::Unwrap(x) => node_words_follow(*x, cx, sh, local),
        Ast::Catch(value, handler) => {
            node_words_follow(*value, cx, sh, local);
            node_words_follow(*handler, cx, rename_node(*value, cx, sh, local).1, local);
            images_join(words_in_node(*value), words_in_node(*handler), cx);
        },
        Ast::MutArg(x) => node_words_follow(*x, cx, sh, local),
    }
}

proof fn node_words_follow(n: Node, cx: RenamesView, sh: Set<Seq<char>>, local: bool)
    ensures
        words_in_node(rename_node(n, cx, sh, local).0) == type_images(words_in_node(n), cx),
    decreases n, 2int,
{
    every_type_follows(n.item, cx, sh, local);
}

proof fn opt_words_follow(n: Option<Box<Node>>, cx: RenamesView, sh: Set<Seq<char>>, local: bool)
    ensures
        words_in_opt(rename_opt(n, cx, sh, local).0) == type_images(words_in_opt(n), cx),
    decreases n, 2int,
{
    match n {
        Some(x) => node_words_follow(*x, cx, sh, local),
        None => no_images(cx),
    }
}

proof fn assign_words_follow(x: AssignExprView, cx: RenamesView, sh: Set<Seq<char>>, local: bool)
    ensures
        words_in(rename_ast(Ast::Assign(x), cx, sh, local).0) == type_images(words_in(Ast::Assign(x)), cx),
    decreases x, 2int,
{
    node_words_follow(*x.value, cx, sh, local);
    let s1 = rename_node(*x.value, cx, sh, local).1;
    opt_type_follows(x.typ, cx);
    node_words_follow(*x.target, cx, s1, local);
    images_join_3(words_in_node(*x.value), words_of_opt(x.typ), words_in_node(*x.target), cx);
    if identifier_of(x.target.item) is Some {
        let new = rename_ast(Ast::Assign(x), cx, sh, local).0->Assign_0.target;
        assert(new.item is Literal);
        assert(words_in(new.item) == Seq::<Seq<char>>::empty());
        assert(words_in_node(*new) == Seq::<Seq<char>>::empty());
        assert(words_in(x.target.item) == Seq::<Seq<char>>::empty());
        assert(words_in_node(*x.target) == Seq::<Seq<char>>::empty());
        no_images(cx);
    }
}

proof fn slice_words_follow(x: SliceExprView, cx: RenamesView, sh: Set<Seq<char>>, local: bool)
    ensures
        words_in(rename_ast(Ast::Slice(x), cx, sh, local).0) == type_images(words_in(Ast::Slice(x)), cx),
    decreases x, 2int,
{
    node_words_follow(*x.target, cx, sh, local);
    let s1 = rename_node(*x.target, cx, sh, local).1;
    opt_words_follow(x.start, cx, s1, local);
    let s2 = rename_opt(x.start, cx, s1, local).1;
    opt_words_follow(x.end, cx, s2, local);
    images_join_3(words_in_node(*x.target), words_in_opt(x.start), words_in_opt(x.end), cx);
}

proof fn loop_words_follow(x: ForLoopExprView, cx: RenamesView, sh: Set<Seq<char>>, local: bool)
    ensures
        words_in(rename_ast(Ast::ForLoop(x), cx, sh, local).0) == type_images(words_in(Ast::ForLoop(x)), cx),
    decreases x, 2int,
{
    node_words_follow(*x.iterable, cx, sh, local);
    let s1 = rename_node(*x.iterable, cx, sh, local).1.insert(x.var);
    opt_words_follow(x.cond, cx, s1, local);
    let s2 = rename_opt(x.cond, cx, s1, local).1;
    node_words_follow(*x.body, cx, s2, local);
    images_join_3(words_in_node(*x.iterable), words_in_opt(x.cond), words_in_node(*x.body), cx);
}

proof fn data_words_follow(d: DataDeclExprView, cx: RenamesView, sh: Set<Seq<char>>, local: bool)
    ensures
        words_in(rename_ast(Ast::DataDecl(d), cx, sh, local).0) == type_images(words_in(Ast::DataDecl(d)), cx),
{
    fields_follow(d.fields, cx);
    variants_follow(d.variants, cx, local);
    names_become_their_images(d.provides, cx);
    images_join_3(field_words(d.fields), variant_words(d.variants), d.provides, cx);
}

proof fn field_words_follow(x: FieldAccessExprView, cx: RenamesView, sh: Set<Seq<char>>, local: bool)
    ensures
        words_in(rename_ast(Ast::FieldAccess(x), cx, sh, local).0) == type_images(words_in(Ast::FieldAccess(x)), cx),
    decreases x, 2int,
{
    node_words_follow(*x.target, cx, sh, local);
    if identifier_of(x.target.item) is Some {
        assert(words_in(x.target.item) == Seq::<Seq<char>>::empty());
        no_images(cx);
    }
}

proof fn match_words_follow(x: MatchExprView, cx: RenamesView, sh: Set<Seq<char>>, local: bool)
    ensures
        words_in(rename_ast(Ast::Match(x), cx, sh, local).0) == type_images(words_in(Ast::Match(x)), cx),
    decreases x, 2int,
{
    node_words_follow(*x.subject, cx, sh, local);
    let s1 = rename_node(*x.subject, cx, sh, local).1;
    arms_words_follow(x.arms, cx, s1, local);
    let s2 = rename_arms(x.arms, cx, s1, local).1;
    opt_words_follow(x.default, cx, s2, local);
    images_join_3(words_in_node(*x.subject), words_in_arms(x.arms), words_in_opt(x.default), cx);
}

proof fn all_words_follow(ns: Seq<Node>, cx: RenamesView, sh: Set<Seq<char>>, local: bool)
    ensures
        words_in_all(rename_all(ns, cx, sh, local).0) == type_images(words_in_all(ns), cx),
    decreases ns, 2int,
{
    if ns.len() == 0 {
        no_images(cx);
    } else {
        let (front, s1) = rename_all(ns.drop_last(), cx, sh, local);
        all_words_follow(ns.drop_last(), cx, sh, local);
        node_words_follow(ns.last(), cx, s1, local);
        images_join(words_in_all(ns.drop_last()), words_in_node(ns.last()), cx);
        assert(rename_all(ns, cx, sh, local).0.drop_last() =~= front);
    }
}

proof fn args_words_follow(ns: Seq<Node>, cx: RenamesView, sh: Set<Seq<char>>, local: bool)
    ensures
        words_in_args(rename_args(ns, cx, sh, local).0) == type_images(words_in_args(ns), cx),
    decreases ns, 2int,
{
    if ns.len() == 0 {
        no_images(cx);
    } else {
        let (front, s1) = rename_args(ns.drop_last(), cx, sh, local);
        args_words_follow(ns.drop_last(), cx, sh, local);
        let n = ns.last();
        let new = rename_arg(n, cx, s1, local).0;
        match n.item {
            Ast::Assign(x) => {
                node_words_follow(*x.value, cx, s1, local);
                assert(words_in_arg(new) == words_in_node(rename_node(*x.value, cx, s1, local).0));
            },
            _ => {
                node_words_follow(n, cx, s1, local);
                assert(!(new.item is Assign));
                assert(words_in_arg(new) == words_in_node(new));
            },
        }
        images_join(words_in_args(ns.drop_last()), words_in_arg(n), cx);
        assert(rename_args(ns, cx, sh, local).0.drop_last() =~= front);
    }
}

proof fn arms_words_follow(xs: Seq<MatchArmView>, cx: RenamesView, sh: Set<Seq<char>>, local: bool)
    ensures
        words_in_arms(rename_arms(xs, cx, sh, local).0) == type_images(words_in_arms(xs), cx),
    decreases xs, 2int,
{
    if xs.len() == 0 {
        no_images(cx);
    } else {
        let (front, s1) = rename_arms(xs.drop_last(), cx, sh, local);
        arms_words_follow(xs.drop_last(), cx, sh, local);
        arm_words_follow(xs.last(), cx, s1, local);
        images_join(words_in_arms(xs.drop_last()), words_in_arm(xs.last()), cx);
        assert(rename_arms(xs, cx, sh, local).0.drop_last() =~= front);
    }
}

proof fn arm_words_follow(x: MatchArmView, cx: RenamesView, sh: Set<Seq<char>>, local: bool)
    ensures
        words_in_arm(rename_arm(x, cx, sh, local).0) == type_images(words_in_arm(x), cx),
    decreases x, 2int,
{
    let inner = with_binds(sh, x.pattern.binds);
    opt_words_follow(x.guard, cx, inner, local);
    let s1 = rename_opt(x.guard, cx, inner, local).1;
    node_words_follow(*x.body, cx, s1, local);
    images_join(words_in_opt(x.guard), words_in_node(*x.body), cx);
}

} // verus!
