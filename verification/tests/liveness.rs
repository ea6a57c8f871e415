use froglang_core::dump::{dump_body, dump_entry};
use froglang_core::linear::{check, entry_exit_live, mut_param_names};
use froglang_core::liveness::{analyze_body, analyze_entry, Ownership};
use froglang_core::numbering::number_nodes;
use froglang_core::text::NameSet;
use froglang_core::tokens::{Span, Spanned, Token};
use froglang_core::typed_ast::{Arg, NodeId, Place, PlaceSeg, TypedExpr, TypedExprKind};
use froglang_core::types::Type;

type Node = Spanned<TypedExpr>;

fn typed(ty: Type, kind: TypedExprKind) -> Node {
    Spanned { span: Span::new((0, 0), (0, 1)), item: TypedExpr { id: 0, ty, kind } }
}

fn num(n: i64) -> Node {
    typed(Type::Int, TypedExprKind::IntLit(n))
}

fn none() -> Node {
    typed(Type::Nil, TypedExprKind::NoneLit)
}

fn var(name: &str, ty: Type) -> Node {
    typed(ty, TypedExprKind::Var(name.to_string()))
}

fn ivar(name: &str) -> Node {
    var(name, Type::Int)
}

fn bin(op: Token, left: Node, right: Node, ty: Type) -> Node {
    typed(ty, TypedExprKind::Binary { op, left: Box::new(left), right: Box::new(right) })
}

fn plus(left: Node, right: Node) -> Node {
    bin(Token::Plus, left, right, Type::Int)
}

fn assign(name: &str, value: Node) -> Node {
    let ty = value.item.ty.dup();
    typed(ty, TypedExprKind::Assign { name: name.to_string(), value: Box::new(value) })
}

fn block(stmts: Vec<Node>) -> Node {
    typed(Type::Nil, TypedExprKind::Block(stmts))
}

fn cond(c: Node, a: Node, b: Option<Node>, ty: Type) -> Node {
    typed(
        ty,
        TypedExprKind::Conditional { cond: Box::new(c), true_branch: Box::new(a), false_branch: b.map(Box::new) },
    )
}

fn range(a: Node, b: Node) -> Node {
    typed(
        Type::Named { name: "Range".to_string(), args: vec![Type::Int] },
        TypedExprKind::Range { start: Box::new(a), end: Box::new(b) },
    )
}

fn for_loop(name: &str, iterable: Node, guard: Option<Node>, body: Node) -> Node {
    typed(
        Type::Nil,
        TypedExprKind::ForLoop {
            var: name.to_string(),
            iterable: Box::new(iterable),
            cond: guard.map(Box::new),
            body: Box::new(body),
            iter_via: None,
        },
    )
}

fn call(name: &str, args: Vec<Arg>, ty: Type) -> Node {
    typed(ty, TypedExprKind::Call { callable: Box::new(var(name, Type::Never)), args })
}

fn func(name: &str, params: Vec<(String, Type, bool)>, ret: Type, body: Node) -> Node {
    let f = typed(Type::Never, TypedExprKind::Function { params, return_type: ret, body: Box::new(body) });
    assign(name, f)
}

fn list(elems: Vec<Node>) -> Node {
    typed(Type::list(Type::Int), TypedExprKind::List(elems))
}

fn collect_ids(e: &Node, out: &mut Vec<NodeId>) {
    out.push(e.item.id);
    for c in children(e) {
        collect_ids(c, out);
    }
}

fn collect_var_ids(e: &Node, name: &str, out: &mut Vec<NodeId>) {
    if let TypedExprKind::Var(n) = &e.item.kind {
        if n == name {
            out.push(e.item.id);
        }
    }
    for c in children(e) {
        collect_var_ids(c, name, out);
    }
}

fn children(e: &Node) -> Vec<&Node> {
    match &e.item.kind {
        TypedExprKind::Binary { op: _, left, right } => vec![left, right],
        TypedExprKind::Conditional { cond, true_branch, false_branch } => {
            let mut v: Vec<&Node> = vec![cond, true_branch];
            if let Some(f) = false_branch {
                v.push(f);
            }
            v
        }
        TypedExprKind::Assign { name: _, value } => vec![value],
        TypedExprKind::Function { params: _, return_type: _, body } => vec![body],
        TypedExprKind::Call { callable, args } => {
            let mut v: Vec<&Node> = vec![callable];
            for a in args {
                v.extend(a.subexprs());
            }
            v
        }
        TypedExprKind::Range { start, end } => vec![start, end],
        TypedExprKind::List(es) | TypedExprKind::Block(es) => es.iter().collect(),
        TypedExprKind::ForLoop { var: _, iterable, cond, body, iter_via: _ } => {
            let mut v: Vec<&Node> = vec![iterable];
            if let Some(c) = cond {
                v.push(c);
            }
            v.push(body);
            v
        }
        TypedExprKind::StructInit { name: _, fields } => fields.iter().map(|f| &*f.1).collect(),
        TypedExprKind::VariantInit { enum_name: _, variant: _, tag: _, fields } => {
            fields.iter().map(|f| &*f.1).collect()
        }
        TypedExprKind::FieldAccess { target, .. } => vec![target],
        TypedExprKind::IsVariant { target, .. } => vec![target],
        TypedExprKind::VariantField { target, .. } => vec![target],
        TypedExprKind::Widen { value, tag: _ } => vec![value],
        TypedExprKind::Narrow { value, tag: _ } => vec![value],
        TypedExprKind::TypeTag { target, tag: _ } => vec![target],
        TypedExprKind::PlaceAssign { place, value } => {
            let mut v = place.index_exprs();
            v.push(value);
            v
        }
        _ => vec![],
    }
}

fn assert_dense_unique(mut typed: Node, expect_source: &str) {
    let n = number_nodes(&mut typed);
    let mut ids = Vec::new();
    collect_ids(&typed, &mut ids);
    let mut sorted = ids.clone();
    sorted.sort_unstable();
    sorted.dedup();
    assert_eq!(sorted.len(), ids.len(), "duplicate id assigned for {:?}", expect_source);
    assert!(ids.iter().all(|&id| id != 0), "unnumbered (id == 0) node in {:?}", expect_source);
    assert_eq!(sorted, (1..=n).collect::<Vec<_>>(), "ids not densely packed 1..=n for {:?}", expect_source);
}

fn numbered(mut t: Node) -> Node {
    number_nodes(&mut t);
    t
}

fn entry_stmts(t: Node) -> Vec<Node> {
    match t.item.kind {
        TypedExprKind::Block(stmts) => stmts,
        other => vec![Spanned { span: t.span, item: TypedExpr { id: t.item.id, ty: t.item.ty, kind: other } }],
    }
}

fn names(ns: &[&str]) -> NameSet {
    let mut s = NameSet::empty();
    for n in ns {
        s = s.with(n);
    }
    s
}

// `data Shape is Circle(r: Int) | Square(s: Int)`, `let sh = Circle(r=2)` and
// a `match` on it, as a chain of tests.
fn match_program() -> Node {
    let shape = || Type::Named { name: "Shape".to_string(), args: vec![] };
    let init = typed(
        shape(),
        TypedExprKind::VariantInit {
            enum_name: "Shape".to_string(),
            variant: "Circle".to_string(),
            tag: 0,
            fields: vec![("r".to_string(), Box::new(num(2)))],
        },
    );
    let arm = |variant: &str, field: &str, tag: u32| {
        let test = typed(
            Type::Bool,
            TypedExprKind::IsVariant {
                target: Box::new(var("$m", shape())),
                enum_name: "Shape".to_string(),
                variant: variant.to_string(),
                tag,
            },
        );
        let bind = assign(
            field,
            typed(
                Type::Int,
                TypedExprKind::VariantField {
                    target: Box::new(var("$m", shape())),
                    enum_name: "Shape".to_string(),
                    variant: variant.to_string(),
                    field: field.to_string(),
                },
            ),
        );
        (test, block(vec![bind, ivar(field)]))
    };
    let (t1, b1) = arm("Circle", "r", 0);
    let (t2, b2) = arm("Square", "s", 1);
    let chain = cond(t1, b1, Some(cond(t2, b2, None, Type::Int)), Type::Int);
    block(vec![assign("sh", init), block(vec![assign("$m", var("sh", shape())), chain])])
}

// `func f(x: Int): Int | E = if x < 0 then E(msg="bad") else x`, then
// `f(1) catch 0`.
fn catch_program() -> Node {
    let e = || Type::Named { name: "E".to_string(), args: vec![] };
    let u = || Type::Union(vec![e(), Type::Int]);
    let bad = typed(
        e(),
        TypedExprKind::StructInit {
            name: "E".to_string(),
            fields: vec![(
                "msg".to_string(),
                Box::new(typed(Type::Str, TypedExprKind::StrLit("bad".to_string()))),
            )],
        },
    );
    let body = cond(
        bin(Token::Lt, ivar("x"), num(0), Type::Bool),
        typed(u(), TypedExprKind::Widen { value: Box::new(bad), tag: 0 }),
        Some(typed(u(), TypedExprKind::Widen { value: Box::new(ivar("x")), tag: 1 })),
        u(),
    );
    let f = func("f", vec![("x".to_string(), Type::Int, false)], u(), body);
    let test = typed(Type::Bool, TypedExprKind::TypeTag { target: Box::new(var("$c", u())), tag: 0 });
    let value = typed(Type::Int, TypedExprKind::Narrow { value: Box::new(var("$c", u())), tag: 1 });
    let caught = block(vec![
        assign("$c", call("f", vec![Arg::Value(num(1))], u())),
        cond(test, num(0), Some(value), Type::Int),
    ]);
    block(vec![f, caught])
}

#[test]
fn numbers_simple_expr() {
    assert_dense_unique(plus(num(1), num(2)), "1 + 2");
}

#[test]
fn numbers_conditional() {
    let t = typed(Type::Bool, TypedExprKind::BoolLit(true));
    assert_dense_unique(cond(t, num(1), Some(num(2)), Type::Int), "conditional");
}

#[test]
fn numbers_for_loop() {
    let body = block(vec![assign("acc", plus(ivar("acc"), ivar("i")))]);
    let src = block(vec![assign("acc", num(0)), for_loop("i", range(num(0), num(5)), None, body), ivar("acc")]);
    assert_dense_unique(src, "for loop");
}

#[test]
fn numbers_function_body() {
    let f = func("f", vec![("x".to_string(), Type::Int, false)], Type::Int, plus(ivar("x"), num(1)));
    assert_dense_unique(block(vec![f, call("f", vec![Arg::Value(num(2))], Type::Int)]), "function");
}

#[test]
fn numbers_match_desugaring() {
    assert_dense_unique(match_program(), "match");
}

#[test]
fn numbers_catch_desugaring_with_clones() {
    assert_dense_unique(catch_program(), "catch");
}

fn place(root: &str, path: Vec<PlaceSeg>) -> Place {
    Place { root: root.to_string(), path }
}

#[test]
fn numbers_place_assign_with_index() {
    let at = PlaceSeg::Index { index: Box::new(num(0)), elem_ty: Type::Int };
    let write = typed(
        Type::Int,
        TypedExprKind::PlaceAssign { place: place("xs", vec![at]), value: Box::new(num(9)) },
    );
    assert_dense_unique(block(vec![assign("xs", list(vec![num(1), num(2), num(3)])), write]), "place assign with index");
}

#[test]
fn loop_back_edge_keeps_body_use_alive() {
    let xs = || var("xs", Type::list(Type::Int));
    let body = block(vec![call("print", vec![Arg::Value(xs())], Type::Nil)]);
    let typed = numbered(block(vec![
        assign("xs", list(vec![num(1), num(2), num(3)])),
        for_loop("i", xs(), None, body),
    ]));
    let mut ids = Vec::new();
    collect_var_ids(&typed, "xs", &mut ids);
    assert_eq!(ids.len(), 2, "expected 2 occurrences of `xs`, found {}", ids.len());
    let liveness = analyze_entry(&entry_stmts(typed), &NameSet::empty());
    assert_eq!(
        liveness.ownership(ids[1]),
        Ownership::Copy,
        "xs is read again next iteration — this body occurrence must not look like a last use"
    );
}

#[test]
fn loop_accumulator_reassignment_is_a_last_use_each_iteration() {
    let body = block(vec![assign("count", plus(ivar("count"), ivar("i")))]);
    let typed =
        numbered(block(vec![assign("count", num(0)), for_loop("i", range(num(0), num(3)), None, body), ivar("count")]));
    let mut ids = Vec::new();
    collect_var_ids(&typed, "count", &mut ids);
    assert_eq!(ids.len(), 2, "one Var(count) on the accumulator's RHS, one trailing");
    let liveness = analyze_entry(&entry_stmts(typed), &NameSet::empty());
    assert_eq!(
        liveness.ownership(ids[0]),
        Ownership::Move,
        "count = count + i's RHS read is the last use of that iteration's pre-update value"
    );
    assert_eq!(
        liveness.ownership(ids[1]),
        Ownership::Move,
        "the trailing count has nothing live after it in this entry"
    );
}

#[test]
fn guarded_loop_converges_and_keeps_guard_var_alive() {
    let guard = bin(Token::Gt, ivar("i"), ivar("limit"), Type::Bool);
    let body = block(vec![assign("count", plus(ivar("count"), ivar("i")))]);
    let typed = numbered(block(vec![
        assign("count", num(0)),
        assign("limit", num(2)),
        for_loop("i", range(num(0), num(5)), Some(guard), body),
        ivar("count"),
    ]));
    let mut limit_ids = Vec::new();
    collect_var_ids(&typed, "limit", &mut limit_ids);
    assert_eq!(limit_ids.len(), 1);
    let liveness = analyze_entry(&entry_stmts(typed), &NameSet::empty());
    assert_eq!(
        liveness.ownership(limit_ids[0]),
        Ownership::Copy,
        "limit is read again by the guard on the next iteration — never reassigned, \
         so (like `xs` in the unguarded-loop test) it must never look like a last use"
    );
}

#[test]
fn mut_argument_keeps_its_root_live_into_the_call() {
    let bump = func(
        "bump",
        vec![("p".to_string(), Type::Int, true)],
        Type::Nil,
        block(vec![assign("p", plus(ivar("p"), num(1))), none()]),
    );
    let typed = numbered(block(vec![
        bump,
        assign("a", num(1)),
        assign("b", ivar("a")),
        call("bump", vec![Arg::Mut(place("a", vec![]))], Type::Nil),
        ivar("a"),
    ]));
    let mut ids = Vec::new();
    collect_var_ids(&typed, "a", &mut ids);
    assert_eq!(ids.len(), 2, "expected 2 occurrences of `a`, found {}", ids.len());
    let liveness = analyze_entry(&entry_stmts(typed), &NameSet::empty());
    assert_eq!(
        liveness.ownership(ids[0]),
        Ownership::Copy,
        "`a` is read again by `bump(mut a)` below, so aliasing it here is not a last use"
    );
    assert_eq!(
        liveness.ownership(ids[1]),
        Ownership::Move,
        "the trailing `a` has nothing live after it in this entry"
    );
}

#[test]
fn self_assignment_reads_the_old_value_as_a_last_use() {
    let typed = numbered(block(vec![assign("x", num(1)), assign("x", plus(ivar("x"), num(1))), ivar("x")]));
    let mut ids = Vec::new();
    collect_var_ids(&typed, "x", &mut ids);
    assert_eq!(ids.len(), 2, "one Var(x) on the assignment's RHS, one trailing");
    let liveness = analyze_entry(&entry_stmts(typed), &NameSet::empty());
    assert_eq!(
        liveness.ownership(ids[0]),
        Ownership::Move,
        "the RHS read is the last use of x's pre-assignment value"
    );
    assert_eq!(
        liveness.ownership(ids[1]),
        Ownership::Move,
        "the trailing x is also a last use — nothing live after this entry"
    );
}

fn p_program() -> Node {
    let p = || Type::strukt("P".to_string());
    let init = typed(
        p(),
        TypedExprKind::StructInit { name: "P".to_string(), fields: vec![("x".to_string(), Box::new(num(1)))] },
    );
    let write = typed(
        Type::Int,
        TypedExprKind::PlaceAssign {
            place: place("o", vec![PlaceSeg::Field("x".to_string())]),
            value: Box::new(num(5)),
        },
    );
    let read = typed(
        Type::Int,
        TypedExprKind::FieldAccess { target: Box::new(var("o", p())), field: "x".to_string(), enum_name: None },
    );
    block(vec![assign("o", init), write, read])
}

#[test]
fn place_assign_root_is_not_killed() {
    let typed = numbered(p_program());
    let mut ids = Vec::new();
    collect_var_ids(&typed, "o", &mut ids);
    assert_eq!(ids.len(), 1);
    let stmts = entry_stmts(typed);
    let liveness = analyze_entry(&stmts, &NameSet::empty());
    assert_eq!(
        liveness.ownership(ids[0]),
        Ownership::Move,
        "the trailing `o.x` is o's only Var read, with nothing live after this entry"
    );
    let place_assign_stmt = stmts
        .iter()
        .find(|s| matches!(s.item.kind, TypedExprKind::PlaceAssign { .. }))
        .expect("expected a PlaceAssign statement");
    assert!(
        !liveness.dead_after(place_assign_stmt.item.id).contains(&"o".to_string()),
        "`o` is read again by the trailing `o.x` — it must not die right after `o.x = 5`"
    );
}

#[test]
fn catch_handler_clones_are_analyzed_independently() {
    let typed = numbered(catch_program());
    let _ = analyze_entry(&entry_stmts(typed), &NameSet::empty());
}

fn second_entry() -> Node {
    numbered(block(vec![
        call("print", vec![Arg::Value(var("s", Type::Str))], Type::Nil),
        assign("t", num(1)),
        ivar("t"),
    ]))
}

#[test]
fn exit_live_keeps_a_prior_entry_binding_alive_past_its_only_use() {
    let mut ids = Vec::new();
    collect_var_ids(&second_entry(), "s", &mut ids);
    assert_eq!(ids.len(), 1);
    let liveness = analyze_entry(&entry_stmts(second_entry()), &names(&["s"]));
    assert_eq!(
        liveness.ownership(ids[0]),
        Ownership::Copy,
        "s must stay live for the whole entry because it's in exit_live, \
         even though nothing in this entry reads it again"
    );
    let liveness_local = analyze_entry(&entry_stmts(second_entry()), &NameSet::empty());
    assert_eq!(liveness_local.ownership(ids[0]), Ownership::Move);
}

#[test]
fn function_body_exit_live_is_its_mut_params_only() {
    let body = block(vec![assign("y", plus(ivar("acc"), ivar("x"))), ivar("y")]);
    let f = func(
        "f",
        vec![("acc".to_string(), Type::Int, true), ("x".to_string(), Type::Int, false)],
        Type::Int,
        body,
    );
    let typed = numbered(block(vec![f]));
    let TypedExprKind::Block(stmts) = &typed.item.kind else { panic!("expected top-level Block") };
    let TypedExprKind::Assign { value, .. } = &stmts[0].item.kind else { panic!("expected Assign") };
    let TypedExprKind::Function { body, .. } = &value.item.kind else { panic!("expected Function") };
    let mut acc_ids = Vec::new();
    collect_var_ids(body, "acc", &mut acc_ids);
    let mut x_ids = Vec::new();
    collect_var_ids(body, "x", &mut x_ids);
    assert_eq!(acc_ids.len(), 1);
    assert_eq!(x_ids.len(), 1);
    let liveness = analyze_body(body, &names(&["acc"]));
    assert_eq!(
        liveness.ownership(acc_ids[0]),
        Ownership::Copy,
        "acc is `mut` and never reassigned — its copy-out reads the same \
         binding this occurrence reads, so it must not look like a last use"
    );
    assert_eq!(
        liveness.ownership(x_ids[0]),
        Ownership::Move,
        "x is a plain parameter, not in exit_live, and used exactly once"
    );
}

#[test]
fn names_die_after_their_last_statement_in_order() {
    let typed = numbered(block(vec![
        assign("b", num(1)),
        assign("a", num(2)),
        assign("c", plus(ivar("b"), ivar("a"))),
        num(0),
    ]));
    let stmts = entry_stmts(typed);
    let liveness = analyze_entry(&stmts, &NameSet::empty());
    assert_eq!(liveness.dead_after(stmts[2].item.id), vec!["a".to_string(), "b".to_string()]);
    assert!(liveness.dead_after(stmts[0].item.id).is_empty());
}

#[test]
fn the_dump_shows_every_read() {
    let typed = numbered(block(vec![assign("x", num(1)), assign("y", plus(ivar("x"), ivar("x")))]));
    let stmts = entry_stmts(typed);
    let liveness = analyze_entry(&stmts, &NameSet::empty());
    let at = Span::new((0, 0), (0, 1)).show();
    assert_eq!(
        dump_entry("main", &stmts, &liveness),
        format!("-- liveness: main --\n  x @ {at} -> Copy\n  x @ {at} -> Move\n")
    );
}

#[test]
fn the_dump_leaves_bound_functions_and_callees_out() {
    let body = numbered(block(vec![
        func("g", vec![("x".to_string(), Type::Int, false)], Type::Int, ivar("x")),
        call("g", vec![Arg::Value(ivar("n"))], Type::Int),
    ]));
    let liveness = analyze_body(&body, &NameSet::empty());
    let at = Span::new((0, 0), (0, 1)).show();
    assert_eq!(dump_body("f", &body, &liveness), format!("-- liveness: f --\n  n @ {at} -> Move\n"));
}

#[test]
fn the_indexes_of_a_mut_argument_are_read_in_order() {
    let step = |e: Node| PlaceSeg::Index { index: Box::new(e), elem_ty: Type::Int };
    let place = Place { root: "grid".to_string(), path: vec![step(ivar("i")), step(ivar("i"))] };
    let body = numbered(block(vec![call("bump", vec![Arg::Mut(place)], Type::Nil)]));
    let liveness = analyze_body(&body, &NameSet::empty());
    let mut ids = Vec::new();
    collect_var_ids(&body, "i", &mut ids);
    assert_eq!(ids.len(), 2);
    assert_eq!(liveness.ownership(ids[0]), Ownership::Copy);
    assert_eq!(liveness.ownership(ids[1]), Ownership::Move);
}

fn file() -> Type {
    Type::Named { name: "File".to_string(), args: vec![] }
}

fn close_file() -> Node {
    call("close", vec![Arg::Value(var("f", file()))], Type::Nil)
}

// A function that takes a file, and a condition, and does this.
fn taking_a_file(mutable: bool, body: Vec<Node>) -> Vec<Node> {
    let params = vec![("f".to_string(), file(), mutable), ("c".to_string(), Type::Bool, false)];
    entry_stmts(numbered(block(vec![func("use", params, Type::Nil, block(body))])))
}

#[test]
fn a_linear_value_moves_once() {
    let prior = NameSet::empty();
    let linear = vec![file()];
    assert!(check(&taking_a_file(false, vec![close_file()]), &prior, &linear).is_ok());
    let twice = || taking_a_file(false, vec![close_file(), close_file()]);
    let e = check(&twice(), &prior, &linear).unwrap_err();
    assert_eq!(e.item.msg, "'f' is Linear; it can only be moved or passed `mut`, not aliased");
    assert!(check(&twice(), &prior, &vec![]).is_ok());
    assert!(check(&taking_a_file(true, vec![close_file(), close_file()]), &prior, &linear).is_ok());
}

#[test]
fn both_branches_move_a_linear_value_or_none_does() {
    let prior = NameSet::empty();
    let linear = vec![file()];
    let branch = |other: Option<Node>| {
        typed(
            Type::Nil,
            TypedExprKind::Conditional {
                cond: Box::new(var("c", Type::Bool)),
                true_branch: Box::new(close_file()),
                false_branch: other.map(Box::new),
            },
        )
    };
    assert!(check(&taking_a_file(false, vec![branch(Some(close_file()))]), &prior, &linear).is_ok());
    let e = check(&taking_a_file(false, vec![branch(None)]), &prior, &linear).unwrap_err();
    assert_eq!(
        e.item.msg,
        "'f' is Linear and is consumed on only one branch of this if/match — it must be consumed on every branch or none"
    );
}

#[test]
fn a_linear_value_at_the_top_is_always_aliased() {
    let stmts = entry_stmts(numbered(block(vec![assign("f", call("open", vec![], file())), close_file()])));
    assert!(check(&stmts, &NameSet::empty(), &vec![file()]).is_err());
}

#[test]
fn an_entry_keeps_its_own_names_and_the_earlier_ones() {
    let stmts = entry_stmts(numbered(block(vec![assign("x", num(1)), ivar("x")])));
    let live = entry_exit_live(&stmts, &names(&["s"]));
    assert!(live.contains("s"));
    assert!(live.contains("x"));
    assert!(!live.contains("y"));
}

#[test]
fn nothing_dies_where_no_statement_stands() {
    let stmts = entry_stmts(numbered(block(vec![
        assign("a", num(2)),
        assign("b", plus(ivar("a"), num(1))),
        plus(ivar("b"), ivar("k")),
    ])));
    let liveness = analyze_entry(&stmts, &names(&["k"]));
    assert_eq!(liveness.dead_after(stmts[1].item.id), vec!["a".to_string()]);
    assert_eq!(liveness.dead_after(stmts[2].item.id), vec!["b".to_string()]);
    assert!(liveness.dead_after(0).is_empty());
    assert!(liveness.dead_after(99).is_empty());
    let TypedExprKind::Assign { value, .. } = &stmts[1].item.kind else { panic!("expected Assign") };
    assert!(liveness.dead_after(value.item.id).is_empty());
}

#[test]
fn the_mut_parameters_are_named() {
    let params = vec![("a".to_string(), Type::Int, true), ("b".to_string(), Type::Int, false)];
    let set = mut_param_names(&params);
    assert!(set.contains("a"));
    assert!(!set.contains("b"));
}
