//! What evaluation does to names, and what the analysis of liveness promises
//! about it.
//!
//! A tree is evaluated part by part. Seen from the names, that is a run of
//! reads and writes, and there may be many runs: branches and loops go one way
//! or the other. The laws at the end hold of every run.
use crate::liveness::{
    around, in_order, in_order_is, live, live_arg, live_args, live_fields, live_list, live_opt, live_pairs, live_path, live_seg, loop_head,
    marks, marks_arg, marks_args, marks_block, marks_fields, marks_list, marks_opt, marks_pairs, marks_path,
    marks_seg, mut_roots, no_marks, with_dead, Marks, Names,
};
use crate::text::{increasing, text_lt, text_lt_total, text_lt_transitive};
use crate::tokens::Spanned;
use crate::typed_ast::{
    arg_ids, args_ids, field_ids, ids, kind_ids, list_ids, opt_ids, pair_ids, path_ids, seg_ids, Arg, PlaceSeg,
    TypedExpr, TypedExprKind, TypedExprRef,
};
use vstd::prelude::*;

verus! {

// ── The order of evaluation ──────────────────────────────────────────────

/// What evaluating something does to names, and in what order.
pub ghost enum Flow {
    /// Nothing.
    Skip,
    /// The node `0` reads the name `1`.
    Read(u32, Seq<char>),
    /// A name is read, though no node reads it.
    Use(Seq<char>),
    Write(Seq<char>),
    /// The body is left.
    Leave,
    InTurn(Box<Flow>, Box<Flow>),
    Either(Box<Flow>, Box<Flow>),
    /// Any number of times.
    Again(Box<Flow>),
    /// A statement of a block, by the number of its node.
    Stmt(u32, Box<Flow>),
}

pub open spec fn in_turn(a: Flow, b: Flow) -> Flow {
    Flow::InTurn(Box::new(a), Box::new(b))
}

pub open spec fn either(a: Flow, b: Flow) -> Flow {
    Flow::Either(Box::new(a), Box::new(b))
}

/// One turn of a loop: its variable is bound, and the guard decides whether
/// the body is evaluated.
pub open spec fn turn(var: Seq<char>, cond: Option<Flow>, body: Flow) -> Flow {
    in_turn(
        Flow::Write(var),
        match cond {
            Some(c) => in_turn(c, either(body, Flow::Skip)),
            None => body,
        },
    )
}

/// The places that the `mut` arguments of a call name are read and written
/// back once all arguments are there.
pub open spec fn used_roots(args: Seq<Arg>) -> Flow
    decreases args.len(),
{
    if args.len() == 0 {
        Flow::Skip
    } else {
        match args.last() {
            Arg::Mut(p) => in_turn(used_roots(args.drop_last()), Flow::Use(p.root@)),
            Arg::Value(_) => used_roots(args.drop_last()),
        }
    }
}

/// What evaluating `e` does.
pub open spec fn flow(e: Spanned<TypedExpr>) -> Flow
    decreases e,
{
    match e.item.kind {
        TypedExprKind::IntLit(_) => Flow::Skip,
        TypedExprKind::FloatLit(_) => Flow::Skip,
        TypedExprKind::BoolLit(_) => Flow::Skip,
        TypedExprKind::StrLit(_) => Flow::Skip,
        TypedExprKind::NoneLit => Flow::Skip,
        TypedExprKind::Var(name) => Flow::Read(e.item.id, name@),
        TypedExprKind::Unary { op: _, expr } => flow(*expr),
        TypedExprKind::Binary { op: _, left, right } => in_turn(flow(*left), flow(*right)),
        TypedExprKind::Index { target, index } => in_turn(flow(*target), flow(*index)),
        TypedExprKind::Slice { target, start, end } => in_turn(flow(*target), in_turn(flow_opt(start), flow_opt(end))),
        TypedExprKind::Range { start, end } => in_turn(flow(*start), flow(*end)),
        TypedExprKind::List(part) => flow_list(part@),
        TypedExprKind::Dict(part) => flow_pairs(part@),
        TypedExprKind::Block(part) => flow_block(part@),
        TypedExprKind::StructInit { name: _, fields } => flow_fields(fields@),
        TypedExprKind::FieldAccess { target, field: _, enum_name: _ } => flow(*target),
        TypedExprKind::VariantInit { enum_name: _, variant: _, tag: _, fields } => flow_fields(fields@),
        TypedExprKind::IsVariant { target, enum_name: _, variant: _, tag: _ } => flow(*target),
        TypedExprKind::VariantField { target, enum_name: _, variant: _, field: _ } => flow(*target),
        TypedExprKind::Widen { value, tag: _ } => flow(*value),
        TypedExprKind::Narrow { value, tag: _ } => flow(*value),
        TypedExprKind::TypeTag { target, tag: _ } => flow(*target),
        TypedExprKind::Truthy(part) => flow(*part),
        TypedExprKind::Coerce(part) => flow(*part),
        // A function is compiled where it stands, not evaluated.
        TypedExprKind::Assign { name, value } => if value.item.kind is Function {
            Flow::Skip
        } else {
            in_turn(flow(*value), Flow::Write(name@))
        },
        TypedExprKind::Function { params: _, return_type: _, body: _ } => Flow::Skip,
        TypedExprKind::PlaceAssign { place, value } => in_turn(
            flow_path(place.path@),
            in_turn(flow(*value), Flow::Use(place.root@)),
        ),
        TypedExprKind::Conditional { cond, true_branch, false_branch } => in_turn(
            flow(*cond),
            either(flow(*true_branch), flow_opt(false_branch)),
        ),
        TypedExprKind::Return(value) => in_turn(flow_opt(value), Flow::Leave),
        TypedExprKind::Call { callable: _, args } => in_turn(flow_args(args@), used_roots(args@)),
        TypedExprKind::ForLoop { var, iterable, cond, body, iter_via: _ } => in_turn(
            flow(*iterable),
            Flow::Again(
                Box::new(
                    turn(
                        var@,
                        match cond {
                            Some(c) => Some(flow(*c)),
                            None => None,
                        },
                        flow(*body),
                    ),
                ),
            ),
        ),
        TypedExprKind::Comprehension { var, iterable, cond, body, iter_via: _ } => in_turn(
            flow(*iterable),
            Flow::Again(
                Box::new(
                    turn(
                        var@,
                        match cond {
                            Some(c) => Some(flow(*c)),
                            None => None,
                        },
                        flow(*body),
                    ),
                ),
            ),
        ),
    }
}

pub open spec fn flow_opt(e: Option<TypedExprRef>) -> Flow
    decreases e,
{
    match e {
        Some(x) => flow(*x),
        None => Flow::Skip,
    }
}

pub open spec fn flow_list(es: Seq<Spanned<TypedExpr>>) -> Flow
    decreases es,
{
    if es.len() == 0 {
        Flow::Skip
    } else {
        in_turn(flow_list(es.drop_last()), flow(es.last()))
    }
}

/// What evaluating statements does.
pub open spec fn flow_block(es: Seq<Spanned<TypedExpr>>) -> Flow
    decreases es,
{
    if es.len() == 0 {
        Flow::Skip
    } else {
        in_turn(flow_block(es.drop_last()), Flow::Stmt(es.last().item.id, Box::new(flow(es.last()))))
    }
}

pub open spec fn flow_pairs(es: Seq<(Spanned<TypedExpr>, Spanned<TypedExpr>)>) -> Flow
    decreases es,
{
    if es.len() == 0 {
        Flow::Skip
    } else {
        in_turn(flow_pairs(es.drop_last()), in_turn(flow(es.last().0), flow(es.last().1)))
    }
}

pub open spec fn flow_fields(fs: Seq<(String, TypedExprRef)>) -> Flow
    decreases fs,
{
    if fs.len() == 0 {
        Flow::Skip
    } else {
        in_turn(flow_fields(fs.drop_last()), flow(*fs.last().1))
    }
}

pub open spec fn flow_seg(s: PlaceSeg) -> Flow
    decreases s,
{
    match s {
        PlaceSeg::Index { index, elem_ty: _ } => flow(*index),
        PlaceSeg::Field(_) => Flow::Skip,
    }
}

pub open spec fn flow_path(p: Seq<PlaceSeg>) -> Flow
    decreases p,
{
    if p.len() == 0 {
        Flow::Skip
    } else {
        in_turn(flow_path(p.drop_last()), flow_seg(p.last()))
    }
}

pub open spec fn flow_arg(a: Arg) -> Flow
    decreases a,
{
    match a {
        Arg::Value(e) => flow(e),
        Arg::Mut(p) => flow_path(p.path@),
    }
}

pub open spec fn flow_args(args: Seq<Arg>) -> Flow
    decreases args,
{
    if args.len() == 0 {
        Flow::Skip
    } else {
        in_turn(flow_args(args.drop_last()), flow_arg(args.last()))
    }
}

// ── Runs ─────────────────────────────────────────────────────────────────

/// One thing that happens to a name.
pub ghost enum Event {
    Read(u32, Seq<char>),
    Use(Seq<char>),
    Write(Seq<char>),
}

/// What happened, in order, and whether the body was left.
pub ghost struct Run {
    pub events: Seq<Event>,
    pub left: bool,
}

/// The run on which this happens and nothing else.
pub open spec fn just(events: Seq<Event>) -> Set<Run> {
    Set::empty().insert(Run { events, left: false })
}

/// A run of the one and then a run of the other, unless the first leaves.
pub open spec fn after(a: Set<Run>, b: Set<Run>) -> Set<Run> {
    Set::new(
        |r: Run|
            (a.contains(r) && r.left) || exists|x: Run, y: Run|
                #![trigger a.contains(x), b.contains(y)]
                a.contains(x) && !x.left && b.contains(y) && r == (Run { events: x.events + y.events, left: y.left }),
    )
}

/// `n` runs, one after the other.
pub open spec fn repeated(a: Set<Run>, n: nat) -> Set<Run>
    decreases n,
{
    if n == 0 {
        just(Seq::empty())
    } else {
        after(repeated(a, (n - 1) as nat), a)
    }
}

/// Everything that can happen.
pub open spec fn runs(f: Flow) -> Set<Run>
    decreases f,
{
    match f {
        Flow::Skip => just(Seq::empty()),
        Flow::Read(id, n) => just(seq![Event::Read(id, n)]),
        Flow::Use(n) => just(seq![Event::Use(n)]),
        Flow::Write(n) => just(seq![Event::Write(n)]),
        Flow::Leave => Set::empty().insert(Run { events: Seq::empty(), left: true }),
        Flow::InTurn(a, b) => after(runs(*a), runs(*b)),
        Flow::Either(a, b) => runs(*a).union(runs(*b)),
        Flow::Again(a) => {
            let once = runs(*a);
            Set::new(|r: Run| exists|n: nat| (#[trigger] repeated(once, n)).contains(r))
        },
        Flow::Stmt(_, a) => runs(*a),
    }
}

/// Whether a name is read.
pub open spec fn reads(e: Event, n: Seq<char>) -> bool {
    match e {
        Event::Read(_, x) => x == n,
        Event::Use(x) => x == n,
        Event::Write(_) => false,
    }
}

/// Whether a name is not written between two points.
pub open spec fn kept(t: Seq<Event>, n: Seq<char>, from: int, to: int) -> bool {
    forall|k: int| from <= k < to ==> #[trigger] t[k] != Event::Write(n)
}

// ── The analysis on runs ─────────────────────────────────────────────────

/// What is live before, where `out` is live after.
pub open spec fn live_in(f: Flow, out: Names, exit: Names) -> Names
    decreases f,
{
    match f {
        Flow::Skip => out,
        Flow::Read(_, n) => out.insert(n),
        Flow::Use(n) => out.insert(n),
        Flow::Write(n) => out.remove(n),
        Flow::Leave => exit,
        Flow::InTurn(a, b) => live_in(*a, live_in(*b, out, exit), exit),
        Flow::Either(a, b) => live_in(*a, out, exit).union(live_in(*b, out, exit)),
        Flow::Again(a) => out.union(live_in(*a, Set::empty(), exit)),
        Flow::Stmt(_, a) => live_in(*a, out, exit),
    }
}

/// The nodes whose read is the last one.
pub open spec fn last_reads(f: Flow, out: Names, exit: Names) -> Set<u32>
    decreases f,
{
    match f {
        Flow::Read(id, n) => if out.contains(n) {
            Set::empty()
        } else {
            Set::empty().insert(id)
        },
        Flow::InTurn(a, b) => last_reads(*a, live_in(*b, out, exit), exit).union(last_reads(*b, out, exit)),
        Flow::Either(a, b) => last_reads(*a, out, exit).union(last_reads(*b, out, exit)),
        Flow::Again(a) => last_reads(*a, out.union(live_in(*a, Set::empty(), exit)), exit),
        Flow::Stmt(_, a) => last_reads(*a, out, exit),
        _ => Set::empty(),
    }
}

/// How many reads this node does.
pub open spec fn times(f: Flow, id: u32) -> nat
    decreases f,
{
    match f {
        Flow::Read(x, _) => if x == id {
            1
        } else {
            0
        },
        Flow::InTurn(a, b) => times(*a, id) + times(*b, id),
        Flow::Either(a, b) => times(*a, id) + times(*b, id),
        Flow::Again(a) => times(*a, id),
        Flow::Stmt(_, a) => times(*a, id),
        _ => 0,
    }
}

/// How many statements have this number.
pub open spec fn stmts(f: Flow, id: u32) -> nat
    decreases f,
{
    match f {
        Flow::InTurn(a, b) => stmts(*a, id) + stmts(*b, id),
        Flow::Either(a, b) => stmts(*a, id) + stmts(*b, id),
        Flow::Again(a) => stmts(*a, id),
        Flow::Stmt(x, a) => stmts(*a, id) + if x == id {
            1nat
        } else {
            0nat
        },
        _ => 0,
    }
}

/// The names that die, by the number of the statement after which they do.
pub type Dying = Map<u32, Seq<Seq<char>>>;

/// `d` with the names that die after each statement.
pub open spec fn dead_in(f: Flow, out: Names, exit: Names, d: Dying) -> Dying
    decreases f,
{
    match f {
        Flow::InTurn(a, b) => dead_in(*a, live_in(*b, out, exit), exit, dead_in(*b, out, exit, d)),
        Flow::Either(a, b) => dead_in(*b, out, exit, dead_in(*a, out, exit, d)),
        Flow::Again(a) => dead_in(*a, out.union(live_in(*a, Set::empty(), exit)), exit, d),
        Flow::Stmt(id, a) => with_dead(
            Marks { last: Set::empty(), dead: dead_in(*a, out, exit, d) },
            id,
            live_in(*a, out, exit),
            out,
        ).dead,
        _ => d,
    }
}

proof fn last_reads_are_there(f: Flow, out: Names, exit: Names, id: u32)
    requires
        last_reads(f, out, exit).contains(id),
    ensures
        times(f, id) > 0,
    decreases f,
{
    match f {
        Flow::InTurn(a, b) => {
            if last_reads(*b, out, exit).contains(id) {
                last_reads_are_there(*b, out, exit, id);
            } else {
                last_reads_are_there(*a, live_in(*b, out, exit), exit, id);
            }
        },
        Flow::Either(a, b) => {
            if last_reads(*b, out, exit).contains(id) {
                last_reads_are_there(*b, out, exit, id);
            } else {
                last_reads_are_there(*a, out, exit, id);
            }
        },
        Flow::Again(a) => {
            last_reads_are_there(*a, out.union(live_in(*a, Set::empty(), exit)), exit, id);
        },
        Flow::Stmt(_, a) => last_reads_are_there(*a, out, exit, id),
        _ => {},
    }
}

proof fn live_in_grows(f: Flow, x: Names, y: Names, exit: Names)
    requires
        x.subset_of(y),
    ensures
        live_in(f, x, exit).subset_of(live_in(f, y, exit)),
    decreases f,
{
    match f {
        Flow::InTurn(a, b) => {
            live_in_grows(*b, x, y, exit);
            live_in_grows(*a, live_in(*b, x, exit), live_in(*b, y, exit), exit);
        },
        Flow::Either(a, b) => {
            live_in_grows(*a, x, y, exit);
            live_in_grows(*b, x, y, exit);
        },
        Flow::Stmt(_, a) => live_in_grows(*a, x, y, exit),
        _ => {},
    }
}

proof fn live_in_passes_on(f: Flow, x: Names, y: Names, exit: Names)
    ensures
        live_in(f, x.union(y), exit).subset_of(live_in(f, x, exit).union(y)),
    decreases f,
{
    match f {
        Flow::InTurn(a, b) => {
            let l = live_in(*b, x, exit);
            live_in_passes_on(*b, x, y, exit);
            live_in_passes_on(*a, l, y, exit);
            live_in_grows(*a, live_in(*b, x.union(y), exit), l.union(y), exit);
        },
        Flow::Either(a, b) => {
            live_in_passes_on(*a, x, y, exit);
            live_in_passes_on(*b, x, y, exit);
        },
        Flow::Stmt(_, a) => live_in_passes_on(*a, x, y, exit),
        _ => {},
    }
}

/// A run on which the analysis is right: what is read before it is written,
/// and what is kept for later, was live; and no name is read again after the
/// read of a node in `m`, nor needed at the end, unless it was written since.
pub open spec fn right(r: Run, live: Names, out: Names, exit: Names, m: Set<u32>) -> bool {
    let t = r.events;
    &&& forall|n: Seq<char>, i: int|
        0 <= i < t.len() && #[trigger] reads(t[i], n) && kept(t, n, 0, i) ==> live.contains(n)
    &&& forall|n: Seq<char>|
        #[trigger] needed(r, out, exit).contains(n) && kept(t, n, 0, t.len() as int) ==> live.contains(n)
    &&& forall|i: int, id: u32, n: Seq<char>|
        0 <= i < t.len() && t[i] == Event::Read(id, n) && #[trigger] m.contains(id) && #[trigger] reads(t[i], n)
            ==> unread_after(t, n, i, needed(r, out, exit))
}

/// What is needed when a run is over.
pub open spec fn needed(r: Run, out: Names, exit: Names) -> Names {
    if r.left {
        exit
    } else {
        out
    }
}

/// Whether a name is neither read after `i` nor needed at the end, unless it
/// was written since.
pub open spec fn unread_after(t: Seq<Event>, n: Seq<char>, i: int, end: Names) -> bool {
    &&& forall|j: int| i < j < t.len() && #[trigger] reads(t[j], n) ==> !kept(t, n, i + 1, j)
    &&& end.contains(n) ==> !kept(t, n, i + 1, t.len() as int)
}

proof fn kept_in_front(a: Seq<Event>, b: Seq<Event>, n: Seq<char>, from: int, to: int)
    requires
        0 <= from,
        to <= a.len(),
    ensures
        kept(a + b, n, from, to) == kept(a, n, from, to),
{
    let t = a + b;
    if kept(t, n, from, to) {
        assert forall|k: int| from <= k < to implies #[trigger] a[k] != Event::Write(n) by {
            assert(t[k] == a[k]);
        }
    }
    if kept(a, n, from, to) {
        assert forall|k: int| from <= k < to implies #[trigger] t[k] != Event::Write(n) by {
            assert(t[k] == a[k]);
        }
    }
}

proof fn kept_behind(a: Seq<Event>, b: Seq<Event>, n: Seq<char>, from: int, to: int)
    requires
        0 <= from,
        to <= b.len(),
    ensures
        kept(a + b, n, a.len() + from, a.len() + to) == kept(b, n, from, to),
{
    let t = a + b;
    if kept(t, n, a.len() + from, a.len() + to) {
        assert forall|k: int| from <= k < to implies #[trigger] b[k] != Event::Write(n) by {
            assert(t[a.len() + k] == b[k]);
        }
    }
    if kept(b, n, from, to) {
        assert forall|k: int| a.len() + from <= k < a.len() + to implies #[trigger] t[k] != Event::Write(n) by {
            assert(t[k] == b[k - a.len()]);
        }
    }
}

proof fn kept_across(a: Seq<Event>, b: Seq<Event>, n: Seq<char>, from: int, to: int)
    requires
        0 <= from <= a.len(),
        0 <= to <= b.len(),
    ensures
        kept(a + b, n, from, a.len() + to) == (kept(a, n, from, a.len() as int) && kept(b, n, 0, to)),
{
    let t = a + b;
    kept_in_front(a, b, n, from, a.len() as int);
    kept_behind(a, b, n, 0, to);
    if kept(t, n, from, a.len() + to) {
        assert(kept(t, n, from, a.len() as int));
        assert(kept(t, n, a.len() as int, a.len() + to));
    }
    if kept(t, n, from, a.len() as int) && kept(t, n, a.len() as int, a.len() + to) {
        assert forall|k: int| from <= k < a.len() + to implies #[trigger] t[k] != Event::Write(n) by {}
    }
}

proof fn unread_in_front(a: Seq<Event>, b: Seq<Event>, n: Seq<char>, i: int, mid: Names, end: Names)
    requires
        0 <= i < a.len(),
        unread_after(a, n, i, mid),
        forall|j: int| 0 <= j < b.len() && #[trigger] reads(b[j], n) && kept(b, n, 0, j) ==> mid.contains(n),
        end.contains(n) && kept(b, n, 0, b.len() as int) ==> mid.contains(n),
    ensures
        unread_after(a + b, n, i, end),
{
    let t = a + b;
    assert forall|j: int| i < j < t.len() && #[trigger] reads(t[j], n) implies !kept(t, n, i + 1, j) by {
        if j < a.len() {
            assert(t[j] == a[j]);
            assert(reads(a[j], n));
            kept_in_front(a, b, n, i + 1, j);
        } else {
            let k = j - a.len();
            assert(t[j] == b[k]);
            assert(reads(b[k], n));
            kept_across(a, b, n, i + 1, k);
        }
    }
    kept_across(a, b, n, i + 1, b.len() as int);
}

proof fn unread_behind(a: Seq<Event>, b: Seq<Event>, n: Seq<char>, i: int, end: Names)
    requires
        0 <= i < b.len(),
        unread_after(b, n, i, end),
    ensures
        unread_after(a + b, n, a.len() + i, end),
{
    let t = a + b;
    assert forall|j: int| a.len() + i < j < t.len() && #[trigger] reads(t[j], n) implies !kept(
        t,
        n,
        a.len() + i + 1,
        j,
    ) by {
        let k = j - a.len();
        assert(t[j] == b[k]);
        assert(reads(b[k], n));
        kept_behind(a, b, n, i + 1, k);
    }
    kept_behind(a, b, n, i + 1, b.len() as int);
}

proof fn right_one_after_another(a: Run, b: Run, live: Names, mid: Names, out: Names, exit: Names, m: Set<u32>)
    requires
        !a.left,
        right(a, live, mid, exit, m),
        right(b, mid, out, exit, m),
    ensures
        right(Run { events: a.events + b.events, left: b.left }, live, out, exit, m),
{
    let (x, y) = (a.events, b.events);
    let t = x + y;
    let r = Run { events: t, left: b.left };
    let end = needed(r, out, exit);
    assert(end == needed(b, out, exit));
    assert(mid == needed(a, mid, exit));
    assert forall|n: Seq<char>, i: int|
        0 <= i < t.len() && #[trigger] reads(t[i], n) && kept(t, n, 0, i) implies live.contains(n) by {
        if i < x.len() {
            assert(t[i] == x[i]);
            assert(reads(x[i], n));
            kept_in_front(x, y, n, 0, i);
        } else {
            let k = i - x.len();
            assert(t[i] == y[k]);
            assert(reads(y[k], n));
            kept_across(x, y, n, 0, k);
            assert(i == x.len() + k);
            assert(mid.contains(n));
            assert(needed(a, mid, exit).contains(n));
        }
    }
    assert forall|n: Seq<char>|
        #[trigger] needed(r, out, exit).contains(n) && kept(t, n, 0, t.len() as int) implies live.contains(n) by {
        kept_across(x, y, n, 0, y.len() as int);
        assert(t.len() == x.len() + y.len());
        assert(needed(b, out, exit).contains(n));
        assert(mid.contains(n));
        assert(needed(a, mid, exit).contains(n));
    }
    assert forall|i: int, id: u32, n: Seq<char>|
        0 <= i < t.len() && t[i] == Event::Read(id, n) && #[trigger] m.contains(id) && #[trigger] reads(
            t[i],
            n,
        ) implies unread_after(t, n, i, end) by {
        if i < x.len() {
            assert(t[i] == x[i]);
            assert(reads(x[i], n));
            assert forall|j: int| 0 <= j < y.len() && #[trigger] reads(y[j], n) && kept(y, n, 0, j) implies mid.contains(
                n,
            ) by {}
            assert(needed(b, out, exit).contains(n) && kept(y, n, 0, y.len() as int) ==> mid.contains(n));
            unread_in_front(x, y, n, i, mid, end);
        } else {
            let k = i - x.len();
            assert(t[i] == y[k]);
            assert(reads(y[k], n));
            unread_behind(x, y, n, k, end);
        }
    }
}

/// The analysis stays right where more counts as live before and less is
/// needed after.
proof fn right_within(r: Run, live: Names, out: Names, exit: Names, m: Set<u32>, more: Names, less: Names)
    requires
        right(r, live, out, exit, m),
        live.subset_of(more),
        less.subset_of(out),
    ensures
        right(r, more, less, exit, m),
{
    let t = r.events;
    let end = needed(r, less, exit);
    let was = needed(r, out, exit);
    assert forall|n: Seq<char>|
        #[trigger] needed(r, less, exit).contains(n) && kept(t, n, 0, t.len() as int) implies more.contains(n) by {
        assert(needed(r, out, exit).contains(n));
    }
    assert forall|i: int, id: u32, n: Seq<char>|
        0 <= i < t.len() && t[i] == Event::Read(id, n) && #[trigger] m.contains(id) && #[trigger] reads(
            t[i],
            n,
        ) implies unread_after(t, n, i, end) by {
        assert(unread_after(t, n, i, was));
    }
}

proof fn right_over_and_over(a: Set<Run>, n: nat, r: Run, head: Names, exit: Names, m: Set<u32>)
    requires
        repeated(a, n).contains(r),
        forall|x: Run| #[trigger] a.contains(x) ==> right(x, head, head, exit, m),
    ensures
        right(r, head, head, exit, m),
    decreases n,
{
    if n > 0 {
        let before = repeated(a, (n - 1) as nat);
        if before.contains(r) && r.left {
            right_over_and_over(a, (n - 1) as nat, r, head, exit, m);
        } else {
            let (x, y) = choose|x: Run, y: Run|
                #![trigger before.contains(x), a.contains(y)]
                before.contains(x) && !x.left && a.contains(y) && r == (Run {
                    events: x.events + y.events,
                    left: y.left,
                });
            right_over_and_over(a, (n - 1) as nat, x, head, exit, m);
            right_one_after_another(x, y, head, head, head, exit, m);
        }
    }
}

proof fn right_on_a_read(id: u32, n: Seq<char>, out: Names, exit: Names, m: Set<u32>)
    requires
        m.contains(id) ==> !out.contains(n),
    ensures
        right(Run { events: seq![Event::Read(id, n)], left: false }, out.insert(n), out, exit, m),
{
    let t = seq![Event::Read(id, n)];
    let r = Run { events: t, left: false };
    assert(needed(r, out, exit) == out);
    assert forall|k: Seq<char>, i: int|
        0 <= i < t.len() && #[trigger] reads(t[i], k) && kept(t, k, 0, i) implies out.insert(n).contains(k) by {
        assert(t[i] == Event::Read(id, n));
    }
    assert forall|i: int, x: u32, k: Seq<char>|
        0 <= i < t.len() && t[i] == Event::Read(x, k) && #[trigger] m.contains(x) && #[trigger] reads(
            t[i],
            k,
        ) implies unread_after(t, k, i, out) by {
        assert(t[i] == Event::Read(id, n));
        assert(i == 0);
    }
}

/// The analysis is right on every run, where `m` holds, of the nodes here, only
/// those that stand in one place and whose read is the last.
proof fn right_on_every_run(f: Flow, out: Names, exit: Names, m: Set<u32>, r: Run)
    requires
        runs(f).contains(r),
        forall|id: u32|
            #[trigger] m.contains(id) && times(f, id) > 0 ==> times(f, id) == 1 && last_reads(f, out, exit).contains(id),
    ensures
        right(r, live_in(f, out, exit), out, exit, m),
    decreases f,
{
    match f {
        Flow::Read(id, n) => {
            assert(times(f, id) == 1);
            right_on_a_read(id, n, out, exit, m);
            assert(r == (Run { events: seq![Event::Read(id, n)], left: false }));
        },
        Flow::Write(n) => {
            let t = seq![Event::Write(n)];
            assert(r == (Run { events: t, left: false }));
            assert(t[0] == Event::Write(n));
            assert(!kept(t, n, 0, 1));
            assert(needed(r, out, exit) == out);
            assert forall|k: Seq<char>|
                #[trigger] needed(r, out, exit).contains(k) && kept(t, k, 0, t.len() as int) implies out.remove(n).contains(
                k,
            ) by {}
        },
        Flow::InTurn(a, b) => {
            let mid = live_in(*b, out, exit);
            assert forall|id: u32| #[trigger] m.contains(id) && times(*a, id) > 0 implies times(*a, id) == 1 && last_reads(
                *a,
                mid,
                exit,
            ).contains(id) by {
                assert(times(f, id) == 1);
                if last_reads(*b, out, exit).contains(id) {
                    last_reads_are_there(*b, out, exit, id);
                }
            }
            assert forall|id: u32| #[trigger] m.contains(id) && times(*b, id) > 0 implies times(*b, id) == 1 && last_reads(
                *b,
                out,
                exit,
            ).contains(id) by {
                assert(times(f, id) == 1);
                if last_reads(*a, mid, exit).contains(id) {
                    last_reads_are_there(*a, mid, exit, id);
                }
            }
            let (p, q) = (runs(*a), runs(*b));
            if p.contains(r) && r.left {
                right_on_every_run(*a, mid, exit, m, r);
                assert(needed(r, mid, exit) == needed(r, out, exit));
            } else {
                let (x, y) = choose|x: Run, y: Run|
                    #![trigger p.contains(x), q.contains(y)]
                    p.contains(x) && !x.left && q.contains(y) && r == (Run {
                        events: x.events + y.events,
                        left: y.left,
                    });
                right_on_every_run(*a, mid, exit, m, x);
                right_on_every_run(*b, out, exit, m, y);
                right_one_after_another(x, y, live_in(*a, mid, exit), mid, out, exit, m);
            }
        },
        Flow::Either(a, b) => {
            let all = live_in(f, out, exit);
            assert forall|id: u32| #[trigger] m.contains(id) && times(*a, id) > 0 implies times(*a, id) == 1 && last_reads(
                *a,
                out,
                exit,
            ).contains(id) by {
                assert(times(f, id) == 1);
                if last_reads(*b, out, exit).contains(id) {
                    last_reads_are_there(*b, out, exit, id);
                }
            }
            assert forall|id: u32| #[trigger] m.contains(id) && times(*b, id) > 0 implies times(*b, id) == 1 && last_reads(
                *b,
                out,
                exit,
            ).contains(id) by {
                assert(times(f, id) == 1);
                if last_reads(*a, out, exit).contains(id) {
                    last_reads_are_there(*a, out, exit, id);
                }
            }
            if runs(*a).contains(r) {
                right_on_every_run(*a, out, exit, m, r);
                right_within(r, live_in(*a, out, exit), out, exit, m, all, out);
            } else {
                right_on_every_run(*b, out, exit, m, r);
                right_within(r, live_in(*b, out, exit), out, exit, m, all, out);
            }
        },
        Flow::Again(a) => {
            let none: Names = Set::empty();
            let head = out.union(live_in(*a, none, exit));
            live_in_passes_on(*a, none, head, exit);
            assert(none.union(head) =~= head);
            assert(live_in(*a, head, exit).subset_of(head));
            assert forall|id: u32| #[trigger] m.contains(id) && times(*a, id) > 0 implies times(*a, id) == 1 && last_reads(
                *a,
                head,
                exit,
            ).contains(id) by {
                assert(times(f, id) > 0);
            }
            let once = runs(*a);
            assert forall|x: Run| #[trigger] once.contains(x) implies right(x, head, head, exit, m) by {
                right_on_every_run(*a, head, exit, m, x);
                right_within(x, live_in(*a, head, exit), head, exit, m, head, head);
            }
            let n = choose|n: nat| (#[trigger] repeated(once, n)).contains(r);
            right_over_and_over(once, n, r, head, exit, m);
            right_within(r, head, head, exit, m, head, out);
        },
        Flow::Stmt(_, a) => {
            assert forall|id: u32| #[trigger] m.contains(id) && times(*a, id) > 0 implies times(*a, id) == 1 && last_reads(
                *a,
                out,
                exit,
            ).contains(id) by {
                assert(times(f, id) > 0);
            }
            right_on_every_run(*a, out, exit, m, r);
        },
        Flow::Skip => {
            assert(r.events =~= Seq::<Event>::empty());
        },
        Flow::Leave => {
            assert(r.events =~= Seq::<Event>::empty());
        },
        Flow::Use(n) => {
            let t = seq![Event::Use(n)];
            assert(r == (Run { events: t, left: false }));
            assert forall|k: Seq<char>, i: int|
                0 <= i < t.len() && #[trigger] reads(t[i], k) && kept(t, k, 0, i) implies out.insert(n).contains(k) by {
                assert(t[i] == Event::Use(n));
            }
        },
    }
}

// ── The analysis of a tree is the analysis of its runs ───────────────────

proof fn nothing_added(m: Set<u32>)
    ensures
        m.union(Set::empty()) == m,
{
    assert(m.union(Set::empty()) =~= m);
}

proof fn used_roots_are_mut_roots(args: Seq<Arg>, out: Names, exit: Names)
    ensures
        live_in(used_roots(args), out, exit) == out.union(mut_roots(args)),
        last_reads(used_roots(args), out, exit) == Set::<u32>::empty(),
        forall|id: u32| #[trigger] times(used_roots(args), id) == 0,
        forall|id: u32| #[trigger] stmts(used_roots(args), id) == 0,
        forall|d: Dying| #[trigger] dead_in(used_roots(args), out, exit, d) == d,
    decreases args.len(),
{
    if args.len() == 0 {
        assert(out.union(mut_roots(args)) =~= out);
    } else {
        let rest = args.drop_last();
        match args.last() {
            Arg::Mut(p) => {
                reveal_with_fuel(live_in, 2);
                reveal_with_fuel(last_reads, 2);
                reveal_with_fuel(times, 2);
                reveal_with_fuel(stmts, 2);
                reveal_with_fuel(dead_in, 2);
                let more = out.insert(p.root@);
                used_roots_are_mut_roots(rest, more, exit);
                assert(more.union(mut_roots(rest)) =~= out.union(mut_roots(args)));
                assert(last_reads(used_roots(args), out, exit) =~= Set::<u32>::empty());
                assert forall|id: u32| #[trigger] times(used_roots(args), id) == 0 by {
                    assert(times(used_roots(rest), id) == 0);
                }
                assert forall|id: u32| #[trigger] stmts(used_roots(args), id) == 0 by {
                    assert(stmts(used_roots(rest), id) == 0);
                }
                assert forall|d: Dying| #[trigger] dead_in(used_roots(args), out, exit, d) == d by {
                    assert(dead_in(used_roots(rest), more, exit, d) == d);
                }
            },
            Arg::Value(_) => {
                used_roots_are_mut_roots(rest, out, exit);
            },
        }
    }
}

proof fn marked_in_turn(l: Flow, r: Flow, out: Names, exit: Names, m: Set<u32>, mr: Set<u32>, ml: Set<u32>)
    requires
        mr == m.union(last_reads(r, out, exit)),
        ml == mr.union(last_reads(l, live_in(r, out, exit), exit)),
    ensures
        ml == m.union(last_reads(in_turn(l, r), out, exit)),
        forall|d: Dying|
            #[trigger] dead_in(in_turn(l, r), out, exit, d) == dead_in(
                l,
                live_in(r, out, exit),
                exit,
                dead_in(r, out, exit, d),
            ),
{
    assert(ml =~= m.union(last_reads(in_turn(l, r), out, exit)));
}

/// The analysis of an expression is the analysis of its runs.
proof fn agrees(e: Spanned<TypedExpr>, out: Names, exit: Names, m: Marks)
    ensures
        live(e, out, exit) == live_in(flow(e), out, exit),
        marks(e, out, exit, m).last == m.last.union(last_reads(flow(e), out, exit)),
        marks(e, out, exit, m).dead == dead_in(flow(e), out, exit, m.dead),
    decreases e, 1int,
{
    nothing_added(m.last);
    match e.item.kind {
        TypedExprKind::Var(_) => {
            assert(marks(e, out, exit, m).last =~= m.last.union(last_reads(flow(e), out, exit)));
        },
        TypedExprKind::Unary { op: _, expr } => agrees(*expr, out, exit, m),
        TypedExprKind::FieldAccess { target, field: _, enum_name: _ } => agrees(*target, out, exit, m),
        TypedExprKind::IsVariant { target, enum_name: _, variant: _, tag: _ } => agrees(*target, out, exit, m),
        TypedExprKind::VariantField { target, enum_name: _, variant: _, field: _ } => agrees(*target, out, exit, m),
        TypedExprKind::Widen { value, tag: _ } => agrees(*value, out, exit, m),
        TypedExprKind::Narrow { value, tag: _ } => agrees(*value, out, exit, m),
        TypedExprKind::TypeTag { target, tag: _ } => agrees(*target, out, exit, m),
        TypedExprKind::Truthy(part) => agrees(*part, out, exit, m),
        TypedExprKind::Coerce(part) => agrees(*part, out, exit, m),
        TypedExprKind::Binary { op: _, left, right } => {
            agrees(*right, out, exit, m);
            let after_it = marks(*right, out, exit, m);
            agrees(*left, live(*right, out, exit), exit, after_it);
            marked_in_turn(
                flow(*left),
                flow(*right),
                out,
                exit,
                m.last,
                after_it.last,
                marks(e, out, exit, m).last,
            );
        },
        TypedExprKind::Index { target, index } => {
            agrees(*index, out, exit, m);
            let after_it = marks(*index, out, exit, m);
            agrees(*target, live(*index, out, exit), exit, after_it);
            marked_in_turn(
                flow(*target),
                flow(*index),
                out,
                exit,
                m.last,
                after_it.last,
                marks(e, out, exit, m).last,
            );
        },
        TypedExprKind::Range { start, end } => {
            agrees(*end, out, exit, m);
            let after_it = marks(*end, out, exit, m);
            agrees(*start, live(*end, out, exit), exit, after_it);
            marked_in_turn(
                flow(*start),
                flow(*end),
                out,
                exit,
                m.last,
                after_it.last,
                marks(e, out, exit, m).last,
            );
        },
        TypedExprKind::Slice { target, start, end } => {
            opt_agrees(end, out, exit, m);
            let (l2, m2) = (live_opt(end, out, exit), marks_opt(end, out, exit, m));
            opt_agrees(start, l2, exit, m2);
            let (l1, m1) = (live_opt(start, l2, exit), marks_opt(start, l2, exit, m2));
            marked_in_turn(flow_opt(start), flow_opt(end), out, exit, m.last, m2.last, m1.last);
            agrees(*target, l1, exit, m1);
            marked_in_turn(
                flow(*target),
                in_turn(flow_opt(start), flow_opt(end)),
                out,
                exit,
                m.last,
                m1.last,
                marks(e, out, exit, m).last,
            );
        },
        TypedExprKind::List(part) => list_agrees(part@, out, exit, m),
        TypedExprKind::Dict(part) => pairs_agree(part@, out, exit, m),
        TypedExprKind::Block(part) => block_agrees(part@, out, exit, m),
        TypedExprKind::StructInit { name: _, fields } => fields_agree(fields@, out, exit, m),
        TypedExprKind::VariantInit { enum_name: _, variant: _, tag: _, fields } => fields_agree(fields@, out, exit, m),
        TypedExprKind::Assign { name, value } => {
            if !(value.item.kind is Function) {
                agrees(*value, out.remove(name@), exit, m);
                marked_in_turn(
                    flow(*value),
                    Flow::Write(name@),
                    out,
                    exit,
                    m.last,
                    m.last,
                    marks(e, out, exit, m).last,
                );
            }
        },
        TypedExprKind::PlaceAssign { place, value } => place_agrees(e, out, exit, m),
        TypedExprKind::Conditional { cond, true_branch, false_branch } => {
            agrees(*true_branch, out, exit, m);
            let m1 = marks(*true_branch, out, exit, m);
            opt_agrees(false_branch, out, exit, m1);
            let m2 = marks_opt(false_branch, out, exit, m1);
            let ways = either(flow(*true_branch), flow_opt(false_branch));
            assert(m2.last =~= m.last.union(last_reads(ways, out, exit)));
            agrees(*cond, live_in(ways, out, exit), exit, m2);
            marked_in_turn(flow(*cond), ways, out, exit, m.last, m2.last, marks(e, out, exit, m).last);
        },
        TypedExprKind::Return(value) => {
            opt_agrees(value, exit, exit, m);
            marked_in_turn(
                flow_opt(value),
                Flow::Leave,
                out,
                exit,
                m.last,
                m.last,
                marks(e, out, exit, m).last,
            );
        },
        TypedExprKind::Call { callable: _, args } => {
            used_roots_are_mut_roots(args@, out, exit);
            args_agree(args@, out.union(mut_roots(args@)), exit, m);
            marked_in_turn(
                flow_args(args@),
                used_roots(args@),
                out,
                exit,
                m.last,
                m.last,
                marks(e, out, exit, m).last,
            );
        },
        TypedExprKind::ForLoop { var, iterable, cond, body, iter_via: _ } => {
            loop_agrees(e, var@, *iterable, cond, *body, out, exit, m);
        },
        TypedExprKind::Comprehension { var, iterable, cond, body, iter_via: _ } => {
            loop_agrees(e, var@, *iterable, cond, *body, out, exit, m);
        },
        _ => {},
    }
}

proof fn place_agrees(e: Spanned<TypedExpr>, out: Names, exit: Names, m: Marks)
    requires
        e.item.kind is PlaceAssign,
    ensures
        live(e, out, exit) == live_in(flow(e), out, exit),
        marks(e, out, exit, m).last == m.last.union(last_reads(flow(e), out, exit)),
        marks(e, out, exit, m).dead == dead_in(flow(e), out, exit, m.dead),
    decreases e, 0int,
{
    nothing_added(m.last);
    if let TypedExprKind::PlaceAssign { place, value } = e.item.kind {
        let store = Flow::Use(place.root@);
        let l2 = out.insert(place.root@);
        agrees(*value, l2, exit, m);
        let (l1, m1) = (live(*value, l2, exit), marks(*value, l2, exit, m));
        marked_in_turn(flow(*value), store, out, exit, m.last, m.last, m1.last);
        path_agrees(place.path@, l1, exit, m1);
        marked_in_turn(
            flow_path(place.path@),
            in_turn(flow(*value), store),
            out,
            exit,
            m.last,
            m1.last,
            marks(e, out, exit, m).last,
        );
    }
}

/// A loop is evaluated turn by turn, and what is live at its head is live
/// before each.
proof fn loop_agrees(
    e: Spanned<TypedExpr>,
    var: Seq<char>,
    iterable: Spanned<TypedExpr>,
    cond: Option<TypedExprRef>,
    body: Spanned<TypedExpr>,
    out: Names,
    exit: Names,
    m: Marks,
)
    requires
        ({
            ||| e.item.kind matches TypedExprKind::ForLoop { var: v, iterable: i, cond: c, body: b, iter_via: _ } && v@ == var
                && *i == iterable && c == cond && *b == body
            ||| e.item.kind matches TypedExprKind::Comprehension { var: v, iterable: i, cond: c, body: b, iter_via: _ }
                && v@ == var && *i == iterable && c == cond && *b == body
        }),
    ensures
        live(e, out, exit) == live_in(flow(e), out, exit),
        marks(e, out, exit, m).last == m.last.union(last_reads(flow(e), out, exit)),
        marks(e, out, exit, m).dead == dead_in(flow(e), out, exit, m.dead),
    decreases e, 0int,
{
    let none: Names = Set::empty();
    let guard: Option<Flow> = match cond {
        Some(c) => Some(flow(*c)),
        None => None,
    };
    let one = turn(var, guard, flow(body));
    reveal_with_fuel(live_in, 5);
    reveal_with_fuel(last_reads, 5);
    reveal_with_fuel(dead_in, 5);
    agrees(body, none, exit, m);
    if let Some(c) = cond {
        agrees(*c, live(body, none, exit).union(none), exit, m);
    }
    assert(live_in(one, none, exit) == around(var, cond, body, none, exit));
    let head = loop_head(var, cond, body, out, exit);
    agrees(body, head, exit, m);
    let turned = marks(body, head, exit, m);
    let ways = either(flow(body), Flow::Skip);
    let all = match cond {
        Some(c) => marks(*c, live(body, head, exit).union(head), exit, turned),
        None => turned,
    };
    match cond {
        Some(c) => {
            agrees(*c, live(body, head, exit).union(head), exit, turned);
            assert(turned.last =~= m.last.union(last_reads(ways, head, exit)));
            marked_in_turn(flow(*c), ways, head, exit, m.last, turned.last, all.last);
        },
        None => {},
    }
    assert(all.last =~= m.last.union(last_reads(one, head, exit)));
    let again = Flow::Again(Box::new(one));
    assert(flow(e) == in_turn(flow(iterable), again));
    agrees(iterable, head, exit, all);
    marked_in_turn(flow(iterable), again, out, exit, m.last, all.last, marks(e, out, exit, m).last);
}

proof fn opt_agrees(e: Option<TypedExprRef>, out: Names, exit: Names, m: Marks)
    ensures
        live_opt(e, out, exit) == live_in(flow_opt(e), out, exit),
        marks_opt(e, out, exit, m).last == m.last.union(last_reads(flow_opt(e), out, exit)),
        marks_opt(e, out, exit, m).dead == dead_in(flow_opt(e), out, exit, m.dead),
    decreases e, 0int,
{
    nothing_added(m.last);
    if let Some(x) = e {
        agrees(*x, out, exit, m);
    }
}

proof fn list_agrees(es: Seq<Spanned<TypedExpr>>, out: Names, exit: Names, m: Marks)
    ensures
        live_list(es, out, exit) == live_in(flow_list(es), out, exit),
        marks_list(es, out, exit, m).last == m.last.union(last_reads(flow_list(es), out, exit)),
        marks_list(es, out, exit, m).dead == dead_in(flow_list(es), out, exit, m.dead),
    decreases es, 0int,
{
    nothing_added(m.last);
    if es.len() > 0 {
        let (l1, m1) = (live(es.last(), out, exit), marks(es.last(), out, exit, m));
        agrees(es.last(), out, exit, m);
        list_agrees(es.drop_last(), l1, exit, m1);
        marked_in_turn(
            flow_list(es.drop_last()),
            flow(es.last()),
            out,
            exit,
            m.last,
            m1.last,
            marks_list(es, out, exit, m).last,
        );
    }
}

proof fn block_agrees(es: Seq<Spanned<TypedExpr>>, out: Names, exit: Names, m: Marks)
    ensures
        live_list(es, out, exit) == live_in(flow_block(es), out, exit),
        marks_block(es, out, exit, m).last == m.last.union(last_reads(flow_block(es), out, exit)),
        marks_block(es, out, exit, m).dead == dead_in(flow_block(es), out, exit, m.dead),
    decreases es, 0int,
{
    nothing_added(m.last);
    if es.len() > 0 {
        let (l1, m0) = (live(es.last(), out, exit), marks(es.last(), out, exit, m));
        let m1 = with_dead(m0, es.last().item.id, l1, out);
        agrees(es.last(), out, exit, m);
        assert(m1.last == m0.last);
        let last = Flow::Stmt(es.last().item.id, Box::new(flow(es.last())));
        assert(live_in(last, out, exit) == l1);
        assert(last_reads(last, out, exit) == last_reads(flow(es.last()), out, exit));
        assert(dead_in(last, out, exit, m.dead) == m1.dead);
        block_agrees(es.drop_last(), l1, exit, m1);
        marked_in_turn(
            flow_block(es.drop_last()),
            last,
            out,
            exit,
            m.last,
            m1.last,
            marks_block(es, out, exit, m).last,
        );
    }
}

proof fn pairs_agree(es: Seq<(Spanned<TypedExpr>, Spanned<TypedExpr>)>, out: Names, exit: Names, m: Marks)
    ensures
        live_pairs(es, out, exit) == live_in(flow_pairs(es), out, exit),
        marks_pairs(es, out, exit, m).last == m.last.union(last_reads(flow_pairs(es), out, exit)),
        marks_pairs(es, out, exit, m).dead == dead_in(flow_pairs(es), out, exit, m.dead),
    decreases es, 0int,
{
    nothing_added(m.last);
    if es.len() > 0 {
        let (l2, m2) = (live(es.last().1, out, exit), marks(es.last().1, out, exit, m));
        agrees(es.last().1, out, exit, m);
        let (l1, m1) = (live(es.last().0, l2, exit), marks(es.last().0, l2, exit, m2));
        agrees(es.last().0, l2, exit, m2);
        let both = in_turn(flow(es.last().0), flow(es.last().1));
        marked_in_turn(flow(es.last().0), flow(es.last().1), out, exit, m.last, m2.last, m1.last);
        pairs_agree(es.drop_last(), l1, exit, m1);
        marked_in_turn(
            flow_pairs(es.drop_last()),
            both,
            out,
            exit,
            m.last,
            m1.last,
            marks_pairs(es, out, exit, m).last,
        );
    }
}

proof fn fields_agree(fs: Seq<(String, TypedExprRef)>, out: Names, exit: Names, m: Marks)
    ensures
        live_fields(fs, out, exit) == live_in(flow_fields(fs), out, exit),
        marks_fields(fs, out, exit, m).last == m.last.union(last_reads(flow_fields(fs), out, exit)),
        marks_fields(fs, out, exit, m).dead == dead_in(flow_fields(fs), out, exit, m.dead),
    decreases fs, 0int,
{
    nothing_added(m.last);
    if fs.len() > 0 {
        let (l1, m1) = (live(*fs.last().1, out, exit), marks(*fs.last().1, out, exit, m));
        agrees(*fs.last().1, out, exit, m);
        fields_agree(fs.drop_last(), l1, exit, m1);
        marked_in_turn(
            flow_fields(fs.drop_last()),
            flow(*fs.last().1),
            out,
            exit,
            m.last,
            m1.last,
            marks_fields(fs, out, exit, m).last,
        );
    }
}

proof fn seg_agrees(s: PlaceSeg, out: Names, exit: Names, m: Marks)
    ensures
        live_seg(s, out, exit) == live_in(flow_seg(s), out, exit),
        marks_seg(s, out, exit, m).last == m.last.union(last_reads(flow_seg(s), out, exit)),
        marks_seg(s, out, exit, m).dead == dead_in(flow_seg(s), out, exit, m.dead),
    decreases s, 0int,
{
    nothing_added(m.last);
    if let PlaceSeg::Index { index, elem_ty: _ } = s {
        agrees(*index, out, exit, m);
    }
}

proof fn path_agrees(p: Seq<PlaceSeg>, out: Names, exit: Names, m: Marks)
    ensures
        live_path(p, out, exit) == live_in(flow_path(p), out, exit),
        marks_path(p, out, exit, m).last == m.last.union(last_reads(flow_path(p), out, exit)),
        marks_path(p, out, exit, m).dead == dead_in(flow_path(p), out, exit, m.dead),
    decreases p, 0int,
{
    nothing_added(m.last);
    if p.len() > 0 {
        let (l1, m1) = (live_seg(p.last(), out, exit), marks_seg(p.last(), out, exit, m));
        seg_agrees(p.last(), out, exit, m);
        path_agrees(p.drop_last(), l1, exit, m1);
        marked_in_turn(
            flow_path(p.drop_last()),
            flow_seg(p.last()),
            out,
            exit,
            m.last,
            m1.last,
            marks_path(p, out, exit, m).last,
        );
    }
}

proof fn arg_agrees(a: Arg, out: Names, exit: Names, m: Marks)
    ensures
        live_arg(a, out, exit) == live_in(flow_arg(a), out, exit),
        marks_arg(a, out, exit, m).last == m.last.union(last_reads(flow_arg(a), out, exit)),
        marks_arg(a, out, exit, m).dead == dead_in(flow_arg(a), out, exit, m.dead),
    decreases a, 0int,
{
    match a {
        Arg::Value(e) => agrees(e, out, exit, m),
        Arg::Mut(p) => path_agrees(p.path@, out, exit, m),
    }
}

proof fn args_agree(args: Seq<Arg>, out: Names, exit: Names, m: Marks)
    ensures
        live_args(args, out, exit) == live_in(flow_args(args), out, exit),
        marks_args(args, out, exit, m).last == m.last.union(last_reads(flow_args(args), out, exit)),
        marks_args(args, out, exit, m).dead == dead_in(flow_args(args), out, exit, m.dead),
    decreases args, 0int,
{
    nothing_added(m.last);
    if args.len() > 0 {
        let (l1, m1) = (live_arg(args.last(), out, exit), marks_arg(args.last(), out, exit, m));
        arg_agrees(args.last(), out, exit, m);
        args_agree(args.drop_last(), l1, exit, m1);
        marked_in_turn(
            flow_args(args.drop_last()),
            flow_arg(args.last()),
            out,
            exit,
            m.last,
            m1.last,
            marks_args(args, out, exit, m).last,
        );
    }
}

// ── Each node reads once ─────────────────────────────────────────────────

/// How often a number occurs.
pub open spec fn occurs(s: Seq<u32>, id: u32) -> nat
    decreases s.len(),
{
    if s.len() == 0 {
        0
    } else if s.last() == id {
        occurs(s.drop_last(), id) + 1
    } else {
        occurs(s.drop_last(), id)
    }
}

proof fn occurs_in_both(a: Seq<u32>, b: Seq<u32>, id: u32)
    ensures
        occurs(a + b, id) == occurs(a, id) + occurs(b, id),
    decreases b.len(),
{
    if b.len() == 0 {
        assert(a + b =~= a);
    } else {
        assert((a + b).drop_last() =~= a + b.drop_last());
        occurs_in_both(a, b.drop_last(), id);
    }
}

proof fn occurs_in_all(a: Seq<u32>, b: Seq<u32>, c: Seq<u32>, id: u32)
    ensures
        occurs(a + b + c, id) == occurs(a, id) + occurs(b, id) + occurs(c, id),
{
    occurs_in_both(a, b, id);
    occurs_in_both(a + b, c, id);
}

proof fn occurs_at_most_once(s: Seq<u32>, id: u32)
    requires
        s.no_duplicates(),
    ensures
        occurs(s, id) <= 1,
        occurs(s, id) == 1 ==> s.contains(id),
    decreases s.len(),
{
    if s.len() > 0 {
        let t = s.drop_last();
        assert forall|i: int, j: int| 0 <= i < t.len() && 0 <= j < t.len() && i != j implies t[i] != t[j] by {
            assert(s[i] != s[j]);
        }
        occurs_at_most_once(t, id);
        if s.last() == id {
            assert(s[s.len() - 1] == id);
            if t.contains(id) {
                let i = choose|i: int| 0 <= i < t.len() && t[i] == id;
                assert(s[i] != s[s.len() - 1]);
            }
        } else if t.contains(id) {
            let i = choose|i: int| 0 <= i < t.len() && t[i] == id;
            assert(s[i] == id);
        }
    }
}

proof fn reads_in_turn(a: Flow, b: Flow, id: u32)
    ensures
        times(in_turn(a, b), id) == times(a, id) + times(b, id),
        times(either(a, b), id) == times(a, id) + times(b, id),
{
}

proof fn reads_in_a_turn(var: Seq<char>, cond: Option<Flow>, body: Flow, id: u32)
    ensures
        times(turn(var, cond, body), id) == times(body, id) + match cond {
            Some(c) => times(c, id),
            None => 0,
        },
{
    reveal_with_fuel(times, 5);
}

/// No node below `e` reads more often than it stands there.
proof fn reads_no_more(e: Spanned<TypedExpr>, id: u32)
    ensures
        times(flow(e), id) <= occurs(ids(e), id),
    decreases e, 1int,
{
    let own = seq![e.item.id];
    occurs_in_both(own, kind_ids(e.item.kind), id);
    match e.item.kind {
        TypedExprKind::Var(_) => {
            assert(own.drop_last() =~= Seq::<u32>::empty());
        },
        TypedExprKind::Unary { op: _, expr } => reads_no_more(*expr, id),
        TypedExprKind::FieldAccess { target, field: _, enum_name: _ } => reads_no_more(*target, id),
        TypedExprKind::IsVariant { target, enum_name: _, variant: _, tag: _ } => reads_no_more(*target, id),
        TypedExprKind::VariantField { target, enum_name: _, variant: _, field: _ } => reads_no_more(*target, id),
        TypedExprKind::Widen { value, tag: _ } => reads_no_more(*value, id),
        TypedExprKind::Narrow { value, tag: _ } => reads_no_more(*value, id),
        TypedExprKind::TypeTag { target, tag: _ } => reads_no_more(*target, id),
        TypedExprKind::Truthy(part) => reads_no_more(*part, id),
        TypedExprKind::Coerce(part) => reads_no_more(*part, id),
        TypedExprKind::List(part) => list_reads_no_more(part@, id),
        TypedExprKind::Dict(part) => pairs_read_no_more(part@, id),
        TypedExprKind::Block(part) => block_reads_no_more(part@, id),
        TypedExprKind::StructInit { name: _, fields } => fields_read_no_more(fields@, id),
        TypedExprKind::VariantInit { enum_name: _, variant: _, tag: _, fields } => fields_read_no_more(fields@, id),
        TypedExprKind::Return(value) => {
            opt_reads_no_more(value, id);
            assert(times(Flow::Leave, id) == 0);
        },
        _ => parts_read_no_more(e, id),
    }
}

proof fn parts_read_no_more(e: Spanned<TypedExpr>, id: u32)
    ensures
        e.item.kind is Binary || e.item.kind is Index || e.item.kind is Range || e.item.kind is Slice
            || e.item.kind is PlaceAssign || e.item.kind is Conditional || e.item.kind is Assign || e.item.kind is Call
            || e.item.kind is ForLoop || e.item.kind is Comprehension ==> times(flow(e), id) <= occurs(
            kind_ids(e.item.kind),
            id,
        ),
    decreases e, 0int,
{
    match e.item.kind {
        TypedExprKind::Binary { op: _, left, right } => {
            occurs_in_both(ids(*left), ids(*right), id);
            reads_no_more(*left, id);
            reads_no_more(*right, id);
        },
        TypedExprKind::Index { target, index } => {
            occurs_in_both(ids(*target), ids(*index), id);
            reads_no_more(*target, id);
            reads_no_more(*index, id);
        },
        TypedExprKind::Range { start, end } => {
            occurs_in_both(ids(*start), ids(*end), id);
            reads_no_more(*start, id);
            reads_no_more(*end, id);
        },
        TypedExprKind::Slice { target, start, end } => {
            occurs_in_all(ids(*target), opt_ids(start), opt_ids(end), id);
            reads_in_turn(flow_opt(start), flow_opt(end), id);
            reads_no_more(*target, id);
            opt_reads_no_more(start, id);
            opt_reads_no_more(end, id);
        },
        TypedExprKind::Assign { name, value } => {
            assert(times(Flow::Write(name@), id) == 0);
            reads_no_more(*value, id);
        },
        TypedExprKind::PlaceAssign { place, value } => {
            occurs_in_both(path_ids(place.path@), ids(*value), id);
            reads_in_turn(flow(*value), Flow::Use(place.root@), id);
            assert(times(Flow::Use(place.root@), id) == 0);
            path_reads_no_more(place.path@, id);
            reads_no_more(*value, id);
        },
        TypedExprKind::Conditional { cond, true_branch, false_branch } => {
            occurs_in_all(ids(*cond), ids(*true_branch), opt_ids(false_branch), id);
            reads_no_more(*cond, id);
            reads_in_turn(flow(*true_branch), flow_opt(false_branch), id);
            reads_no_more(*true_branch, id);
            opt_reads_no_more(false_branch, id);
        },
        TypedExprKind::Call { callable, args } => {
            occurs_in_both(ids(*callable), args_ids(args@), id);
            used_roots_are_mut_roots(args@, Set::empty(), Set::empty());
            args_read_no_more(args@, id);
            assert(times(used_roots(args@), id) == 0);
        },
        TypedExprKind::ForLoop { var, iterable, cond, body, iter_via: _ } => {
            occurs_in_all(ids(*iterable), opt_ids(cond), ids(*body), id);
            reads_no_more(*iterable, id);
            opt_reads_no_more(cond, id);
            reads_no_more(*body, id);
            let guard: Option<Flow> = match cond {
                Some(c) => Some(flow(*c)),
                None => None,
            };
            let one = turn(var@, guard, flow(*body));
            reads_in_a_turn(var@, guard, flow(*body), id);
            assert(flow(e) == in_turn(flow(*iterable), Flow::Again(Box::new(one))));
            assert(times(Flow::Again(Box::new(one)), id) == times(one, id));
        },
        TypedExprKind::Comprehension { var, iterable, cond, body, iter_via: _ } => {
            occurs_in_all(ids(*iterable), opt_ids(cond), ids(*body), id);
            reads_no_more(*iterable, id);
            opt_reads_no_more(cond, id);
            reads_no_more(*body, id);
            let guard: Option<Flow> = match cond {
                Some(c) => Some(flow(*c)),
                None => None,
            };
            let one = turn(var@, guard, flow(*body));
            reads_in_a_turn(var@, guard, flow(*body), id);
            assert(flow(e) == in_turn(flow(*iterable), Flow::Again(Box::new(one))));
            assert(times(Flow::Again(Box::new(one)), id) == times(one, id));
        },
        _ => {},
    }
}

proof fn opt_reads_no_more(e: Option<TypedExprRef>, id: u32)
    ensures
        times(flow_opt(e), id) <= occurs(opt_ids(e), id),
    decreases e, 0int,
{
    if let Some(x) = e {
        reads_no_more(*x, id);
    }
}

proof fn list_reads_no_more(es: Seq<Spanned<TypedExpr>>, id: u32)
    ensures
        times(flow_list(es), id) <= occurs(list_ids(es), id),
    decreases es, 0int,
{
    if es.len() > 0 {
        occurs_in_both(list_ids(es.drop_last()), ids(es.last()), id);
        list_reads_no_more(es.drop_last(), id);
        reads_no_more(es.last(), id);
    }
}

proof fn block_reads_no_more(es: Seq<Spanned<TypedExpr>>, id: u32)
    ensures
        times(flow_block(es), id) <= occurs(list_ids(es), id),
    decreases es, 0int,
{
    if es.len() > 0 {
        let last = Flow::Stmt(es.last().item.id, Box::new(flow(es.last())));
        occurs_in_both(list_ids(es.drop_last()), ids(es.last()), id);
        block_reads_no_more(es.drop_last(), id);
        reads_no_more(es.last(), id);
        reads_in_turn(flow_block(es.drop_last()), last, id);
        assert(times(last, id) == times(flow(es.last()), id));
    }
}

proof fn pairs_read_no_more(es: Seq<(Spanned<TypedExpr>, Spanned<TypedExpr>)>, id: u32)
    ensures
        times(flow_pairs(es), id) <= occurs(pair_ids(es), id),
    decreases es, 0int,
{
    reveal_with_fuel(times, 3);
    if es.len() > 0 {
        occurs_in_all(pair_ids(es.drop_last()), ids(es.last().0), ids(es.last().1), id);
        pairs_read_no_more(es.drop_last(), id);
        reads_no_more(es.last().0, id);
        reads_no_more(es.last().1, id);
    }
}

proof fn fields_read_no_more(fs: Seq<(String, TypedExprRef)>, id: u32)
    ensures
        times(flow_fields(fs), id) <= occurs(field_ids(fs), id),
    decreases fs, 0int,
{
    if fs.len() > 0 {
        occurs_in_both(field_ids(fs.drop_last()), ids(*fs.last().1), id);
        fields_read_no_more(fs.drop_last(), id);
        reads_no_more(*fs.last().1, id);
    }
}

proof fn seg_reads_no_more(s: PlaceSeg, id: u32)
    ensures
        times(flow_seg(s), id) <= occurs(seg_ids(s), id),
    decreases s, 0int,
{
    if let PlaceSeg::Index { index, elem_ty: _ } = s {
        reads_no_more(*index, id);
    }
}

proof fn path_reads_no_more(p: Seq<PlaceSeg>, id: u32)
    ensures
        times(flow_path(p), id) <= occurs(path_ids(p), id),
    decreases p, 0int,
{
    if p.len() > 0 {
        occurs_in_both(path_ids(p.drop_last()), seg_ids(p.last()), id);
        path_reads_no_more(p.drop_last(), id);
        seg_reads_no_more(p.last(), id);
    }
}

proof fn arg_reads_no_more(a: Arg, id: u32)
    ensures
        times(flow_arg(a), id) <= occurs(arg_ids(a), id),
    decreases a, 0int,
{
    match a {
        Arg::Value(e) => reads_no_more(e, id),
        Arg::Mut(p) => path_reads_no_more(p.path@, id),
    }
}

proof fn args_read_no_more(args: Seq<Arg>, id: u32)
    ensures
        times(flow_args(args), id) <= occurs(args_ids(args), id),
    decreases args, 0int,
{
    if args.len() > 0 {
        occurs_in_both(args_ids(args.drop_last()), arg_ids(args.last()), id);
        args_read_no_more(args.drop_last(), id);
        arg_reads_no_more(args.last(), id);
    }
}

proof fn stand_in_turn(a: Flow, b: Flow, id: u32)
    ensures
        stmts(in_turn(a, b), id) == stmts(a, id) + stmts(b, id),
        stmts(either(a, b), id) == stmts(a, id) + stmts(b, id),
{
}

proof fn stand_in_a_turn(var: Seq<char>, cond: Option<Flow>, body: Flow, id: u32)
    ensures
        stmts(turn(var, cond, body), id) == stmts(body, id) + match cond {
            Some(c) => stmts(c, id),
            None => 0,
        },
{
    reveal_with_fuel(stmts, 5);
}

/// No node below `e` is a statement more often than it stands there.
proof fn stands_once(e: Spanned<TypedExpr>, id: u32)
    ensures
        stmts(flow(e), id) <= occurs(kind_ids(e.item.kind), id),
        occurs(ids(e), id) == occurs(kind_ids(e.item.kind), id) + if e.item.id == id {
            1nat
        } else {
            0nat
        },
    decreases e, 1int,
{
    let own = seq![e.item.id];
    occurs_in_both(own, kind_ids(e.item.kind), id);
    assert(own.drop_last() =~= Seq::<u32>::empty());
    assert(own.last() == e.item.id);
    assert(occurs(own.drop_last(), id) == 0);
    match e.item.kind {
        TypedExprKind::Unary { op: _, expr } => stands_once(*expr, id),
        TypedExprKind::FieldAccess { target, field: _, enum_name: _ } => stands_once(*target, id),
        TypedExprKind::IsVariant { target, enum_name: _, variant: _, tag: _ } => stands_once(*target, id),
        TypedExprKind::VariantField { target, enum_name: _, variant: _, field: _ } => stands_once(*target, id),
        TypedExprKind::Widen { value, tag: _ } => stands_once(*value, id),
        TypedExprKind::Narrow { value, tag: _ } => stands_once(*value, id),
        TypedExprKind::TypeTag { target, tag: _ } => stands_once(*target, id),
        TypedExprKind::Truthy(part) => stands_once(*part, id),
        TypedExprKind::Coerce(part) => stands_once(*part, id),
        TypedExprKind::List(part) => list_stands_once(part@, id),
        TypedExprKind::Dict(part) => pairs_stand_once(part@, id),
        TypedExprKind::Block(part) => block_stands_once(part@, id),
        TypedExprKind::StructInit { name: _, fields } => fields_stand_once(fields@, id),
        TypedExprKind::VariantInit { enum_name: _, variant: _, tag: _, fields } => fields_stand_once(fields@, id),
        TypedExprKind::Return(value) => {
            opt_stands_once(value, id);
            assert(stmts(Flow::Leave, id) == 0);
        },
        _ => parts_stand_once(e, id),
    }
}

proof fn parts_stand_once(e: Spanned<TypedExpr>, id: u32)
    ensures
        e.item.kind is Binary || e.item.kind is Index || e.item.kind is Range || e.item.kind is Slice
            || e.item.kind is PlaceAssign || e.item.kind is Conditional || e.item.kind is Assign || e.item.kind is Call
            || e.item.kind is ForLoop || e.item.kind is Comprehension ==> stmts(flow(e), id) <= occurs(
            kind_ids(e.item.kind),
            id,
        ),
    decreases e, 0int,
{
    match e.item.kind {
        TypedExprKind::Binary { op: _, left, right } => {
            occurs_in_both(ids(*left), ids(*right), id);
            stands_once(*left, id);
            stands_once(*right, id);
        },
        TypedExprKind::Index { target, index } => {
            occurs_in_both(ids(*target), ids(*index), id);
            stands_once(*target, id);
            stands_once(*index, id);
        },
        TypedExprKind::Range { start, end } => {
            occurs_in_both(ids(*start), ids(*end), id);
            stands_once(*start, id);
            stands_once(*end, id);
        },
        TypedExprKind::Slice { target, start, end } => {
            occurs_in_all(ids(*target), opt_ids(start), opt_ids(end), id);
            stand_in_turn(flow_opt(start), flow_opt(end), id);
            stands_once(*target, id);
            opt_stands_once(start, id);
            opt_stands_once(end, id);
        },
        TypedExprKind::Assign { name, value } => {
            assert(stmts(Flow::Write(name@), id) == 0);
            stands_once(*value, id);
        },
        TypedExprKind::PlaceAssign { place, value } => {
            occurs_in_both(path_ids(place.path@), ids(*value), id);
            stand_in_turn(flow(*value), Flow::Use(place.root@), id);
            assert(stmts(Flow::Use(place.root@), id) == 0);
            path_stands_once(place.path@, id);
            stands_once(*value, id);
        },
        TypedExprKind::Conditional { cond, true_branch, false_branch } => {
            occurs_in_all(ids(*cond), ids(*true_branch), opt_ids(false_branch), id);
            stands_once(*cond, id);
            stand_in_turn(flow(*true_branch), flow_opt(false_branch), id);
            stands_once(*true_branch, id);
            opt_stands_once(false_branch, id);
        },
        TypedExprKind::Call { callable, args } => {
            occurs_in_both(ids(*callable), args_ids(args@), id);
            used_roots_are_mut_roots(args@, Set::empty(), Set::empty());
            args_stand_once(args@, id);
            assert(stmts(used_roots(args@), id) == 0);
        },
        TypedExprKind::ForLoop { var, iterable, cond, body, iter_via: _ } => {
            occurs_in_all(ids(*iterable), opt_ids(cond), ids(*body), id);
            stands_once(*iterable, id);
            opt_stands_once(cond, id);
            stands_once(*body, id);
            let guard: Option<Flow> = match cond {
                Some(c) => Some(flow(*c)),
                None => None,
            };
            let one = turn(var@, guard, flow(*body));
            stand_in_a_turn(var@, guard, flow(*body), id);
            assert(flow(e) == in_turn(flow(*iterable), Flow::Again(Box::new(one))));
            assert(stmts(Flow::Again(Box::new(one)), id) == stmts(one, id));
        },
        TypedExprKind::Comprehension { var, iterable, cond, body, iter_via: _ } => {
            occurs_in_all(ids(*iterable), opt_ids(cond), ids(*body), id);
            stands_once(*iterable, id);
            opt_stands_once(cond, id);
            stands_once(*body, id);
            let guard: Option<Flow> = match cond {
                Some(c) => Some(flow(*c)),
                None => None,
            };
            let one = turn(var@, guard, flow(*body));
            stand_in_a_turn(var@, guard, flow(*body), id);
            assert(flow(e) == in_turn(flow(*iterable), Flow::Again(Box::new(one))));
            assert(stmts(Flow::Again(Box::new(one)), id) == stmts(one, id));
        },
        _ => {},
    }
}

proof fn opt_stands_once(e: Option<TypedExprRef>, id: u32)
    ensures
        stmts(flow_opt(e), id) <= occurs(opt_ids(e), id),
    decreases e, 0int,
{
    if let Some(x) = e {
        stands_once(*x, id);
    }
}

proof fn list_stands_once(es: Seq<Spanned<TypedExpr>>, id: u32)
    ensures
        stmts(flow_list(es), id) <= occurs(list_ids(es), id),
    decreases es, 0int,
{
    if es.len() > 0 {
        occurs_in_both(list_ids(es.drop_last()), ids(es.last()), id);
        list_stands_once(es.drop_last(), id);
        stands_once(es.last(), id);
    }
}

proof fn block_stands_once(es: Seq<Spanned<TypedExpr>>, id: u32)
    ensures
        stmts(flow_block(es), id) <= occurs(list_ids(es), id),
    decreases es, 0int,
{
    if es.len() > 0 {
        let last = Flow::Stmt(es.last().item.id, Box::new(flow(es.last())));
        occurs_in_both(list_ids(es.drop_last()), ids(es.last()), id);
        block_stands_once(es.drop_last(), id);
        stands_once(es.last(), id);
        stand_in_turn(flow_block(es.drop_last()), last, id);
        assert(stmts(last, id) == stmts(flow(es.last()), id) + if es.last().item.id == id {
            1nat
        } else {
            0nat
        });
    }
}

proof fn pairs_stand_once(es: Seq<(Spanned<TypedExpr>, Spanned<TypedExpr>)>, id: u32)
    ensures
        stmts(flow_pairs(es), id) <= occurs(pair_ids(es), id),
    decreases es, 0int,
{
    reveal_with_fuel(stmts, 3);
    if es.len() > 0 {
        occurs_in_all(pair_ids(es.drop_last()), ids(es.last().0), ids(es.last().1), id);
        pairs_stand_once(es.drop_last(), id);
        stands_once(es.last().0, id);
        stands_once(es.last().1, id);
    }
}

proof fn fields_stand_once(fs: Seq<(String, TypedExprRef)>, id: u32)
    ensures
        stmts(flow_fields(fs), id) <= occurs(field_ids(fs), id),
    decreases fs, 0int,
{
    if fs.len() > 0 {
        occurs_in_both(field_ids(fs.drop_last()), ids(*fs.last().1), id);
        fields_stand_once(fs.drop_last(), id);
        stands_once(*fs.last().1, id);
    }
}

proof fn seg_stands_once(s: PlaceSeg, id: u32)
    ensures
        stmts(flow_seg(s), id) <= occurs(seg_ids(s), id),
    decreases s, 0int,
{
    if let PlaceSeg::Index { index, elem_ty: _ } = s {
        stands_once(*index, id);
    }
}

proof fn path_stands_once(p: Seq<PlaceSeg>, id: u32)
    ensures
        stmts(flow_path(p), id) <= occurs(path_ids(p), id),
    decreases p, 0int,
{
    if p.len() > 0 {
        occurs_in_both(path_ids(p.drop_last()), seg_ids(p.last()), id);
        path_stands_once(p.drop_last(), id);
        seg_stands_once(p.last(), id);
    }
}

proof fn arg_stands_once(a: Arg, id: u32)
    ensures
        stmts(flow_arg(a), id) <= occurs(arg_ids(a), id),
    decreases a, 0int,
{
    match a {
        Arg::Value(e) => stands_once(e, id),
        Arg::Mut(p) => path_stands_once(p.path@, id),
    }
}

proof fn args_stand_once(args: Seq<Arg>, id: u32)
    ensures
        stmts(flow_args(args), id) <= occurs(args_ids(args), id),
    decreases args, 0int,
{
    if args.len() > 0 {
        occurs_in_both(args_ids(args.drop_last()), arg_ids(args.last()), id);
        args_stand_once(args.drop_last(), id);
        arg_stands_once(args.last(), id);
    }
}

// ── Laws ─────────────────────────────────────────────────────────────────

proof fn is_written(t: Seq<Event>, n: Seq<char>, from: int, to: int)
    requires
        !kept(t, n, from, to),
    ensures
        exists|k: int| from <= k < to && #[trigger] t[k] == Event::Write(n),
{
}

/// What a law says of one read: that no name is read again after it, or needed
/// when the run is over, unless it was written in between.
pub open spec fn is_last(t: Seq<Event>, n: Seq<char>, i: int, exit: Names) -> bool {
    &&& forall|j: int|
        i < j < t.len() && #[trigger] reads(t[j], n) ==> exists|k: int| i < k < j && #[trigger] t[k] == Event::Write(n)
    &&& exit.contains(n) ==> exists|k: int| i < k < t.len() && #[trigger] t[k] == Event::Write(n)
}

proof fn marked_reads_are_last(f: Flow, exit: Names, r: Run, i: int, id: u32, n: Seq<char>)
    requires
        runs(f).contains(r),
        forall|x: u32| #[trigger] times(f, x) <= 1,
        0 <= i < r.events.len(),
        r.events[i] == Event::Read(id, n),
        last_reads(f, exit, exit).contains(id),
    ensures
        is_last(r.events, n, i, exit),
{
    let m = last_reads(f, exit, exit);
    assert forall|x: u32| #[trigger] m.contains(x) && times(f, x) > 0 implies times(f, x) == 1 by {
        assert(times(f, x) <= 1);
    }
    right_on_every_run(f, exit, exit, m, r);
    let t = r.events;
    assert(m.contains(id) && reads(t[i], n));
    assert(unread_after(t, n, i, exit));
    assert forall|j: int| i < j < t.len() && #[trigger] reads(t[j], n) implies exists|k: int|
        i < k < j && #[trigger] t[k] == Event::Write(n) by {
        is_written(t, n, i + 1, j);
    }
    if exit.contains(n) {
        is_written(t, n, i + 1, t.len() as int);
    }
}

/// A read that the analysis of a body calls the last of its name is the last,
/// however the body runs: where each node has a number of its own, the name is
/// not read again, nor needed by the caller, unless it was written since.
pub proof fn a_last_read_is_the_last(body: Spanned<TypedExpr>, exit: Names, r: Run, i: int, id: u32, n: Seq<char>)
    requires
        ids(body).no_duplicates(),
        runs(flow(body)).contains(r),
        0 <= i < r.events.len(),
        r.events[i] == Event::Read(id, n),
        marks(body, exit, exit, no_marks()).last.contains(id),
    ensures
        is_last(r.events, n, i, exit),
{
    agrees(body, exit, exit, no_marks());
    assert forall|x: u32| #[trigger] times(flow(body), x) <= 1 by {
        reads_no_more(body, x);
        occurs_at_most_once(ids(body), x);
    }
    marked_reads_are_last(flow(body), exit, r, i, id, n);
}

/// The same of a run of top-level statements.
pub proof fn a_last_read_of_an_entry_is_the_last(
    stmts: Seq<Spanned<TypedExpr>>,
    exit: Names,
    r: Run,
    i: int,
    id: u32,
    n: Seq<char>,
)
    requires
        list_ids(stmts).no_duplicates(),
        runs(flow_block(stmts)).contains(r),
        0 <= i < r.events.len(),
        r.events[i] == Event::Read(id, n),
        marks_block(stmts, exit, exit, no_marks()).last.contains(id),
    ensures
        is_last(r.events, n, i, exit),
{
    block_agrees(stmts, exit, exit, no_marks());
    assert forall|x: u32| #[trigger] times(flow_block(stmts), x) <= 1 by {
        block_reads_no_more(stmts, x);
        occurs_at_most_once(list_ids(stmts), x);
    }
    marked_reads_are_last(flow_block(stmts), exit, r, i, id, n);
}

/// A name that is not live before something is not read there before it is
/// written.
pub proof fn what_is_not_live_is_not_read(
    e: Spanned<TypedExpr>,
    out: Names,
    exit: Names,
    r: Run,
    n: Seq<char>,
    i: int,
)
    requires
        runs(flow(e)).contains(r),
        !live(e, out, exit).contains(n),
        0 <= i < r.events.len(),
        reads(r.events[i], n),
    ensures
        exists|k: int| 0 <= k < i && #[trigger] r.events[k] == Event::Write(n),
{
    agrees(e, out, exit, no_marks());
    right_on_every_run(flow(e), out, exit, Set::empty(), r);
    is_written(r.events, n, 0, i);
}

/// Whether a run reads a name before it writes it, or keeps it to the end,
/// where it is needed.
pub open spec fn wants(r: Run, n: Seq<char>, out: Names, exit: Names) -> bool {
    ||| exists|i: int| 0 <= i < r.events.len() && #[trigger] reads(r.events[i], n) && kept(r.events, n, 0, i)
    ||| needed(r, out, exit).contains(n) && kept(r.events, n, 0, r.events.len() as int)
}

proof fn there_is_a_run(f: Flow) -> (r: Run)
    ensures
        runs(f).contains(r),
    decreases f,
{
    match f {
        Flow::Skip => Run { events: Seq::empty(), left: false },
        Flow::Read(id, n) => Run { events: seq![Event::Read(id, n)], left: false },
        Flow::Use(n) => Run { events: seq![Event::Use(n)], left: false },
        Flow::Write(n) => Run { events: seq![Event::Write(n)], left: false },
        Flow::Leave => Run { events: Seq::empty(), left: true },
        Flow::InTurn(a, b) => {
            let (p, q) = (runs(*a), runs(*b));
            let x = there_is_a_run(*a);
            let y = there_is_a_run(*b);
            assert(p.contains(x) && q.contains(y));
            if x.left {
                x
            } else {
                Run { events: x.events + y.events, left: y.left }
            }
        },
        Flow::Either(a, _) => there_is_a_run(*a),
        Flow::Stmt(_, a) => there_is_a_run(*a),
        Flow::Again(a) => {
            let r = Run { events: Seq::empty(), left: false };
            assert(repeated(runs(*a), 0).contains(r));
            r
        },
    }
}

/// The run goes on after `x` as in `y`, and wants what is wanted there.
proof fn wanted_later(x: Run, y: Run, n: Seq<char>, mid: Names, out: Names, exit: Names)
    requires
        !x.left,
        wants(x, n, mid, exit),
        mid.contains(n) ==> wants(y, n, out, exit) || exists|i: int|
            0 <= i < x.events.len() && #[trigger] reads(x.events[i], n) && kept(x.events, n, 0, i),
    ensures
        wants(Run { events: x.events + y.events, left: y.left }, n, out, exit),
{
    let (a, b) = (x.events, y.events);
    let t = a + b;
    let r = Run { events: t, left: y.left };
    if exists|i: int| 0 <= i < a.len() && #[trigger] reads(a[i], n) && kept(a, n, 0, i) {
        let i = choose|i: int| 0 <= i < a.len() && #[trigger] reads(a[i], n) && kept(a, n, 0, i);
        kept_in_front(a, b, n, 0, i);
        assert(t[i] == a[i]);
        assert(reads(r.events[i], n) && kept(r.events, n, 0, i));
    } else {
        assert(needed(x, mid, exit) == mid);
        assert(wants(y, n, out, exit));
        if exists|i: int| 0 <= i < b.len() && #[trigger] reads(b[i], n) && kept(b, n, 0, i) {
            let i = choose|i: int| 0 <= i < b.len() && #[trigger] reads(b[i], n) && kept(b, n, 0, i);
            kept_across(a, b, n, 0, i);
            let j = a.len() + i;
            assert(t[j] == b[i]);
            assert(reads(r.events[j], n) && kept(r.events, n, 0, j));
        } else {
            kept_across(a, b, n, 0, b.len() as int);
            assert(t.len() == a.len() + b.len());
            assert(kept(r.events, n, 0, r.events.len() as int));
            assert(needed(r, out, exit) == needed(y, out, exit));
        }
    }
}

proof fn live_is_wanted(f: Flow, out: Names, exit: Names, n: Seq<char>) -> (r: Run)
    requires
        live_in(f, out, exit).contains(n),
    ensures
        runs(f).contains(r),
        wants(r, n, out, exit),
    decreases f,
{
    match f {
        Flow::Read(id, k) => {
            let r = Run { events: seq![Event::Read(id, k)], left: false };
            if k == n {
                assert(reads(r.events[0], n));
            }
            r
        },
        Flow::Use(k) => {
            let r = Run { events: seq![Event::Use(k)], left: false };
            if k == n {
                assert(reads(r.events[0], n));
            }
            r
        },
        Flow::InTurn(a, b) => {
            let mid = live_in(*b, out, exit);
            let (p, q) = (runs(*a), runs(*b));
            let x = live_is_wanted(*a, mid, exit, n);
            let y = if mid.contains(n) {
                live_is_wanted(*b, out, exit, n)
            } else {
                there_is_a_run(*b)
            };
            assert(p.contains(x) && q.contains(y));
            if x.left {
                assert(needed(x, mid, exit) == needed(x, out, exit));
                x
            } else {
                wanted_later(x, y, n, mid, out, exit);
                Run { events: x.events + y.events, left: y.left }
            }
        },
        Flow::Either(a, b) => {
            if live_in(*a, out, exit).contains(n) {
                live_is_wanted(*a, out, exit, n)
            } else {
                live_is_wanted(*b, out, exit, n)
            }
        },
        Flow::Again(a) => {
            let once = runs(*a);
            if out.contains(n) {
                let r = Run { events: Seq::empty(), left: false };
                assert(repeated(once, 0).contains(r));
                r
            } else {
                let none: Names = Set::empty();
                let x = live_is_wanted(*a, none, exit, n);
                let start = Run { events: Seq::empty(), left: false };
                let before = repeated(once, 0);
                assert(before.contains(start) && once.contains(x));
                assert(start.events + x.events =~= x.events);
                assert(after(before, once).contains(x));
                assert(repeated(once, 1) == after(before, once));
                assert(repeated(once, 1).contains(x));
                x
            }
        },
        Flow::Stmt(_, a) => live_is_wanted(*a, out, exit, n),
        _ => there_is_a_run(f),
    }
}

/// A name that is live before something is wanted there: on some run it is
/// read before it is written, or kept to the end, where it is needed.
pub proof fn what_is_live_is_wanted(e: Spanned<TypedExpr>, out: Names, exit: Names, n: Seq<char>)
    requires
        live(e, out, exit).contains(n),
    ensures
        exists|r: Run| #[trigger] runs(flow(e)).contains(r) && wants(r, n, out, exit),
{
    agrees(e, out, exit, no_marks());
    let r = live_is_wanted(flow(e), out, exit, n);
    assert(runs(flow(e)).contains(r) && wants(r, n, out, exit));
}

// ── More that is needed at the exit ──────────────────────────────────────

proof fn more_exits_keep_more_alive(f: Flow, x: Names, y: Names, exit: Names, exits: Names)
    requires
        x.subset_of(y),
        exit.subset_of(exits),
    ensures
        live_in(f, x, exit).subset_of(live_in(f, y, exits)),
    decreases f,
{
    match f {
        Flow::InTurn(a, b) => {
            more_exits_keep_more_alive(*b, x, y, exit, exits);
            more_exits_keep_more_alive(*a, live_in(*b, x, exit), live_in(*b, y, exits), exit, exits);
        },
        Flow::Either(a, b) => {
            more_exits_keep_more_alive(*a, x, y, exit, exits);
            more_exits_keep_more_alive(*b, x, y, exit, exits);
        },
        Flow::Again(a) => {
            more_exits_keep_more_alive(*a, Set::empty(), Set::empty(), exit, exits);
        },
        Flow::Stmt(_, a) => more_exits_keep_more_alive(*a, x, y, exit, exits),
        _ => {},
    }
}

proof fn more_exits_move_less(f: Flow, x: Names, y: Names, exit: Names, exits: Names)
    requires
        x.subset_of(y),
        exit.subset_of(exits),
    ensures
        last_reads(f, y, exits).subset_of(last_reads(f, x, exit)),
    decreases f,
{
    match f {
        Flow::InTurn(a, b) => {
            more_exits_keep_more_alive(*b, x, y, exit, exits);
            more_exits_move_less(*b, x, y, exit, exits);
            more_exits_move_less(*a, live_in(*b, x, exit), live_in(*b, y, exits), exit, exits);
        },
        Flow::Either(a, b) => {
            more_exits_move_less(*a, x, y, exit, exits);
            more_exits_move_less(*b, x, y, exit, exits);
        },
        Flow::Again(a) => {
            more_exits_keep_more_alive(*a, Set::empty(), Set::empty(), exit, exits);
            more_exits_move_less(
                *a,
                x.union(live_in(*a, Set::empty(), exit)),
                y.union(live_in(*a, Set::empty(), exits)),
                exit,
                exits,
            );
        },
        Flow::Stmt(_, a) => more_exits_move_less(*a, x, y, exit, exits),
        _ => {},
    }
}

/// Keeping more names live at the exit can turn a move into a copy, never the
/// reverse.
pub proof fn more_at_the_exit_moves_less(stmts: Seq<Spanned<TypedExpr>>, exit: Names, exits: Names)
    requires
        exit.subset_of(exits),
    ensures
        marks_block(stmts, exits, exits, no_marks()).last.subset_of(marks_block(stmts, exit, exit, no_marks()).last),
{
    block_agrees(stmts, exit, exit, no_marks());
    block_agrees(stmts, exits, exits, no_marks());
    more_exits_move_less(flow_block(stmts), exit, exits, exit, exits);
}

// ── Names that die ───────────────────────────────────────────────────────

/// Whether a statement with this number stands here, before which the one set
/// of names is live, and after which the other.
pub open spec fn stands(f: Flow, out: Names, exit: Names, id: u32, before: Names, after: Names) -> bool
    decreases f,
{
    match f {
        Flow::InTurn(a, b) => stands(*a, live_in(*b, out, exit), exit, id, before, after) || stands(
            *b,
            out,
            exit,
            id,
            before,
            after,
        ),
        Flow::Either(a, b) => stands(*a, out, exit, id, before, after) || stands(*b, out, exit, id, before, after),
        Flow::Again(a) => stands(*a, out.union(live_in(*a, Set::empty(), exit)), exit, id, before, after),
        Flow::Stmt(x, a) => (x == id && before == live_in(*a, out, exit) && after == out) || stands(
            *a,
            out,
            exit,
            id,
            before,
            after,
        ),
        _ => false,
    }
}

/// What is recorded for a statement; nothing, if nothing is.
pub open spec fn recorded(d: Dying, id: u32) -> Seq<Seq<char>> {
    if d.dom().contains(id) {
        d[id]
    } else {
        Seq::empty()
    }
}

proof fn what_stands_counts(f: Flow, out: Names, exit: Names, id: u32, before: Names, after: Names)
    requires
        stands(f, out, exit, id, before, after),
    ensures
        stmts(f, id) > 0,
    decreases f,
{
    match f {
        Flow::InTurn(a, b) => {
            if stands(*b, out, exit, id, before, after) {
                what_stands_counts(*b, out, exit, id, before, after);
            } else {
                what_stands_counts(*a, live_in(*b, out, exit), exit, id, before, after);
            }
        },
        Flow::Either(a, b) => {
            if stands(*b, out, exit, id, before, after) {
                what_stands_counts(*b, out, exit, id, before, after);
            } else {
                what_stands_counts(*a, out, exit, id, before, after);
            }
        },
        Flow::Again(a) => {
            what_stands_counts(*a, out.union(live_in(*a, Set::empty(), exit)), exit, id, before, after);
        },
        Flow::Stmt(x, a) => {
            if x != id {
                what_stands_counts(*a, out, exit, id, before, after);
            }
        },
        _ => {},
    }
}

proof fn what_counts_stands(f: Flow, out: Names, exit: Names, id: u32) -> (r: (Names, Names))
    requires
        stmts(f, id) > 0,
    ensures
        stands(f, out, exit, id, r.0, r.1),
    decreases f,
{
    match f {
        Flow::InTurn(a, b) => if stmts(*b, id) > 0 {
            what_counts_stands(*b, out, exit, id)
        } else {
            what_counts_stands(*a, live_in(*b, out, exit), exit, id)
        },
        Flow::Either(a, b) => if stmts(*b, id) > 0 {
            what_counts_stands(*b, out, exit, id)
        } else {
            what_counts_stands(*a, out, exit, id)
        },
        Flow::Again(a) => what_counts_stands(*a, out.union(live_in(*a, Set::empty(), exit)), exit, id),
        Flow::Stmt(x, a) => if x == id {
            (live_in(*a, out, exit), out)
        } else {
            what_counts_stands(*a, out, exit, id)
        },
        _ => (out, out),
    }
}

/// Other statements change nothing about this one.
proof fn others_leave_it(f: Flow, out: Names, exit: Names, d: Dying, id: u32)
    requires
        stmts(f, id) == 0,
    ensures
        recorded(dead_in(f, out, exit, d), id) == recorded(d, id),
        dead_in(f, out, exit, d).dom().contains(id) == d.dom().contains(id),
    decreases f,
{
    match f {
        Flow::InTurn(a, b) => {
            others_leave_it(*b, out, exit, d, id);
            others_leave_it(*a, live_in(*b, out, exit), exit, dead_in(*b, out, exit, d), id);
        },
        Flow::Either(a, b) => {
            others_leave_it(*a, out, exit, d, id);
            others_leave_it(*b, out, exit, dead_in(*a, out, exit, d), id);
        },
        Flow::Again(a) => others_leave_it(*a, out.union(live_in(*a, Set::empty(), exit)), exit, d, id),
        Flow::Stmt(_, a) => others_leave_it(*a, out, exit, d, id),
        _ => {},
    }
}

proof fn none_in_order()
    ensures
        in_order(Set::empty()) == Seq::<Seq<char>>::empty(),
{
    let none = Seq::<Seq<char>>::empty();
    assert(none.to_set() =~= Set::<Seq<char>>::empty());
    in_order_is(none);
}

proof fn the_dying_are_recorded(f: Flow, out: Names, exit: Names, d: Dying, id: u32, before: Names, after: Names)
    requires
        stmts(f, id) == 1,
        stands(f, out, exit, id, before, after),
        !d.dom().contains(id),
    ensures
        recorded(dead_in(f, out, exit, d), id) == in_order(before.difference(after)),
    decreases f,
{
    match f {
        Flow::InTurn(a, b) => {
            let mid = live_in(*b, out, exit);
            let d1 = dead_in(*b, out, exit, d);
            if stands(*b, out, exit, id, before, after) {
                what_stands_counts(*b, out, exit, id, before, after);
                the_dying_are_recorded(*b, out, exit, d, id, before, after);
                others_leave_it(*a, mid, exit, d1, id);
            } else {
                what_stands_counts(*a, mid, exit, id, before, after);
                others_leave_it(*b, out, exit, d, id);
                the_dying_are_recorded(*a, mid, exit, d1, id, before, after);
            }
        },
        Flow::Either(a, b) => {
            let d1 = dead_in(*a, out, exit, d);
            if stands(*a, out, exit, id, before, after) {
                what_stands_counts(*a, out, exit, id, before, after);
                the_dying_are_recorded(*a, out, exit, d, id, before, after);
                others_leave_it(*b, out, exit, d1, id);
            } else {
                what_stands_counts(*b, out, exit, id, before, after);
                others_leave_it(*a, out, exit, d, id);
                the_dying_are_recorded(*b, out, exit, d1, id, before, after);
            }
        },
        Flow::Again(a) => {
            the_dying_are_recorded(*a, out.union(live_in(*a, Set::empty(), exit)), exit, d, id, before, after);
        },
        Flow::Stmt(x, a) => {
            none_in_order();
            if x == id {
                others_leave_it(*a, out, exit, d, id);
                if stands(*a, out, exit, id, before, after) {
                    what_stands_counts(*a, out, exit, id, before, after);
                }
                let dying = in_order(before.difference(after));
                assert(Seq::<Seq<char>>::empty() + dying =~= dying);
            } else {
                the_dying_are_recorded(*a, out, exit, d, id, before, after);
            }
        },
        _ => {},
    }
}

/// The names that can be met here, besides those that are needed at the end.
spec fn names_in(f: Flow) -> Names
    decreases f,
{
    match f {
        Flow::Read(_, n) => Set::empty().insert(n),
        Flow::Use(n) => Set::empty().insert(n),
        Flow::InTurn(a, b) => names_in(*a).union(names_in(*b)),
        Flow::Either(a, b) => names_in(*a).union(names_in(*b)),
        Flow::Again(a) => names_in(*a),
        Flow::Stmt(_, a) => names_in(*a),
        _ => Set::empty(),
    }
}

proof fn live_are_met(f: Flow, out: Names, exit: Names)
    ensures
        names_in(f).finite(),
        live_in(f, out, exit).subset_of(out.union(exit).union(names_in(f))),
    decreases f,
{
    match f {
        Flow::InTurn(a, b) => {
            live_are_met(*b, out, exit);
            live_are_met(*a, live_in(*b, out, exit), exit);
        },
        Flow::Either(a, b) => {
            live_are_met(*a, out, exit);
            live_are_met(*b, out, exit);
        },
        Flow::Again(a) => live_are_met(*a, Set::empty(), exit),
        Flow::Stmt(_, a) => live_are_met(*a, out, exit),
        _ => {},
    }
}

proof fn the_dying_are_finite(f: Flow, out: Names, exit: Names, id: u32, before: Names, after: Names)
    requires
        stands(f, out, exit, id, before, after),
        exit.finite(),
    ensures
        before.difference(after).finite(),
    decreases f,
{
    match f {
        Flow::InTurn(a, b) => {
            if stands(*b, out, exit, id, before, after) {
                the_dying_are_finite(*b, out, exit, id, before, after);
            } else {
                the_dying_are_finite(*a, live_in(*b, out, exit), exit, id, before, after);
            }
        },
        Flow::Either(a, b) => {
            if stands(*b, out, exit, id, before, after) {
                the_dying_are_finite(*b, out, exit, id, before, after);
            } else {
                the_dying_are_finite(*a, out, exit, id, before, after);
            }
        },
        Flow::Again(a) => {
            the_dying_are_finite(*a, out.union(live_in(*a, Set::empty(), exit)), exit, id, before, after);
        },
        Flow::Stmt(x, a) => {
            if stands(*a, out, exit, id, before, after) {
                the_dying_are_finite(*a, out, exit, id, before, after);
            } else {
                live_are_met(*a, out, exit);
                let some = exit.union(names_in(*a));
                assert(before.difference(after).subset_of(some));
                assert(before.difference(after) =~= some.intersect(before.difference(after)));
            }
        },
        _ => {},
    }
}

/// A name finds its place among others in order.
proof fn put_in_order(q: Seq<Seq<char>>, n: Seq<char>) -> (r: Seq<Seq<char>>)
    requires
        increasing(q),
        !q.contains(n),
    ensures
        increasing(r),
        r.to_set() == q.to_set().insert(n),
    decreases q.len(),
{
    if q.len() == 0 || text_lt(q.last(), n) {
        let r = q.push(n);
        assert forall|i: int, j: int| 0 <= i < j < r.len() implies #[trigger] text_lt(r[i], r[j]) by {
            if j < q.len() {
                assert(text_lt(q[i], q[j]));
            } else if i < q.len() - 1 {
                assert(text_lt(q[i], q[q.len() - 1]));
                text_lt_transitive(q[i], q.last(), n);
            }
        }
        assert forall|x: Seq<char>| r.to_set().contains(x) == q.to_set().insert(n).contains(x) by {
            if q.contains(x) {
                let k = choose|k: int| 0 <= k < q.len() && q[k] == x;
                assert(r[k] == x);
            }
            if x == n {
                assert(r[q.len() as int] == n);
            }
            if r.contains(x) {
                let k = choose|k: int| 0 <= k < r.len() && r[k] == x;
                if k < q.len() {
                    assert(q[k] == x);
                }
            }
        }
        assert(r.to_set() =~= q.to_set().insert(n));
        r
    } else {
        let front = q.drop_last();
        let top = q.last();
        assert forall|i: int, j: int| 0 <= i < j < front.len() implies #[trigger] text_lt(front[i], front[j]) by {
            assert(text_lt(q[i], q[j]));
        }
        assert(!front.contains(n)) by {
            if front.contains(n) {
                let k = choose|k: int| 0 <= k < front.len() && front[k] == n;
                assert(q[k] == n);
            }
        }
        let less = put_in_order(front, n);
        assert(q[q.len() - 1] == top);
        text_lt_total(top, n);
        let r = less.push(top);
        assert forall|i: int, j: int| 0 <= i < j < r.len() implies #[trigger] text_lt(r[i], r[j]) by {
            if j < less.len() {
                assert(text_lt(less[i], less[j]));
            } else {
                assert(less.to_set().contains(less[i]));
                if less[i] != n {
                    assert(front.contains(less[i]));
                    let k = choose|k: int| 0 <= k < front.len() && front[k] == less[i];
                    assert(text_lt(q[k], q[q.len() - 1]));
                }
            }
        }
        assert forall|x: Seq<char>| r.to_set().contains(x) == q.to_set().insert(n).contains(x) by {
            if q.contains(x) {
                let k = choose|k: int| 0 <= k < q.len() && q[k] == x;
                if k < front.len() {
                    assert(front[k] == x);
                    assert(less.to_set().contains(x));
                }
            }
            if x == n {
                assert(less.to_set().contains(n));
            }
            if less.contains(x) {
                let k = choose|k: int| 0 <= k < less.len() && less[k] == x;
                assert(r[k] == x);
                assert(less.to_set().contains(x));
                if front.contains(x) {
                    let i = choose|i: int| 0 <= i < front.len() && front[i] == x;
                    assert(q[i] == x);
                }
            }
            if x == top {
                assert(r[less.len() as int] == top);
            }
            if r.contains(x) {
                let k = choose|k: int| 0 <= k < r.len() && r[k] == x;
                if k < less.len() {
                    assert(less[k] == x);
                }
            }
        }
        assert(r.to_set() =~= q.to_set().insert(n));
        r
    }
}

/// Finitely many names can be put in order.
pub proof fn can_be_in_order(s: Names)
    requires
        s.finite(),
    ensures
        increasing(in_order(s)),
        in_order(s).to_set() == s,
    decreases s.len(),
{
    if s.len() == 0 {
        assert(s =~= Set::empty());
        none_in_order();
        assert(Seq::<Seq<char>>::empty().to_set() =~= s);
    } else {
        let n = s.choose();
        let rest = s.remove(n);
        can_be_in_order(rest);
        let q = in_order(rest);
        assert(!q.contains(n)) by {
            assert(!q.to_set().contains(n));
        }
        let r = put_in_order(q, n);
        assert(rest.insert(n) =~= s);
        assert(increasing(r) && r.to_set() == s);
    }
}

/// After a statement of a block or of an entry die the names that are live
/// before it and not after it, and they are recorded in increasing order, where
/// each node has a number of its own.
pub proof fn the_dead_after_a_statement(
    stmts: Seq<Spanned<TypedExpr>>,
    exit: Names,
    id: u32,
    before: Names,
    after: Names,
)
    requires
        list_ids(stmts).no_duplicates(),
        exit.finite(),
        stands(flow_block(stmts), exit, exit, id, before, after),
    ensures
        ({
            let q = recorded(marks_block(stmts, exit, exit, no_marks()).dead, id);
            increasing(q) && q.to_set() == before.difference(after)
        }),
{
    let f = flow_block(stmts);
    block_agrees(stmts, exit, exit, no_marks());
    block_stands_once(stmts, id);
    occurs_at_most_once(list_ids(stmts), id);
    what_stands_counts(f, exit, exit, id, before, after);
    the_dying_are_recorded(f, exit, exit, Map::empty(), id, before, after);
    the_dying_are_finite(f, exit, exit, id, before, after);
    can_be_in_order(before.difference(after));
}

/// Nothing dies after what is no statement.
pub proof fn nothing_dies_elsewhere(stmts: Seq<Spanned<TypedExpr>>, exit: Names, id: u32)
    requires
        forall|before: Names, after: Names| !stands(flow_block(stmts), exit, exit, id, before, after),
    ensures
        recorded(marks_block(stmts, exit, exit, no_marks()).dead, id) == Seq::<Seq<char>>::empty(),
{
    let f = flow_block(stmts);
    block_agrees(stmts, exit, exit, no_marks());
    if crate::flow::stmts(f, id) > 0 {
        let (before, after) = what_counts_stands(f, exit, exit, id);
        assert(stands(f, exit, exit, id, before, after));
    }
    others_leave_it(f, exit, exit, Map::empty(), id);
}

/// No name that is needed at the exit dies after the last statement.
pub proof fn no_exit_name_dies_last(stmts: Seq<Spanned<TypedExpr>>, exit: Names, n: Seq<char>)
    requires
        list_ids(stmts).no_duplicates(),
        exit.finite(),
        stmts.len() > 0,
        exit.contains(n),
    ensures
        !recorded(marks_block(stmts, exit, exit, no_marks()).dead, stmts.last().item.id).contains(n),
{
    let id = stmts.last().item.id;
    let before = live_in(flow(stmts.last()), exit, exit);
    let last = Flow::Stmt(id, Box::new(flow(stmts.last())));
    assert(stands(last, exit, exit, id, before, exit));
    assert(stands(in_turn(flow_block(stmts.drop_last()), last), exit, exit, id, before, exit));
    the_dead_after_a_statement(stmts, exit, id, before, exit);
    let q = recorded(marks_block(stmts, exit, exit, no_marks()).dead, id);
    assert(!q.to_set().contains(n));
}

} // verus!
