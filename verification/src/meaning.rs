//! What programs of numbers, truth values, names, branches and counted loops
//! mean, and the shape of the code that they are lowered to.
use crate::emit::{get_or_declare_var_code, machine};
use crate::ir::{emit_code, find_var, put_code, ClType, Code, Op};
use crate::lower::logical;
use crate::machine::{flag, holds};
use crate::tokens::{Spanned, Token};
use crate::typed_ast::{TypedExpr, TypedExprKind};
use crate::types::Ty;
use vstd::prelude::*;

verus! {

// ── What a program means ─────────────────────────────────────────────────

/// A value that is one word and nothing in memory.
pub ghost enum Val {
    Num(i64),
    Truth(bool),
    Unit,
}

impl Val {
    /// The word that stands for it.
    pub open spec fn word(self) -> i64 {
        match self {
            Val::Num(n) => n,
            Val::Truth(b) => flag(b),
            Val::Unit => 0,
        }
    }
}

/// What names hold.
pub type Names = Map<Seq<char>, Val>;

/// The types of such values.
pub open spec fn scalar(ty: Ty) -> bool {
    ty is Int || ty is Bool || ty is Nil
}

/// Whether the expression is made of numbers, truth values, names of such,
/// assignments, blocks, branches that both have a value, and loops over ranges,
/// and typed accordingly. Nothing is divided.
pub open spec fn plain(e: Spanned<TypedExpr>) -> bool
    decreases e,
{
    let ty = e.item.ty@;
    match e.item.kind {
        TypedExprKind::IntLit(_) => true,
        TypedExprKind::BoolLit(_) => true,
        TypedExprKind::Var(_) => scalar(ty),
        TypedExprKind::Unary { op, expr } => plain(*expr) && ((op is Minus && !(expr.item.ty@ is Float)) || op is Not),
        TypedExprKind::Binary { op, left, right } => {
            &&& plain(*left)
            &&& plain(*right)
            &&& scalar(left.item.ty@)
            &&& left.item.ty@ == right.item.ty@
            &&& logical(op) || op is Plus || op is Minus || op is Star || compared(op)
        },
        TypedExprKind::Conditional { cond, true_branch, false_branch } => {
            &&& ty is Int || ty is Bool
            &&& plain(*cond)
            &&& plain(*true_branch)
            &&& true_branch.item.ty@ == ty
            &&& false_branch matches Some(other) && plain(*other) && other.item.ty@ == ty
        },
        TypedExprKind::Assign { name: _, value } => plain(*value) && scalar(value.item.ty@),
        TypedExprKind::Block(stmts) => stmts@.len() > 0 && all_plain(stmts@, stmts@.len()),
        TypedExprKind::ForLoop { var: _, iterable, cond, body, iter_via: _ } => {
            &&& iterable.item.ty@.is_range()
            &&& iterable.item.ty@.elem() is Int
            &&& match iterable.item.kind {
                TypedExprKind::Range { start, end } => plain(*start) && plain(*end),
                _ => false,
            }
            &&& match cond {
                Some(g) => plain(*g),
                None => true,
            }
            &&& plain(*body)
        },
        _ => false,
    }
}

/// Whether the first `n` statements are such.
pub open spec fn all_plain(stmts: Seq<Spanned<TypedExpr>>, n: nat) -> bool
    decreases stmts, n,
{
    n > 0 && n <= stmts.len() ==> all_plain(stmts, (n - 1) as nat) && plain(stmts[n - 1])
}

/// Whether the operator compares.
pub open spec fn compared(op: Token) -> bool {
    op is EqEq || op is NotEq || op is Lt || op is Gt || op is LtEq || op is GtEq
}

/// What an operator makes of two values, both of which it has. Whole numbers
/// wrap around.
pub open spec fn combined(op: Token, l: Val, r: Val) -> Option<Val> {
    match (l, r) {
        (Val::Num(a), Val::Num(b)) => match op {
            Token::Plus => Some(Val::Num(a.wrapping_add(b))),
            Token::Minus => Some(Val::Num(a.wrapping_sub(b))),
            Token::Star => Some(Val::Num(a.wrapping_mul(b))),
            Token::EqEq => Some(Val::Truth(a == b)),
            Token::NotEq => Some(Val::Truth(a != b)),
            Token::Lt => Some(Val::Truth(a < b)),
            Token::Gt => Some(Val::Truth(a > b)),
            Token::LtEq => Some(Val::Truth(a <= b)),
            Token::GtEq => Some(Val::Truth(a >= b)),
            _ => None,
        },
        (Val::Truth(a), Val::Truth(b)) => match op {
            Token::EqEq => Some(Val::Truth(a == b)),
            Token::NotEq => Some(Val::Truth(a != b)),
            _ => None,
        },
        _ => None,
    }
}

/// What a program comes to, and what names hold after it. It comes to nothing
/// where a name is read that holds nothing, or a value is not of the kind that
/// is asked for.
pub open spec fn means(e: Spanned<TypedExpr>, env: Names) -> Option<(Val, Names)>
    decreases e, 1int, 0int,
{
    match e.item.kind {
        TypedExprKind::IntLit(n) => Some((Val::Num(n), env)),
        TypedExprKind::BoolLit(b) => Some((Val::Truth(b), env)),
        TypedExprKind::Var(name) => if env.contains_key(name@) {
            Some((env[name@], env))
        } else {
            None
        },
        TypedExprKind::Unary { op, expr } => match means(*expr, env) {
            Some((Val::Num(a), env)) => if op is Minus {
                Some((Val::Num(0i64.wrapping_sub(a)), env))
            } else {
                None
            },
            Some((Val::Truth(a), env)) => if op is Not {
                Some((Val::Truth(!a), env))
            } else {
                None
            },
            _ => None,
        },
        TypedExprKind::Binary { op, left, right } => match means(*left, env) {
            Some((l, env)) => if op is And || op is Or {
                match l {
                    Val::Truth(a) => if a == (op is Or) {
                        Some((l, env))
                    } else {
                        match means(*right, env) {
                            Some((Val::Truth(b), env)) => Some((Val::Truth(b), env)),
                            _ => None,
                        }
                    },
                    _ => None,
                }
            } else {
                match means(*right, env) {
                    Some((r, env)) => match combined(op, l, r) {
                        Some(v) => Some((v, env)),
                        None => None,
                    },
                    None => None,
                }
            },
            None => None,
        },
        TypedExprKind::Conditional { cond, true_branch, false_branch } => match means(*cond, env) {
            Some((Val::Truth(true), env)) => means(*true_branch, env),
            Some((Val::Truth(false), env)) => match false_branch {
                Some(other) => means(*other, env),
                None => None,
            },
            _ => None,
        },
        TypedExprKind::Assign { name, value } => match means(*value, env) {
            Some((v, env)) => Some((v, env.insert(name@, v))),
            None => None,
        },
        TypedExprKind::Block(stmts) => all_mean(stmts@, env, stmts@.len()),
        TypedExprKind::ForLoop { var: _, iterable, cond: _, body: _, iter_via: _ } => match iterable.item.kind {
            TypedExprKind::Range { start, end } => match means(*start, env) {
                Some((Val::Num(from), env)) => match means(*end, env) {
                    Some((Val::Num(to), env)) => match turns(e, from as int, to as int, env) {
                        Some(env) => Some((Val::Unit, env)),
                        None => None,
                    },
                    _ => None,
                },
                _ => None,
            },
            _ => None,
        },
        _ => None,
    }
}

/// What the first `n` statements come to, one after the other: to what the last
/// does.
pub open spec fn all_mean(stmts: Seq<Spanned<TypedExpr>>, env: Names, n: nat) -> Option<(Val, Names)>
    decreases stmts, 0int, n,
{
    if n == 0 || n > stmts.len() {
        Some((Val::Unit, env))
    } else {
        match all_mean(stmts, env, (n - 1) as nat) {
            Some((_, env)) => means(stmts[n - 1], env),
            None => None,
        }
    }
}

/// What names hold after the turns of a loop for `k`, `k + 1` and so on, up to
/// but without `end`: in each turn the loop's variable holds the number, and the
/// body is run if there is no guard or the guard is true.
pub open spec fn turns(e: Spanned<TypedExpr>, k: int, end: int, env: Names) -> Option<Names>
    decreases e, 0int, end - k,
{
    match e.item.kind {
        TypedExprKind::ForLoop { var, iterable: _, cond, body, iter_via: _ } => if k >= end {
            Some(env)
        } else {
            let env = env.insert(var@, Val::Num(k as i64));
            let guard = match cond {
                Some(g) => means(*g, env),
                None => Some((Val::Truth(true), env)),
            };
            match guard {
                Some((Val::Truth(true), env)) => match means(*body, env) {
                    Some((_, env)) => turns(e, k + 1, end, env),
                    None => None,
                },
                Some((Val::Truth(false), env)) => turns(e, k + 1, end, env),
                _ => None,
            }
        },
        _ => None,
    }
}

// ── The code ─────────────────────────────────────────────────────────────

/// Whether `ops` begins with `front`.
pub open spec fn starts(ops: Seq<Op>, front: Seq<Op>) -> bool {
    front.len() <= ops.len() && forall|i: int| 0 <= i < front.len() ==> #[trigger] ops[i] == front[i]
}

/// Whether the operation leaves the blocks before `n` alone.
pub open spec fn own(op: Op, n: nat) -> bool {
    match op {
        Op::Switch { block } => n <= block,
        Op::BlockParam { block, ty: _ } => n <= block,
        _ => true,
    }
}

/// Whether every name has a variable to itself, made by an operation of `c`.
pub open spec fn tidy(c: Code) -> bool {
    &&& forall|a: Seq<char>| (#[trigger] find_var(c.vars, a)) matches Some(v) ==> v < c.ops.len()
    &&& forall|a: Seq<char>, b: Seq<char>|
        a != b && (#[trigger] find_var(c.vars, a)) is Some ==> (#[trigger] find_var(c.vars, b)) != find_var(c.vars, a)
}

/// Whether `d` is `c` with code after it that has blocks of its own, and leaves
/// every name its variable. A fault stays.
pub open spec fn grows(c: Code, d: Code) -> bool {
    &&& starts(d.ops, c.ops)
    &&& d.ops.len() <= usize::MAX ==> forall|i: int|
        c.ops.len() <= i < d.ops.len() ==> own(#[trigger] d.ops[i], c.ops.len())
    &&& forall|a: Seq<char>|
        find_var(c.vars, a) is Some ==> #[trigger] find_var(d.vars, a) == find_var(c.vars, a)
    &&& d.ops.len() <= usize::MAX && tidy(c) ==> tidy(d)
    &&& d.fault is None ==> c.fault is None
}

/// Whether `d` is `c` with more code after it, in which every name keeps its
/// variable. A fault stays.
pub open spec fn extends(c: Code, d: Code) -> bool {
    &&& starts(d.ops, c.ops)
    &&& forall|a: Seq<char>|
        find_var(c.vars, a) is Some ==> #[trigger] find_var(d.vars, a) == find_var(c.vars, a)
    &&& d.fault is None ==> c.fault is None
}

pub(crate) proof fn extends_on(a: Code, b: Code, c: Code)
    requires
        extends(a, b),
        extends(b, c),
    ensures
        extends(a, c),
{
    assert forall|i: int| 0 <= i < a.ops.len() implies #[trigger] c.ops[i] == a.ops[i] by {
        assert(b.ops[i] == a.ops[i]);
    }
    assert forall|n: Seq<char>| find_var(a.vars, n) is Some implies #[trigger] find_var(c.vars, n) == find_var(
        a.vars,
        n,
    ) by {
        assert(find_var(b.vars, n) == find_var(a.vars, n));
    }
}

pub(crate) proof fn grows_on(a: Code, b: Code, c: Code)
    requires
        grows(a, b),
        grows(b, c),
    ensures
        grows(a, c),
{
    assert forall|i: int| 0 <= i < a.ops.len() implies #[trigger] c.ops[i] == a.ops[i] by {
        assert(b.ops[i] == a.ops[i]);
    }
    if c.ops.len() <= usize::MAX {
        assert forall|i: int| a.ops.len() <= i < c.ops.len() implies own(#[trigger] c.ops[i], a.ops.len()) by {
            if i < b.ops.len() {
                assert(c.ops[i] == b.ops[i]);
                assert(own(b.ops[i], a.ops.len()));
            }
        }
    }
    assert forall|n: Seq<char>| find_var(a.vars, n) is Some implies #[trigger] find_var(c.vars, n) == find_var(
        a.vars,
        n,
    ) by {
        assert(find_var(b.vars, n) == find_var(a.vars, n));
    }
}

/// One operation more.
pub(crate) proof fn grows_by(c: Code, d: Code, op: Op)
    requires
        grows(c, d),
        d.ops.len() < usize::MAX ==> own(op, c.ops.len()),
    ensures
        grows(c, emit_code(d, op)),
        put_code(d, op) == (d.ops.len() as usize, emit_code(d, op)),
{
    let e = emit_code(d, op);
    if e.ops.len() <= usize::MAX {
        assert forall|i: int| c.ops.len() <= i < e.ops.len() implies own(#[trigger] e.ops[i], c.ops.len()) by {
            if i < d.ops.len() {
                assert(own(d.ops[i], c.ops.len()));
            }
        }
    }
}

/// `c` with the value set to a name.
pub open spec fn set_code(c: Code, name: Seq<char>, ty: Ty, val: usize) -> Code {
    let (var, d) = get_or_declare_var_code(c, name, ty);
    emit_code(d, Op::DefVar { var, val })
}

pub(crate) proof fn setting_grows(c: Code, name: Seq<char>, ty: Ty, val: usize)
    requires
        scalar(ty),
    ensures
        grows(c, set_code(c, name, ty, val)),
        find_var(set_code(c, name, ty, val).vars, name) is Some,
        find_var(c.vars, name) is Some ==> set_code(c, name, ty, val) == emit_code(
            c,
            Op::DefVar { var: find_var(c.vars, name)->0, val },
        ),
        find_var(c.vars, name) is None ==> set_code(c, name, ty, val).ops == c.ops.push(
            Op::Var { ty: machine(ty) },
        ).push(Op::DefVar { var: c.ops.len() as usize, val }) && find_var(set_code(c, name, ty, val).vars, name) == Some(
            c.ops.len() as usize,
        ),
{
    let d = set_code(c, name, ty, val);
    if find_var(c.vars, name) is None {
        let v = c.ops.len() as usize;
        let vars = c.vars.push((name, v));
        assert(vars.drop_last() =~= c.vars);
        assert(vars.last() == (name, v));
        assert(d.vars == vars);
        assert forall|a: Seq<char>| a != name implies #[trigger] find_var(d.vars, a) == find_var(c.vars, a) by {}
        assert(find_var(d.vars, name) == Some(v));
    }
}

/// `and` and `or` up to their right side, after code that left `v`.
pub open spec fn forked_code(d: Code, v: usize, both: bool) -> Code {
    let n = d.ops.len();
    let rhs = n as usize;
    let merge = (n + 1) as usize;
    let known = (n + 3) as usize;
    let c = emit_code(emit_code(d, Op::Block), Op::Block);
    let c = emit_code(c, Op::BlockParam { block: merge, ty: ClType::I8 });
    let c = emit_code(c, Op::Iconst { ty: ClType::I8, imm: if both { 0i64 } else { 1i64 } });
    let c = if both {
        emit_code(emit_code(c, Op::ElseArg { val: known }), Op::Brif { cond: v, yes: rhs, no: merge })
    } else {
        emit_code(emit_code(c, Op::Arg { val: known }), Op::Brif { cond: v, yes: merge, no: rhs })
    };
    emit_code(emit_code(c, Op::Switch { block: rhs }), Op::Seal { block: rhs })
}

pub(crate) proof fn a_fork_grows(d: Code, v: usize, both: bool)
    ensures
        grows(d, forked_code(d, v, both)),
        forked_code(d, v, both).ops.len() == d.ops.len() + 8,
        forked_code(d, v, both).vars == d.vars,
{
}

/// A conditional up to its first branch, after code that left `v`.
pub open spec fn opened_code(d: Code, v: usize, ty: ClType) -> Code {
    let n = d.ops.len();
    let yes = n as usize;
    let no = (n + 1) as usize;
    let merge = (n + 2) as usize;
    let c = emit_code(emit_code(emit_code(d, Op::Block), Op::Block), Op::Block);
    let c = emit_code(c, Op::BlockParam { block: merge, ty });
    let c = emit_code(c, Op::Brif { cond: v, yes, no });
    emit_code(emit_code(c, Op::Switch { block: yes }), Op::Seal { block: yes })
}

pub(crate) proof fn an_opening_grows(d: Code, v: usize, ty: ClType)
    ensures
        grows(d, opened_code(d, v, ty)),
        opened_code(d, v, ty).ops.len() == d.ops.len() + 7,
        opened_code(d, v, ty).vars == d.vars,
{
}

/// The value `v` taken along to the block `to`, and on in the block `from`.
pub open spec fn crossed_code(d: Code, v: usize, to: usize, from: usize) -> Code {
    let c = emit_code(emit_code(d, Op::Arg { val: v }), Op::Jump { block: to });
    emit_code(emit_code(c, Op::Switch { block: from }), Op::Seal { block: from })
}

pub(crate) proof fn a_crossing_grows(c: Code, d: Code, v: usize, to: usize, from: usize)
    requires
        grows(c, d),
        d.ops.len() + 4 <= usize::MAX ==> from >= c.ops.len(),
    ensures
        grows(c, crossed_code(d, v, to, from)),
        crossed_code(d, v, to, from).ops.len() == d.ops.len() + 4,
        crossed_code(d, v, to, from).vars == d.vars,
{
    let c1 = emit_code(d, Op::Arg { val: v });
    let c2 = emit_code(c1, Op::Jump { block: to });
    let c3 = emit_code(c2, Op::Switch { block: from });
    let c4 = emit_code(c3, Op::Seal { block: from });
    if c4.ops.len() <= usize::MAX {
        grows_by(c, d, Op::Arg { val: v });
        grows_by(c, c1, Op::Jump { block: to });
        grows_by(c, c2, Op::Switch { block: from });
        grows_by(c, c3, Op::Seal { block: from });
    } else {
        assert(starts(c4.ops, c.ops));
    }
}

} // verus!
