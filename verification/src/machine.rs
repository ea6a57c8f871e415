//! What operations do when they run.
use crate::ir::{BinOp, Field, Op, Test};
use vstd::prelude::*;

verus! {

/// A truth value as a word.
pub open spec fn flag(b: bool) -> i64 {
    if b {
        1
    } else {
        0
    }
}

/// The word taken as an unsigned number.
pub open spec fn unsigned(a: i64) -> int {
    if a < 0 {
        a + 0x1_0000_0000_0000_0000
    } else {
        a as int
    }
}

/// Whether the comparison holds of two words.
pub open spec fn holds(test: Test, a: i64, b: i64) -> bool {
    match test {
        Test::Equal => a == b,
        Test::NotEqual => a != b,
        Test::Less => a < b,
        Test::Greater => a > b,
        Test::LessEqual => a <= b,
        Test::GreaterEqual => a >= b,
        Test::UnsignedLessEqual => unsigned(a) <= unsigned(b),
    }
}

/// What an operation on two words gives: whole numbers wrap around. Division
/// and floats are given no meaning here.
pub open spec fn arith(op: BinOp, a: i64, b: i64) -> Option<i64> {
    match op {
        BinOp::Iadd => Some(a.wrapping_add(b)),
        BinOp::Isub => Some(a.wrapping_sub(b)),
        BinOp::Imul => Some(a.wrapping_mul(b)),
        BinOp::Bxor => Some(a ^ b),
        BinOp::Band => Some(a & b),
        BinOp::Bor => Some(a | b),
        _ => None,
    }
}

/// A call of a function: which one, and with what.
pub ghost struct Called {
    pub func: usize,
    pub args: Seq<i64>,
}

/// What functions that are called answer, and what they leave in memory. Both
/// may depend on all calls so far.
pub ghost struct Outside {
    pub answers: spec_fn(Seq<Called>) -> Seq<i64>,
    pub leaves: spec_fn(Seq<Called>, Map<(i64, Field), i64>) -> Map<(i64, Field), i64>,
}

/// A function as it runs: the operation that comes next, what each operation
/// and each variable holds, the arguments put down for the next call, jump or
/// branch, the parts of objects in memory, the calls made, and what the last of
/// them answered.
pub ghost struct Machine {
    pub at: int,
    pub vals: Map<int, i64>,
    pub vars: Map<usize, i64>,
    pub args: Seq<i64>,
    pub other: Seq<i64>,
    pub mem: Map<(i64, Field), i64>,
    pub calls: Seq<Called>,
    pub answer: Seq<i64>,
}

impl Machine {
    /// One operation further.
    pub open spec fn next(self) -> Machine {
        Machine { at: self.at + 1, ..self }
    }

    /// One operation further, which gave `v`.
    pub open spec fn gave(self, v: i64) -> Machine {
        Machine { at: self.at + 1, vals: self.vals.insert(self.at, v), ..self }
    }

    /// What an operation gave.
    pub open spec fn val(self, p: usize) -> i64 {
        self.vals[p as int]
    }
}

/// Where the code of a block begins: at the first switch to it.
pub open spec fn switch_of(ops: Seq<Op>, block: usize, from: int) -> int
    decreases ops.len() - from,
{
    if from >= ops.len() {
        ops.len() as int
    } else if ops[from] == (Op::Switch { block }) {
        from
    } else {
        switch_of(ops, block, from + 1)
    }
}

/// The values once the block's parameters, declared from `from` on and before
/// `to`, hold what is given.
pub open spec fn given(
    vals: Map<int, i64>,
    ops: Seq<Op>,
    block: usize,
    from: int,
    to: int,
    args: Seq<i64>,
) -> Map<int, i64>
    decreases to - from,
{
    if from >= to {
        vals
    } else {
        match ops[from] {
            Op::BlockParam { block: b, ty: _ } => if b == block {
                given(vals.insert(from, args[0]), ops, block, from + 1, to, args.skip(1))
            } else {
                given(vals, ops, block, from + 1, to, args)
            },
            _ => given(vals, ops, block, from + 1, to, args),
        }
    }
}

/// The machine once it has entered a block.
pub open spec fn entered(ops: Seq<Op>, m: Machine, block: usize, args: Seq<i64>) -> Machine {
    let s = switch_of(ops, block, block + 1);
    Machine {
        at: s + 1,
        vals: given(m.vals, ops, block, block + 1, s, args),
        args: Seq::empty(),
        other: Seq::empty(),
        ..m
    }
}

/// One operation; nothing where it is given no meaning here.
pub open spec fn step(ops: Seq<Op>, o: Outside, m: Machine) -> Option<Machine> {
    if !(0 <= m.at < ops.len()) {
        None
    } else {
        match ops[m.at] {
            Op::Iconst { ty: _, imm } => Some(m.gave(imm)),
            Op::Binary { op, a, b } => match arith(op, m.val(a), m.val(b)) {
                Some(v) => Some(m.gave(v)),
                None => None,
            },
            Op::BinaryImm { op, a, imm } => match arith(op, m.val(a), imm) {
                Some(v) => Some(m.gave(v)),
                None => None,
            },
            Op::Compare { test, a, b } => Some(m.gave(flag(holds(test, m.val(a), m.val(b))))),
            Op::CompareImm { test, a, imm } => Some(m.gave(flag(holds(test, m.val(a), imm)))),
            Op::Select { cond, a, b } => Some(
                m.gave(
                    if m.val(cond) != 0 {
                        m.val(a)
                    } else {
                        m.val(b)
                    },
                ),
            ),
            Op::Convert { op, a } => if op is Widen && m.val(a) >= 0 {
                Some(m.gave(m.val(a)))
            } else {
                None
            },
            Op::Load { ty: _, base, at } => Some(m.gave(m.mem[(m.val(base), at)])),
            Op::Store { val, base, at } => Some(
                Machine { mem: m.mem.insert((m.val(base), at), m.val(val)), ..m.next() },
            ),
            Op::Var { ty: _ } => Some(m.next()),
            Op::GcVar { var: _ } => Some(m.next()),
            Op::GcValue { val: _ } => Some(m.next()),
            Op::DefVar { var, val } => Some(Machine { vars: m.vars.insert(var, m.val(val)), ..m.next() }),
            Op::UseVar { var } => Some(m.gave(m.vars[var])),
            Op::Block => Some(m.next()),
            Op::BlockParam { block: _, ty: _ } => Some(m.next()),
            Op::Seal { block: _ } => Some(m.next()),
            Op::Arg { val } => Some(Machine { args: m.args.push(m.val(val)), ..m.next() }),
            Op::ElseArg { val } => Some(Machine { other: m.other.push(m.val(val)), ..m.next() }),
            Op::Jump { block } => Some(entered(ops, m, block, m.args)),
            Op::Brif { cond, yes, no } => if m.val(cond) != 0 {
                Some(entered(ops, m, yes, m.args))
            } else {
                Some(entered(ops, m, no, m.other))
            },
            Op::Call { func } => {
                let calls = m.calls.push(Called { func, args: m.args });
                Some(
                    Machine {
                        args: Seq::empty(),
                        other: Seq::empty(),
                        mem: (o.leaves)(calls, m.mem),
                        calls,
                        answer: (o.answers)(calls),
                        ..m.next()
                    },
                )
            },
            Op::Result { index } => Some(m.gave(m.answer[index as int])),
            _ => None,
        }
    }
}

/// `n` operations.
pub open spec fn steps(ops: Seq<Op>, o: Outside, m: Machine, n: nat) -> Option<Machine>
    decreases n,
{
    if n == 0 {
        Some(m)
    } else {
        match step(ops, o, m) {
            Some(k) => steps(ops, o, k, (n - 1) as nat),
            None => None,
        }
    }
}

/// Whether running on from `m` comes to `k`.
pub open spec fn reaches(ops: Seq<Op>, o: Outside, m: Machine, k: Machine) -> bool {
    exists|n: nat| #[trigger] steps(ops, o, m, n) == Some(k)
}

proof fn steps_add_up(ops: Seq<Op>, o: Outside, m: Machine, a: nat, b: nat)
    requires
        steps(ops, o, m, a) is Some,
    ensures
        steps(ops, o, m, a + b) == steps(ops, o, steps(ops, o, m, a)->0, b),
    decreases a,
{
    if a > 0 {
        steps_add_up(ops, o, step(ops, o, m)->0, (a - 1) as nat, b);
    }
}

pub(crate) proof fn on_to(ops: Seq<Op>, o: Outside, m: Machine, k: Machine, l: Machine)
    requires
        reaches(ops, o, m, k),
        reaches(ops, o, k, l),
    ensures
        reaches(ops, o, m, l),
{
    let a = choose|n: nat| #[trigger] steps(ops, o, m, n) == Some(k);
    let b = choose|n: nat| #[trigger] steps(ops, o, k, n) == Some(l);
    steps_add_up(ops, o, m, a, b);
    assert(steps(ops, o, m, a + b) == Some(l));
}

/// From `k`, which was reached, one operation further.
pub(crate) proof fn one_further(ops: Seq<Op>, o: Outside, m: Machine, k: Machine) -> (l: Machine)
    requires
        reaches(ops, o, m, k),
        step(ops, o, k) is Some,
    ensures
        reaches(ops, o, m, l),
        step(ops, o, k) == Some(l),
{
    let l = step(ops, o, k)->0;
    reveal_with_fuel(steps, 2);
    assert(steps(ops, o, k, 1) == Some(l));
    on_to(ops, o, m, k, l);
    l
}

pub(crate) proof fn here(ops: Seq<Op>, o: Outside, m: Machine)
    ensures
        reaches(ops, o, m, m),
{
    assert(steps(ops, o, m, 0) == Some(m));
}

// ── Blocks ───────────────────────────────────────────────────────────────

proof fn the_switch_is_first(ops: Seq<Op>, block: usize, from: int, s: int)
    requires
        0 <= from <= s < ops.len(),
        ops[s] == (Op::Switch { block }),
        forall|i: int| from <= i < s ==> #[trigger] ops[i] != (Op::Switch { block }),
    ensures
        switch_of(ops, block, from) == s,
    decreases s - from,
{
    if from < s {
        assert(ops[from] != (Op::Switch { block }));
        the_switch_is_first(ops, block, from + 1, s);
    }
}

/// Whether the operation declares a parameter of the block.
pub open spec fn declares(op: Op, block: usize) -> bool {
    op matches Op::BlockParam { block: b, ty: _ } && b == block
}

proof fn nothing_is_given(
    vals: Map<int, i64>,
    ops: Seq<Op>,
    block: usize,
    from: int,
    to: int,
    args: Seq<i64>,
)
    requires
        forall|i: int| from <= i < to ==> !declares(#[trigger] ops[i], block),
    ensures
        given(vals, ops, block, from, to, args) == vals,
    decreases to - from,
{
    if from < to {
        assert(!declares(ops[from], block));
        nothing_is_given(vals, ops, block, from + 1, to, args);
    }
}

proof fn one_is_given(
    vals: Map<int, i64>,
    ops: Seq<Op>,
    block: usize,
    from: int,
    p: int,
    to: int,
    args: Seq<i64>,
)
    requires
        from <= p < to,
        declares(ops[p], block),
        forall|i: int| from <= i < to && i != p ==> !declares(#[trigger] ops[i], block),
    ensures
        given(vals, ops, block, from, to, args) == vals.insert(p, args[0]),
    decreases to - from,
{
    if from < p {
        assert(!declares(ops[from], block));
        one_is_given(vals, ops, block, from + 1, p, to, args);
    } else {
        nothing_is_given(vals.insert(p, args[0]), ops, block, from + 1, to, args.skip(1));
    }
}

/// Whether the code of `block`, which has the parameter at `p` if `p` is not
/// negative and none otherwise, begins at `s`.
pub open spec fn begins_at(ops: Seq<Op>, block: usize, p: int, s: int) -> bool {
    &&& block < s < ops.len()
    &&& ops[s] == (Op::Switch { block })
    &&& forall|i: int| block < i < s ==> #[trigger] ops[i] != (Op::Switch { block })
    &&& forall|i: int| block < i < s && i != p ==> !declares(#[trigger] ops[i], block)
    &&& p >= 0 ==> block < p < s && declares(ops[p], block)
}

/// Entering such a block.
pub(crate) proof fn enters(ops: Seq<Op>, m: Machine, block: usize, p: int, s: int, args: Seq<i64>)
    requires
        begins_at(ops, block, p, s),
    ensures
        entered(ops, m, block, args) == (Machine {
            at: s + 1,
            vals: if p >= 0 {
                m.vals.insert(p, args[0])
            } else {
                m.vals
            },
            args: Seq::empty(),
            other: Seq::empty(),
            ..m
        }),
{
    the_switch_is_first(ops, block, block + 1, s);
    if p >= 0 {
        one_is_given(m.vals, ops, block, block + 1, p, s, args);
    } else {
        nothing_is_given(m.vals, ops, block, block + 1, s, args);
    }
}

} // verus!
