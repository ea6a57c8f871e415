//! The calls that operations are made into do what the operations say.
use crate::ir::{BinOp, ClType, Conv, Op, Test};
use crate::native::{
    block_at, emitted, fit, mem_of, nums, offset_of, slot_at, ty_at, var_at, Form, Made, Mem, RowView, Seat, World,
};
use vstd::prelude::*;

verus! {

/// What instructions compute: of the words that are their operands, in order.
/// Nothing is settled here about what that is, so that what is shown holds of
/// every machine.
pub ghost struct Machine {
    pub constant: spec_fn(ClType, i64) -> i64,
    pub float: spec_fn(u64) -> i64,
    pub binary: spec_fn(BinOp, ClType, i64, i64) -> i64,
    pub convert: spec_fn(Conv, i64) -> i64,
    pub compare: spec_fn(Test, i64, i64) -> i64,
    pub float_compare: spec_fn(Test, i64, i64) -> i64,
    /// What memory holds, at an address and this far from it.
    pub load: spec_fn(ClType, Mem, i64, int) -> i64,
    /// What a stack slot holds, so many bytes in.
    pub stack: spec_fn(int, int) -> i64,
    pub stack_addr: spec_fn(int) -> i64,
    /// What a variable holds.
    pub var: spec_fn(int) -> i64,
}

/// What something does beyond giving a value. Blocks, variables and stack slots
/// go by the operation that made them, functions by their declaration.
pub ghost enum Deed {
    Nothing,
    Store { mem: Mem, val: i64, base: i64, offset: int },
    StackStore { val: i64, slot: int, offset: int },
    Define { var: int, val: i64 },
    Enter { block: int },
    Seal { block: int },
    Root { val: i64 },
    RootVar { var: int },
    Jump { block: int, args: Seq<i64> },
    Branch { block: int, args: Seq<i64> },
    Return { args: Seq<i64> },
    Trap { code: u8 },
    Call { id: u32, local: bool, args: Seq<i64> },
}

// ── Operations ───────────────────────────────────────────────────────────

/// The words of values.
pub open spec fn words(vals: Map<int, i64>, ps: Seq<usize>) -> Seq<i64> {
    ps.map_values(|p: usize| vals[p as int])
}

/// What an operation gives, where `vals` are what the operations before it
/// gave.
pub open spec fn gives(op: Op, vals: Map<int, i64>, f: Form, w: World, m: Machine) -> Option<i64> {
    match op {
        Op::Iconst { ty, imm } => Some((m.constant)(ty, imm)),
        Op::F64const { bits } => Some((m.float)(bits)),
        Op::StrAddr { index } => Some((m.constant)(ClType::I64, w.target.strings@[index as int])),
        Op::NoneWord => Some((m.constant)(ClType::I64, w.target.none_word)),
        Op::Binary { op, a, b } => Some((m.binary)(op, ty_at(f, a)->0, vals[a as int], vals[b as int])),
        Op::BinaryImm { op, a, imm } => {
            let ty = ty_at(f, a)->0;
            Some((m.binary)(op, ty, vals[a as int], (m.constant)(ty, imm)))
        },
        Op::Convert { op, a } => Some((m.convert)(op, vals[a as int])),
        Op::Compare { test, a, b } => Some((m.compare)(test, vals[a as int], vals[b as int])),
        Op::CompareImm { test, a, imm } => Some(
            (m.compare)(test, vals[a as int], (m.constant)(ty_at(f, a)->0, imm)),
        ),
        Op::FloatCompare { test, a, b } => Some((m.float_compare)(test, vals[a as int], vals[b as int])),
        Op::Select { cond, a, b } => Some(
            if vals[cond as int] != 0 {
                vals[a as int]
            } else {
                vals[b as int]
            },
        ),
        Op::Load { ty, base, at } => Some((m.load)(ty, mem_of(at), vals[base as int], offset_of(w.target, at))),
        Op::StackLoad { slot, word } => Some((m.stack)(slot as int, word * 8)),
        Op::StackAddr { slot } => Some((m.stack_addr)(slot as int)),
        Op::UseVar { var } => Some((m.var)(var as int)),
        _ => None,
    }
}

/// What an operation does.
pub open spec fn deed(op: Op, vals: Map<int, i64>, f: Form, w: World) -> Deed {
    match op {
        Op::Store { val, base, at } => Deed::Store {
            mem: mem_of(at),
            val: vals[val as int],
            base: vals[base as int],
            offset: offset_of(w.target, at),
        },
        Op::StackStore { val, slot, word } => Deed::StackStore {
            val: vals[val as int],
            slot: slot as int,
            offset: word * 8,
        },
        Op::DefVar { var, val } => Deed::Define { var: var as int, val: vals[val as int] },
        Op::GcVar { var } => Deed::RootVar { var: var as int },
        Op::GcValue { val } => Deed::Root { val: vals[val as int] },
        Op::Switch { block } => Deed::Enter { block: block as int },
        Op::Seal { block } => Deed::Seal { block: block as int },
        Op::Jump { block } => Deed::Jump { block: block as int, args: words(vals, f.args) },
        Op::Brif { cond, yes, no } => if vals[cond as int] != 0 {
            Deed::Branch { block: yes as int, args: words(vals, f.args) }
        } else {
            Deed::Branch { block: no as int, args: words(vals, f.others) }
        },
        Op::Return => Deed::Return { args: words(vals, f.args) },
        Op::Trap { code } => Deed::Trap { code },
        Op::Call { func } => Deed::Call {
            id: w.ids[func as int],
            local: !w.decls[func as int].import,
            args: words(vals, f.args),
        },
        _ => Deed::Nothing,
    }
}

// ── Calls of the builder ─────────────────────────────────────────────────

/// What is known of the numbers that a builder gave: the word of a value, the
/// operation that made a block, a variable or a slot, the index of an imported
/// name, and the name and kind of an imported function.
pub ghost struct Book {
    pub vals: Map<u32, i64>,
    pub blocks: Map<u32, int>,
    pub vars: Map<u32, int>,
    pub slots: Map<u32, int>,
    pub names: Map<u32, u32>,
    pub funcs: Map<u32, (u32, bool)>,
}

pub open spec fn words_of(book: Book, vs: Seq<u32>) -> Seq<i64> {
    vs.map_values(|v: u32| book.vals[v])
}

/// The book with the word of one more value.
pub open spec fn noted(book: Book, val: u32, word: i64) -> Book {
    Book { vals: book.vals.insert(val, word), ..book }
}

/// The book after a call.
pub open spec fn booked(book: Book, call: Made, m: Machine) -> Book {
    match call {
        Made::Const { ty, imm, val } => noted(book, val, (m.constant)(ty, imm)),
        Made::Float { bits, val } => noted(book, val, (m.float)(bits)),
        Made::Binary { op, ty, x, y, val } => noted(book, val, (m.binary)(op, ty, book.vals[x], book.vals[y])),
        Made::Unary { op, x, val } => noted(book, val, (m.convert)(op, book.vals[x])),
        Made::Bitcast { ty, x, val } => noted(
            book,
            val,
            (m.convert)(
                if ty == ClType::F64 {
                    Conv::BitsFloat
                } else {
                    Conv::FloatBits
                },
                book.vals[x],
            ),
        ),
        Made::Compare { test, x, y, val } => noted(book, val, (m.compare)(test, book.vals[x], book.vals[y])),
        Made::FloatCompare { test, x, y, val } => noted(
            book,
            val,
            (m.float_compare)(test, book.vals[x], book.vals[y]),
        ),
        Made::Select { ty: _, cond, x, y, val } => noted(
            book,
            val,
            if book.vals[cond] != 0 {
                book.vals[x]
            } else {
                book.vals[y]
            },
        ),
        Made::Load { ty, mem, base, offset, val } => noted(
            book,
            val,
            (m.load)(ty, mem, book.vals[base], offset as int),
        ),
        Made::StackLoad { slot, offset, val } => noted(book, val, (m.stack)(book.slots[slot], offset as int)),
        Made::StackAddr { slot, val } => noted(book, val, (m.stack_addr)(book.slots[slot])),
        Made::Use { var, ty: _, val } => noted(book, val, (m.var)(book.vars[var])),
        Made::Name { index, name } => Book { names: book.names.insert(name, index), ..book },
        Made::Import { name, sig: _, local, func } => Book {
            funcs: book.funcs.insert(func, (book.names[name], local)),
            ..book
        },
        _ => book,
    }
}

/// What a call does.
pub open spec fn done(book: Book, call: Made) -> Deed {
    match call {
        Made::Store { mem, val, base, offset } => Deed::Store {
            mem,
            val: book.vals[val],
            base: book.vals[base],
            offset: offset as int,
        },
        Made::StackStore { val, slot, offset } => Deed::StackStore {
            val: book.vals[val],
            slot: book.slots[slot],
            offset: offset as int,
        },
        Made::Def { var, val } => Deed::Define { var: book.vars[var], val: book.vals[val] },
        Made::GcVar { var } => Deed::RootVar { var: book.vars[var] },
        Made::GcValue { val } => Deed::Root { val: book.vals[val] },
        Made::Switch { block } => Deed::Enter { block: book.blocks[block] },
        Made::Seal { block } => Deed::Seal { block: book.blocks[block] },
        Made::Jump { block, args } => Deed::Jump { block: book.blocks[block], args: words_of(book, args) },
        Made::Brif { cond, yes, args, no, others } => if book.vals[cond] != 0 {
            Deed::Branch { block: book.blocks[yes], args: words_of(book, args) }
        } else {
            Deed::Branch { block: book.blocks[no], args: words_of(book, others) }
        },
        Made::Return { args } => Deed::Return { args: words_of(book, args) },
        Made::Trap { code } => Deed::Trap { code },
        Made::Call { func, args, tys: _, vals: _ } => Deed::Call {
            id: book.funcs[func].0,
            local: book.funcs[func].1,
            args: words_of(book, args),
        },
        _ => Deed::Nothing,
    }
}

/// The book after calls.
pub open spec fn after_calls(book: Book, calls: Seq<Made>, m: Machine) -> Book
    decreases calls.len(),
{
    if calls.len() == 0 {
        book
    } else {
        booked(after_calls(book, calls.drop_last(), m), calls.last(), m)
    }
}

/// What the last of calls does.
pub open spec fn last_deed(book: Book, calls: Seq<Made>, m: Machine) -> Deed {
    if calls.len() == 0 {
        Deed::Nothing
    } else {
        done(after_calls(book, calls.drop_last(), m), calls.last())
    }
}

// ── The law ──────────────────────────────────────────────────────────────

/// Whether the numbers in `rows` stand, in the book, for what the operations
/// left behind.
pub open spec fn books_agree(book: Book, vals: Map<int, i64>, rows: Seq<RowView>, f: Form) -> bool {
    &&& forall|p: int| 0 <= p < f.seats.len() && f.seats[p] is Val ==> book.vals[(#[trigger] rows[p]).num] == vals[p]
    &&& forall|p: int| 0 <= p < f.seats.len() && f.seats[p] is Block ==> book.blocks[(#[trigger] rows[p]).num] == p
    &&& forall|p: int| 0 <= p < f.seats.len() && f.seats[p] is Var ==> book.vars[(#[trigger] rows[p]).num] == p
    &&& forall|p: int| 0 <= p < f.seats.len() && f.seats[p] is Slot ==> book.slots[(#[trigger] rows[p]).num] == p
}

/// Whether the numbers that came back for the operation are new.
pub open spec fn new_numbers(rows: Seq<RowView>, f: Form) -> bool {
    forall|p: int, k: int|
        0 <= p < f.seats.len() && f.seats[p] is Val && 0 <= k < rows.last().extra.len() ==> (#[trigger] rows[p]).num
            != #[trigger] rows.last().extra[k]
}

proof fn args_agree(book: Book, vals: Map<int, i64>, rows: Seq<RowView>, f: Form, ps: Seq<usize>)
    requires
        books_agree(book, vals, rows, f),
        rows.len() > f.seats.len(),
        forall|i: int| 0 <= i < ps.len() ==> ty_at(f, #[trigger] ps[i]) is Some,
    ensures
        words_of(book, nums(rows, ps)) == words(vals, ps),
{
    assert forall|i: int| 0 <= i < ps.len() implies #[trigger] words_of(book, nums(rows, ps))[i] == words(vals, ps)[i] by {
        assert(ty_at(f, ps[i]) is Some);
        assert(book.vals[rows[ps[i] as int].num] == vals[ps[i] as int]);
    }
    assert(words_of(book, nums(rows, ps)) =~= words(vals, ps));
}

/// What the numbers of an operand stand for.
proof fn operand_agrees(book: Book, vals: Map<int, i64>, rows: Seq<RowView>, f: Form, p: usize)
    requires
        books_agree(book, vals, rows, f),
        rows.len() > f.seats.len(),
    ensures
        ty_at(f, p) is Some ==> book.vals[rows[p as int].num] == vals[p as int],
        block_at(f, p) is Some ==> book.blocks[rows[p as int].num] == p,
        var_at(f, p) is Some ==> book.vars[rows[p as int].num] == p,
        slot_at(f, p) is Some ==> book.slots[rows[p as int].num] == p,
{
    if p < f.seats.len() {
        let r = rows[p as int];
    }
}

/// Whether the operation, the numbers and the book belong together.
pub open spec fn in_step(f: Form, op: Op, rows: Seq<RowView>, w: World, vals: Map<int, i64>, book: Book) -> bool {
    &&& fit(f, op, w) is Some
    &&& rows.len() == f.seats.len() + 1
    &&& forall|i: int| 0 <= i < f.args.len() ==> ty_at(f, #[trigger] f.args[i]) is Some
    &&& forall|i: int| 0 <= i < f.others.len() ==> ty_at(f, #[trigger] f.others[i]) is Some
    &&& forall|i: int| 0 <= i < f.slots.len() ==> #[trigger] f.slots[i] <= i32::MAX
    &&& forall|p: int| 0 <= p < f.seats.len() ==> (#[trigger] f.seats[p] matches Seat::Slot(k) ==> 0 <= k
        < f.slots.len())
    &&& books_agree(book, vals, rows, f)
    &&& new_numbers(rows, f)
    &&& op is BinaryImm || op is CompareImm ==> rows.last().extra.len() == 1
}

/// Whatever instructions compute, the calls that an operation is made into
/// leave the value behind that the operation gives, of the same operands in the
/// same order.
pub proof fn calls_give_what_the_operation_gives(
    f: Form,
    op: Op,
    rows: Seq<RowView>,
    w: World,
    vals: Map<int, i64>,
    book: Book,
    m: Machine,
)
    requires
        in_step(f, op, rows, w, vals, book),
        gives(op, vals, f, w, m) is Some,
    ensures
        Some(after_calls(book, emitted(f, op, rows, w), m).vals[rows.last().num]) == gives(op, vals, f, w, m),
{
    let calls = emitted(f, op, rows, w);
    let me = rows.last();
    reveal_with_fuel(after_calls, 3);
    match op {
        Op::Binary { op: _, a, b } => {
            operand_agrees(book, vals, rows, f, a);
            operand_agrees(book, vals, rows, f, b);
        },
        Op::BinaryImm { op: _, a, imm: _ } => {
            operand_agrees(book, vals, rows, f, a);
            assert(rows[a as int].num != me.extra[0]);
            assert(calls.drop_last() =~= seq![calls[0]]);
        },
        Op::Convert { op: _, a } => {
            operand_agrees(book, vals, rows, f, a);
        },
        Op::Compare { test: _, a, b } => {
            operand_agrees(book, vals, rows, f, a);
            operand_agrees(book, vals, rows, f, b);
        },
        Op::CompareImm { test: _, a, imm: _ } => {
            operand_agrees(book, vals, rows, f, a);
            assert(rows[a as int].num != me.extra[0]);
            assert(calls.drop_last() =~= seq![calls[0]]);
        },
        Op::FloatCompare { test: _, a, b } => {
            operand_agrees(book, vals, rows, f, a);
            operand_agrees(book, vals, rows, f, b);
        },
        Op::Select { cond, a, b } => {
            operand_agrees(book, vals, rows, f, cond);
            operand_agrees(book, vals, rows, f, a);
            operand_agrees(book, vals, rows, f, b);
        },
        Op::Load { ty: _, base, at: _ } => {
            operand_agrees(book, vals, rows, f, base);
        },
        Op::StackLoad { slot, word } => {
            operand_agrees(book, vals, rows, f, slot);
            let k = slot_at(f, slot)->0;
            assert(f.seats[slot as int] == Seat::Slot(k));
            assert(f.slots[k] <= i32::MAX);
        },
        Op::StackAddr { slot } => {
            operand_agrees(book, vals, rows, f, slot);
        },
        Op::UseVar { var } => {
            operand_agrees(book, vals, rows, f, var);
        },
        _ => {},
    }
}

/// The calls that an operation is made into do what the operation says: they
/// store, define, jump, branch, return or call, with the same words, and where
/// it says so.
pub proof fn calls_do_what_the_operation_does(
    f: Form,
    op: Op,
    rows: Seq<RowView>,
    w: World,
    vals: Map<int, i64>,
    book: Book,
    m: Machine,
)
    requires
        in_step(f, op, rows, w, vals, book),
    ensures
        last_deed(book, emitted(f, op, rows, w), m) == deed(op, vals, f, w),
{
    let calls = emitted(f, op, rows, w);
    args_agree(book, vals, rows, f, f.args);
    args_agree(book, vals, rows, f, f.others);
    reveal_with_fuel(after_calls, 4);
    match op {
        Op::Store { val, base, at: _ } => {
            operand_agrees(book, vals, rows, f, val);
            operand_agrees(book, vals, rows, f, base);
        },
        Op::StackStore { val, slot, word } => {
            operand_agrees(book, vals, rows, f, val);
            operand_agrees(book, vals, rows, f, slot);
            let k = slot_at(f, slot)->0;
            assert(f.seats[slot as int] == Seat::Slot(k));
            assert(f.slots[k] <= i32::MAX);
        },
        Op::DefVar { var, val } => {
            operand_agrees(book, vals, rows, f, var);
            operand_agrees(book, vals, rows, f, val);
        },
        Op::GcVar { var } => {
            operand_agrees(book, vals, rows, f, var);
        },
        Op::GcValue { val } => {
            operand_agrees(book, vals, rows, f, val);
        },
        Op::Switch { block } => {
            operand_agrees(book, vals, rows, f, block);
        },
        Op::Seal { block } => {
            operand_agrees(book, vals, rows, f, block);
        },
        Op::Jump { block } => {
            operand_agrees(book, vals, rows, f, block);
        },
        Op::Brif { cond, yes, no } => {
            operand_agrees(book, vals, rows, f, cond);
            operand_agrees(book, vals, rows, f, yes);
            operand_agrees(book, vals, rows, f, no);
        },
        Op::Call { func: _ } => {
            assert(calls.drop_last() =~= seq![calls[0], calls[1], calls[2]]);
            assert(calls.drop_last().drop_last() =~= seq![calls[0], calls[1]]);
            assert(calls.drop_last().drop_last().drop_last() =~= seq![calls[0]]);
            assert(calls.drop_last().drop_last().drop_last().drop_last() =~= Seq::<Made>::empty());
            let before = after_calls(book, calls.drop_last(), m);
            assert(before.vals == book.vals);
        },
        _ => {},
    }
}

} // verus!
