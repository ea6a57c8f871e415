//! The code that a program is lowered to: one flat run of operations. What an
//! operation yields, a value, a block, a variable or a stack slot, is named by
//! the operation's position.
use crate::layout::{flatten, leaves, lays_out, leaves_of};
use crate::liveness::{Liveness, Marks, Names};
use crate::text::{owned, same_text, NameSet};
use crate::types::{field_views, Defs, FieldView, StructDefs, Ty, Type, UnionDefs, UnionView};
use vstd::prelude::*;

verus! {

/// A machine type.
#[derive(Debug, Clone, Copy, PartialEq, Eq, Structural)]
pub enum ClType {
    I8,
    I32,
    I64,
    F64,
}

/// An operation on two values.
#[derive(Debug, Clone, Copy, PartialEq, Eq, Structural)]
pub enum BinOp {
    Iadd,
    Isub,
    Imul,
    Sdiv,
    Band,
    Bor,
    Bxor,
    Fadd,
    Fsub,
    Fmul,
    Fdiv,
}

/// A change of representation.
#[derive(Debug, Clone, Copy, PartialEq, Eq, Structural)]
pub enum Conv {
    /// Zero-extend to 64 bits.
    Widen,
    /// Keep the low 8 bits.
    Low8,
    /// Keep the low 32 bits.
    Low32,
    /// The bits of a float.
    FloatBits,
    /// The float of these bits.
    BitsFloat,
    /// The float nearest to a signed integer.
    IntFloat,
    /// The negation of a float.
    FloatNeg,
}

/// How two values are compared: integers as signed, unless it says otherwise.
#[derive(Debug, Clone, Copy, PartialEq, Eq, Structural)]
pub enum Test {
    Equal,
    NotEqual,
    Less,
    Greater,
    LessEqual,
    GreaterEqual,
    UnsignedLessEqual,
}

/// A part of an object in memory.
#[derive(Debug, Clone, Copy, PartialEq, Eq, Structural)]
pub enum Field {
    ListData,
    ListStride,
    ListLen,
    ListCap,
    /// The flag that says whether a heap object is shared.
    Shared,
    VariantTag,
    /// A payload word of a variant.
    VariantSlot(usize),
    /// A word of a list's element.
    Word(usize),
    /// A word of the buffer that top-level bindings are written to.
    Out(usize),
}

/// One operation.
#[derive(Debug, Clone, Copy, PartialEq, Eq, Structural)]
#[allow(inconsistent_fields)]
pub enum Op {
    Iconst { ty: ClType, imm: i64 },
    F64const { bits: u64 },
    /// The address of the bytes of a string constant.
    StrAddr { index: usize },
    /// The word of `none` where it stands alone.
    NoneWord,
    Binary { op: BinOp, a: usize, b: usize },
    BinaryImm { op: BinOp, a: usize, imm: i64 },
    Convert { op: Conv, a: usize },
    Compare { test: Test, a: usize, b: usize },
    CompareImm { test: Test, a: usize, imm: i64 },
    FloatCompare { test: Test, a: usize, b: usize },
    Select { cond: usize, a: usize, b: usize },
    Load { ty: ClType, base: usize, at: Field },
    Store { val: usize, base: usize, at: Field },
    StackSlot { words: usize },
    StackStore { val: usize, slot: usize, word: usize },
    StackLoad { slot: usize, word: usize },
    StackAddr { slot: usize },
    /// A variable.
    Var { ty: ClType },
    /// The values of this variable are roots.
    GcVar { var: usize },
    DefVar { var: usize, val: usize },
    UseVar { var: usize },
    /// This value is a root.
    GcValue { val: usize },
    /// A basic block.
    Block,
    /// A further parameter of a block.
    BlockParam { block: usize, ty: ClType },
    /// A parameter of the function.
    EntryParam { index: usize },
    /// What follows goes into this block.
    Switch { block: usize },
    /// All jumps to this block are known.
    Seal { block: usize },
    /// An argument of the next call, jump, branch taken or return.
    Arg { val: usize },
    /// An argument of the next branch's other side.
    ElseArg { val: usize },
    Jump { block: usize },
    Brif { cond: usize, yes: usize, no: usize },
    Return,
    Trap { code: u8 },
    Call { func: usize },
    /// A result of the last call.
    Result { index: usize },
}

/// Why a program cannot be lowered.
#[derive(Debug, Clone, Copy, PartialEq, Eq, Structural)]
pub enum Fault {
    /// A value does not have as many words as its use needs.
    Arity,
    /// A type without a finite layout.
    NoLayout,
    /// An aggregate with more words than a scan mask has bits.
    TooWide,
    UnboundVariable,
    UnknownFunction,
    UnknownUnion,
    UnknownVariant,
    UnknownField,
    UnsupportedOperator,
    UnsupportedType,
    /// A type that contains itself cannot be printed or compared.
    RecursiveType,
    /// Something that type checking rules out.
    IllTyped,
}

/// Code as a value: the operations, the variable of each name, the string
/// constants, and the first fault.
pub ghost struct Code {
    pub ops: Seq<Op>,
    pub vars: Seq<(Seq<char>, usize)>,
    pub strings: Seq<Seq<char>>,
    pub fault: Option<Fault>,
}

/// `c` with one more operation, and the position of that operation.
pub open spec fn put_code(c: Code, op: Op) -> (usize, Code) {
    (c.ops.len() as usize, Code { ops: c.ops.push(op), ..c })
}

/// `c` with one more operation.
pub open spec fn emit_code(c: Code, op: Op) -> Code {
    Code { ops: c.ops.push(op), ..c }
}

/// `c` with a fault; the first one counts.
pub open spec fn fail_code(c: Code, fault: Fault) -> Code {
    if c.fault is Some {
        c
    } else {
        Code { fault: Some(fault), ..c }
    }
}

/// The variable that a name stands for: the one it was given last.
pub open spec fn find_var(vars: Seq<(Seq<char>, usize)>, name: Seq<char>) -> Option<usize>
    decreases vars.len(),
{
    if vars.len() == 0 {
        None
    } else if vars.last().0 == name {
        Some(vars.last().1)
    } else {
        find_var(vars.drop_last(), name)
    }
}

/// The position of the last entry of that name.
pub open spec fn find_name(names: Seq<Seq<char>>, name: Seq<char>) -> Option<usize>
    decreases names.len(),
{
    if names.len() == 0 {
        None
    } else if names.last() == name {
        Some((names.len() - 1) as usize)
    } else {
        find_name(names.drop_last(), name)
    }
}

/// `c` with a name given to a variable.
pub open spec fn name_var_code(c: Code, name: Seq<char>, var: usize) -> Code {
    Code { vars: c.vars.push((name, var)), ..c }
}

/// `c` with one more string constant, and the operations that yield its
/// address and its length in bytes.
pub open spec fn str_addr_code(c: Code, text: Seq<char>) -> (usize, Code) {
    let index = c.strings.len() as usize;
    put_code(Code { strings: c.strings.push(text), ..c }, Op::StrAddr { index })
}

/// The number of bytes that a text is encoded in.
pub open spec fn byte_len(text: Seq<char>) -> i64 {
    (vstd::utf8::encode_utf8(text).len() as usize) as i64
}

/// The word at position `k` of a value.
pub open spec fn at_code(c: Code, vals: Seq<usize>, k: usize) -> (usize, Code) {
    if k < vals.len() {
        (vals[k as int], c)
    } else {
        (0, fail_code(c, Fault::Arity))
    }
}

/// The only word of a value.
pub open spec fn one_code(c: Code, vals: Seq<usize>) -> (usize, Code) {
    if vals.len() == 1 {
        (vals[0], c)
    } else {
        (0, fail_code(c, Fault::Arity))
    }
}

/// `len` words of a value from `start` on.
pub open spec fn slice_code(c: Code, vals: Seq<usize>, start: usize, len: usize) -> (Seq<usize>, Code) {
    if start + len <= vals.len() {
        (vals.subrange(start as int, start + len), c)
    } else {
        (Seq::empty(), fail_code(c, Fault::Arity))
    }
}

/// The leaves of a type.
pub open spec fn leaves_code(c: Code, cx: Env, ty: Ty) -> (Seq<FieldView>, Code) {
    if lays_out(ty, cx.defs) {
        (leaves_of(ty, cx.defs), c)
    } else {
        (Seq::empty(), fail_code(c, Fault::NoLayout))
    }
}

/// What lowering knows of the program round the body at hand.
pub ghost struct Env {
    pub defs: Defs,
    pub unions: Seq<UnionView>,
    /// The functions that can be called, in the order of their declaration.
    pub funcs: Seq<Seq<char>>,
    pub mut_params: Seq<FieldView>,
    pub marks: Marks,
    pub hosts: Names,
    /// Whether writes check that nothing else reaches the object.
    pub verify: bool,
}

/// `c` with a call of the function `name`.
pub open spec fn invoke_code(c: Code, cx: Env, name: Seq<char>) -> Code {
    match find_name(cx.funcs, name) {
        Some(func) => emit_code(c, Op::Call { func }),
        None => fail_code(c, Fault::UnknownFunction),
    }
}

/// The variable of a name that must have one.
pub open spec fn bound_code(c: Code, name: Seq<char>) -> (usize, Code) {
    match find_var(c.vars, name) {
        Some(v) => (v, c),
        None => (0, fail_code(c, Fault::UnboundVariable)),
    }
}

/// Code under construction.
pub struct Builder {
    pub ops: Vec<Op>,
    pub vars: Vec<(String, usize)>,
    pub strings: Vec<String>,
    pub fault: Option<Fault>,
}

impl View for Builder {
    type V = Code;

    open spec fn view(&self) -> Code {
        Code {
            ops: self.ops@,
            vars: self.vars@.map_values(|v: (String, usize)| (v.0@, v.1)),
            strings: self.strings@.map_values(|s: String| s@),
            fault: self.fault,
        }
    }
}

/// What lowering knows of the program round the body at hand.
pub struct Ctx<'a> {
    pub structs: &'a StructDefs,
    pub unions: &'a UnionDefs,
    pub funcs: &'a Vec<String>,
    pub mut_params: &'a Vec<(String, Type)>,
    pub liveness: &'a Liveness,
    pub host_fns: &'a NameSet,
    pub cow_verify: bool,
}

impl<'a> View for Ctx<'a> {
    type V = Env;

    open spec fn view(&self) -> Env {
        Env {
            defs: self.structs@,
            unions: self.unions@,
            funcs: self.funcs@.map_values(|s: String| s@),
            mut_params: field_views(self.mut_params@),
            marks: self.liveness@,
            hosts: self.host_fns.set(),
            verify: self.cow_verify,
        }
    }
}

/// No code.
pub open spec fn no_code() -> Code {
    Code { ops: Seq::empty(), vars: Seq::empty(), strings: Seq::empty(), fault: None }
}

impl Builder {
    /// No code.
    pub fn new() -> (r: Builder)
        ensures
            r@ == no_code(),
    {
        let r = Builder { ops: Vec::new(), vars: Vec::new(), strings: Vec::new(), fault: None };
        assert(r@.vars =~= Seq::<(Seq<char>, usize)>::empty());
        assert(r@.strings =~= Seq::<Seq<char>>::empty());
        r
    }
}

pub(crate) fn put(b: &mut Builder, op: Op) -> (r: usize)
    ensures
        (r, final(b)@) == put_code(old(b)@, op),
{
    let r: usize = b.ops.len();
    b.ops.push(op);
    r
}

pub(crate) fn emit(b: &mut Builder, op: Op)
    ensures
        final(b)@ == emit_code(old(b)@, op),
{
    b.ops.push(op);
}

pub(crate) fn fail(b: &mut Builder, fault: Fault)
    ensures
        final(b)@ == fail_code(old(b)@, fault),
{
    if b.fault.is_none() {
        b.fault = Some(fault);
    }
}

pub(crate) fn name_var(b: &mut Builder, name: &str, var: usize)
    ensures
        final(b)@ == name_var_code(old(b)@, name@, var),
{
    let ghost before = b@;
    b.vars.push((owned(name), var));
    assert(b@.vars =~= before.vars.push((name@, var)));
}

pub(crate) fn lookup_var(b: &Builder, name: &str) -> (r: Option<usize>)
    ensures
        r == find_var(b@.vars, name@),
{
    let mut i: usize = b.vars.len();
    assert(b@.vars.take(i as int) =~= b@.vars);
    while i > 0
        invariant
            i <= b.vars.len() == b@.vars.len(),
            find_var(b@.vars.take(i as int), name@) == find_var(b@.vars, name@),
        decreases i,
    {
        assert(b@.vars.take(i as int).drop_last() =~= b@.vars.take(i - 1));
        assert(b@.vars.take(i as int).last() == b@.vars[i - 1]);
        i = i - 1;
        if same_text(b.vars[i].0.as_str(), name) {
            return Some(b.vars[i].1);
        }
    }
    None
}

pub(crate) fn lookup_name(names: &Vec<String>, name: &str) -> (r: Option<usize>)
    ensures
        r == find_name(names@.map_values(|s: String| s@), name@),
{
    let ghost all = names@.map_values(|s: String| s@);
    let mut i: usize = names.len();
    assert(all.take(i as int) =~= all);
    while i > 0
        invariant
            i <= names.len() == all.len(),
            all == names@.map_values(|s: String| s@),
            find_name(all.take(i as int), name@) == find_name(all, name@),
        decreases i,
    {
        assert(all.take(i as int).drop_last() =~= all.take(i - 1));
        assert(all.take(i as int).last() == all[i - 1]);
        i = i - 1;
        if same_text(names[i].as_str(), name) {
            return Some(i);
        }
    }
    None
}

pub(crate) fn bound(b: &mut Builder, name: &str) -> (r: usize)
    ensures
        (r, final(b)@) == bound_code(old(b)@, name@),
{
    match lookup_var(b, name) {
        Some(v) => v,
        None => {
            fail(b, Fault::UnboundVariable);
            0
        },
    }
}

pub(crate) fn str_addr(b: &mut Builder, text: &str) -> (r: usize)
    ensures
        (r, final(b)@) == str_addr_code(old(b)@, text@),
{
    let ghost before = b@;
    let index: usize = b.strings.len();
    b.strings.push(owned(text));
    assert(b@.strings =~= before.strings.push(text@));
    put(b, Op::StrAddr { index })
}

pub(crate) fn text_bytes(text: &str) -> (r: i64)
    ensures
        r == byte_len(text@),
{
    text.len() as i64
}

pub(crate) fn at(b: &mut Builder, vals: &Vec<usize>, k: usize) -> (r: usize)
    ensures
        (r, final(b)@) == at_code(old(b)@, vals@, k),
{
    if k < vals.len() {
        vals[k]
    } else {
        fail(b, Fault::Arity);
        0
    }
}

pub(crate) fn one(b: &mut Builder, vals: &Vec<usize>) -> (r: usize)
    ensures
        (r, final(b)@) == one_code(old(b)@, vals@),
{
    if vals.len() == 1 {
        vals[0]
    } else {
        fail(b, Fault::Arity);
        0
    }
}

pub(crate) fn slice(b: &mut Builder, vals: &Vec<usize>, start: usize, len: usize) -> (r: Vec<usize>)
    ensures
        (r@, final(b)@) == slice_code(old(b)@, vals@, start, len),
{
    let mut out: Vec<usize> = Vec::new();
    if start <= vals.len() && len <= vals.len() - start {
        let mut i: usize = 0;
        while i < len
            invariant
                i <= len,
                start + len <= vals.len(),
                out@ =~= vals@.subrange(start as int, start + i),
            decreases len - i,
        {
            out.push(vals[start + i]);
            i = i + 1;
        }
    } else {
        fail(b, Fault::Arity);
        assert(out@ =~= Seq::<usize>::empty());
    }
    out
}

pub(crate) fn invoke(b: &mut Builder, cx: &Ctx, name: &str)
    ensures
        final(b)@ == invoke_code(old(b)@, cx@, name@),
{
    match lookup_name(cx.funcs, name) {
        Some(func) => emit(b, Op::Call { func }),
        None => fail(b, Fault::UnknownFunction),
    }
}

pub(crate) fn leaf_list(b: &mut Builder, cx: &Ctx, ty: &Type) -> (r: Vec<(String, Type)>)
    ensures
        (field_views(r@), final(b)@) == leaves_code(old(b)@, cx@, ty@),
{
    match flatten(ty, cx.structs) {
        Some(ls) => ls,
        None => {
            fail(b, Fault::NoLayout);
            let none: Vec<(String, Type)> = Vec::new();
            assert(field_views(none@) =~= Seq::<FieldView>::empty());
            none
        },
    }
}

} // verus!
