//! Operations put into a Cranelift function, one after another.
use crate::codegen::{Decl, Sig};
use crate::ir::{BinOp, ClType, Conv, Field, Op, Test};
use cranelift_codegen::ir::condcodes::{FloatCC, IntCC};
use cranelift_codegen::ir::immediates::Ieee64;
use cranelift_codegen::ir::{
    types, AbiParam, Block, BlockArg, ExtFuncData, ExternalName, FuncRef, Function, InstBuilder, MemFlagsData, Opcode,
    SigRef, Signature, StackSlot, StackSlotData, StackSlotKind, TrapCode, UserExternalName, UserExternalNameRef,
    Value,
};
use cranelift_frontend::{FunctionBuilder, FunctionBuilderContext, Variable};
use vstd::prelude::*;

verus! {

// ── What has been done on a builder ──────────────────────────────────────

/// Cranelift's builder of one function.
#[verifier::external_type_specification]
#[verifier::external_body]
pub struct ExFunctionBuilder<'a>(FunctionBuilder<'a>);

/// Cranelift's function.
#[verifier::external_type_specification]
#[verifier::external_body]
pub struct ExFunction(Function);

/// What Cranelift's builders keep from one function to the next.
#[verifier::external_type_specification]
#[verifier::external_body]
pub struct ExFunctionBuilderContext(FunctionBuilderContext);

/// How an access to memory is marked.
#[derive(Debug, Clone, Copy, PartialEq, Eq, Structural)]
pub enum Mem {
    /// An object of the heap: the access cannot trap and is aligned.
    Heap,
    Plain,
}

/// One call of the builder. Values, blocks, variables and the rest go by the
/// numbers that it gave them.
#[allow(inconsistent_fields)]
pub ghost enum Made {
    Signature { params: Seq<ClType>, results: Seq<ClType> },
    Block { block: u32 },
    EntryParams { block: u32, tys: Seq<ClType>, vals: Seq<u32> },
    Param { block: u32, ty: ClType, val: u32 },
    Switch { block: u32 },
    Seal { block: u32 },
    Var { ty: ClType, var: u32 },
    GcVar { var: u32 },
    Def { var: u32, val: u32 },
    Use { var: u32, ty: ClType, val: u32 },
    GcValue { val: u32 },
    Slot { bytes: u32, slot: u32 },
    Sig { params: Seq<ClType>, results: Seq<ClType>, sig: u32 },
    Name { index: u32, name: u32 },
    Import { name: u32, sig: u32, local: bool, func: u32 },
    Const { ty: ClType, imm: i64, val: u32 },
    Float { bits: u64, val: u32 },
    Binary { op: BinOp, ty: ClType, x: u32, y: u32, val: u32 },
    Unary { op: Conv, x: u32, val: u32 },
    Bitcast { ty: ClType, x: u32, val: u32 },
    Compare { test: Test, x: u32, y: u32, val: u32 },
    FloatCompare { test: Test, x: u32, y: u32, val: u32 },
    Select { ty: ClType, cond: u32, x: u32, y: u32, val: u32 },
    Load { ty: ClType, mem: Mem, base: u32, offset: i32, val: u32 },
    Store { mem: Mem, val: u32, base: u32, offset: i32 },
    StackAddr { slot: u32, val: u32 },
    StackLoad { slot: u32, offset: i32, val: u32 },
    StackStore { val: u32, slot: u32, offset: i32 },
    Jump { block: u32, args: Seq<u32> },
    Brif { cond: u32, yes: u32, args: Seq<u32>, no: u32, others: Seq<u32> },
    Return { args: Seq<u32> },
    Trap { code: u8 },
    Call { func: u32, args: Seq<u32>, tys: Seq<ClType>, vals: Seq<u32> },
}

/// The calls made on a builder, in order.
pub uninterp spec fn made(b: FunctionBuilder<'_>) -> Seq<Made>;

/// The types that the results of a conversion have.
pub open spec fn converted(op: Conv) -> ClType {
    match op {
        Conv::Widen => ClType::I64,
        Conv::Low8 => ClType::I8,
        Conv::Low32 => ClType::I32,
        Conv::FloatBits => ClType::I64,
        Conv::BitsFloat => ClType::F64,
        Conv::IntFloat => ClType::F64,
        Conv::FloatNeg => ClType::F64,
    }
}

/// Whether a conversion takes values of this type.
pub open spec fn converts(op: Conv, ty: ClType) -> bool {
    match op {
        Conv::Widen => ty == ClType::I8 || ty == ClType::I32,
        Conv::Low8 => ty == ClType::I32 || ty == ClType::I64,
        Conv::Low32 => ty == ClType::I64,
        Conv::FloatBits => ty == ClType::F64,
        Conv::BitsFloat => ty == ClType::I64,
        Conv::IntFloat => ty != ClType::F64,
        Conv::FloatNeg => ty == ClType::F64,
    }
}

pub open spec fn on_floats(op: BinOp) -> bool {
    op == BinOp::Fadd || op == BinOp::Fsub || op == BinOp::Fmul || op == BinOp::Fdiv
}

/// The one value that a call gave, and its type.
pub open spec fn given(m: Made) -> Option<(u32, ClType)> {
    match m {
        Made::Param { block: _, ty, val } => Some((val, ty)),
        Made::Use { var: _, ty, val } => Some((val, ty)),
        Made::Const { ty, imm: _, val } => Some((val, ty)),
        Made::Float { bits: _, val } => Some((val, ClType::F64)),
        Made::Binary { op: _, ty, x: _, y: _, val } => Some((val, ty)),
        Made::Unary { op, x: _, val } => Some((val, converted(op))),
        Made::Bitcast { ty, x: _, val } => Some((val, ty)),
        Made::Compare { test: _, x: _, y: _, val } => Some((val, ClType::I8)),
        Made::FloatCompare { test: _, x: _, y: _, val } => Some((val, ClType::I8)),
        Made::Select { ty, cond: _, x: _, y: _, val } => Some((val, ty)),
        Made::Load { ty, mem: _, base: _, offset: _, val } => Some((val, ty)),
        Made::StackAddr { slot: _, val } => Some((val, ClType::I64)),
        Made::StackLoad { slot: _, offset: _, val } => Some((val, ClType::I64)),
        _ => None,
    }
}

/// The type of `v` among values that came together.
pub open spec fn among(vals: Seq<u32>, tys: Seq<ClType>, v: u32) -> Option<ClType>
    decreases vals.len(),
{
    if vals.len() == 0 || tys.len() != vals.len() {
        None
    } else if vals.last() == v {
        Some(tys.last())
    } else {
        among(vals.drop_last(), tys.drop_last(), v)
    }
}

/// The type of a value that was handed out.
pub open spec fn val_ty(log: Seq<Made>, v: u32) -> Option<ClType>
    decreases log.len(),
{
    if log.len() == 0 {
        None
    } else {
        let here = match log.last() {
            Made::EntryParams { block: _, tys, vals } => among(vals, tys, v),
            Made::Call { func: _, args: _, tys, vals } => among(vals, tys, v),
            m => match given(m) {
                Some((w, ty)) => if w == v {
                    Some(ty)
                } else {
                    None
                },
                None => None,
            },
        };
        match here {
            Some(ty) => Some(ty),
            None => val_ty(log.drop_last(), v),
        }
    }
}

/// Whether a call puts something into the block at hand.
pub open spec fn puts(m: Made) -> bool {
    match m {
        Made::Signature { params: _, results: _ } => false,
        Made::Block { block: _ } => false,
        Made::EntryParams { block: _, tys: _, vals: _ } => false,
        Made::Param { block: _, ty: _, val: _ } => false,
        Made::Switch { block: _ } => false,
        Made::Seal { block: _ } => false,
        Made::Var { ty: _, var: _ } => false,
        Made::GcVar { var: _ } => false,
        Made::Def { var: _, val: _ } => false,
        Made::GcValue { val: _ } => false,
        Made::Slot { bytes: _, slot: _ } => false,
        Made::Sig { params: _, results: _, sig: _ } => false,
        Made::Name { index: _, name: _ } => false,
        Made::Import { name: _, sig: _, local: _, func: _ } => false,
        _ => true,
    }
}

/// Whether a call ends the block at hand.
pub open spec fn ends(m: Made) -> bool {
    m is Jump || m is Brif || m is Return || m is Trap
}

/// The block that things are put into.
pub open spec fn current(log: Seq<Made>) -> Option<u32>
    decreases log.len(),
{
    if log.len() == 0 {
        None
    } else {
        match log.last() {
            Made::Switch { block } => Some(block),
            _ => current(log.drop_last()),
        }
    }
}

/// Whether a block was made.
pub open spec fn known(log: Seq<Made>, block: u32) -> bool
    decreases log.len(),
{
    log.len() > 0 && (log.last() == (Made::Block { block }) || known(log.drop_last(), block))
}

/// Whether anything was put into a block.
pub open spec fn begun(log: Seq<Made>, block: u32) -> bool
    decreases log.len(),
{
    log.len() > 0 && (puts(log.last()) && current(log.drop_last()) == Some(block) || begun(log.drop_last(), block))
}

/// Whether a block has its end.
pub open spec fn filled(log: Seq<Made>, block: u32) -> bool
    decreases log.len(),
{
    log.len() > 0 && (ends(log.last()) && current(log.drop_last()) == Some(block) || filled(log.drop_last(), block))
}

/// Whether all jumps to a block are known.
pub open spec fn sealed(log: Seq<Made>, block: u32) -> bool
    decreases log.len(),
{
    log.len() > 0 && (log.last() == (Made::Seal { block }) || sealed(log.drop_last(), block))
}

/// How many parameters a block was given, one by one or as the entry.
pub open spec fn param_count(log: Seq<Made>, block: u32) -> nat
    decreases log.len(),
{
    if log.len() == 0 {
        0
    } else {
        let rest = param_count(log.drop_last(), block);
        match log.last() {
            Made::Param { block: p, ty: _, val: _ } => if p == block {
                rest + 1
            } else {
                rest
            },
            Made::EntryParams { block: p, tys, vals: _ } => if p == block {
                rest + tys.len()
            } else {
                rest
            },
            _ => rest,
        }
    }
}

/// How many variables there are.
pub open spec fn var_count(log: Seq<Made>) -> nat
    decreases log.len(),
{
    if log.len() == 0 {
        0
    } else if log.last() is Var {
        var_count(log.drop_last()) + 1
    } else {
        var_count(log.drop_last())
    }
}

/// Whether every block has room for a parameter for each variable, besides
/// those that it was given. A parameter's position has sixteen bits.
pub open spec fn has_room(log: Seq<Made>) -> bool {
    forall|k: u32| known(log, k) ==> #[trigger] param_count(log, k) + var_count(log) <= 65536
}

/// Whether there is a block that things can be put into.
pub open spec fn open(log: Seq<Made>) -> bool {
    current(log) is Some && !filled(log, current(log)->0)
}

/// Whether the block at hand may be left: it has its end, or nothing in it.
pub open spec fn may_leave(log: Seq<Made>) -> bool {
    match current(log) {
        Some(block) => filled(log, block) || !begun(log, block),
        None => true,
    }
}

/// The type of a variable.
pub open spec fn var_ty(log: Seq<Made>, v: u32) -> Option<ClType>
    decreases log.len(),
{
    if log.len() == 0 {
        None
    } else {
        match log.last() {
            Made::Var { ty, var } => if var == v {
                Some(ty)
            } else {
                var_ty(log.drop_last(), v)
            },
            _ => var_ty(log.drop_last(), v),
        }
    }
}

/// Whether a variable was given a value or read.
pub open spec fn touched(log: Seq<Made>, v: u32) -> bool
    decreases log.len(),
{
    if log.len() == 0 {
        false
    } else {
        match log.last() {
            Made::Def { var, val: _ } => var == v || touched(log.drop_last(), v),
            Made::Use { var, ty: _, val: _ } => var == v || touched(log.drop_last(), v),
            _ => touched(log.drop_last(), v),
        }
    }
}

/// The size of a stack slot.
pub open spec fn slot_bytes(log: Seq<Made>, s: u32) -> Option<u32>
    decreases log.len(),
{
    if log.len() == 0 {
        None
    } else {
        match log.last() {
            Made::Slot { bytes, slot } => if slot == s {
                Some(bytes)
            } else {
                slot_bytes(log.drop_last(), s)
            },
            _ => slot_bytes(log.drop_last(), s),
        }
    }
}

/// The types of the parameters of the function that is built.
pub open spec fn sig_params(log: Seq<Made>) -> Option<Seq<ClType>>
    decreases log.len(),
{
    if log.len() == 0 {
        None
    } else {
        match log.last() {
            Made::Signature { params, results: _ } => Some(params),
            _ => sig_params(log.drop_last()),
        }
    }
}

/// The types of the results of an imported signature.
pub open spec fn sig_at(log: Seq<Made>, s: u32) -> Option<Seq<ClType>>
    decreases log.len(),
{
    if log.len() == 0 {
        None
    } else {
        match log.last() {
            Made::Sig { params: _, results, sig } => if sig == s {
                Some(results)
            } else {
                sig_at(log.drop_last(), s)
            },
            _ => sig_at(log.drop_last(), s),
        }
    }
}

/// The number of the function that a name stands for.
pub open spec fn name_at(log: Seq<Made>, n: u32) -> Option<u32>
    decreases log.len(),
{
    if log.len() == 0 {
        None
    } else {
        match log.last() {
            Made::Name { index, name } => if name == n {
                Some(index)
            } else {
                name_at(log.drop_last(), n)
            },
            _ => name_at(log.drop_last(), n),
        }
    }
}

/// The signature of an imported function.
pub open spec fn func_at(log: Seq<Made>, f: u32) -> Option<u32>
    decreases log.len(),
{
    if log.len() == 0 {
        None
    } else {
        match log.last() {
            Made::Import { name: _, sig, local: _, func } => if func == f {
                Some(sig)
            } else {
                func_at(log.drop_last(), f)
            },
            _ => func_at(log.drop_last(), f),
        }
    }
}

/// The types of the results of an imported function.
pub open spec fn called(log: Seq<Made>, f: u32) -> Option<Seq<ClType>> {
    match func_at(log, f) {
        Some(sig) => sig_at(log, sig),
        None => None,
    }
}

// ── The calls ────────────────────────────────────────────────────────────

/// Whether a context holds anything of a function that was begun with it and
/// not finished.
pub uninterp spec fn in_use(ctx: FunctionBuilderContext) -> bool;

/// `FunctionBuilderContext::new`: a context that holds nothing.
#[verifier::external_body]
fn new_context() -> (r: FunctionBuilderContext)
    ensures
        !in_use(r),
{
    FunctionBuilderContext::new()
}

/// `FunctionBuilder::new`: a builder on which nothing has been done. The
/// context must hold nothing.
#[verifier::external_body]
fn new_builder<'a>(func: &'a mut Function, ctx: &'a mut FunctionBuilderContext) -> (r: FunctionBuilder<'a>)
    requires
        !in_use(*old(ctx)),
    ensures
        made(r) == Seq::<Made>::empty(),
{
    FunctionBuilder::new(func, ctx)
}

/// `Function::signature`: the types of the parameters and results of the function
/// that is built. Nothing else may have been done yet.
#[verifier::external_body]
fn set_signature(b: &mut FunctionBuilder<'_>, params: &Vec<ClType>, results: &Vec<ClType>)
    requires
        made(*old(b)).len() == 0,
    ensures
        made(*final(b)) == made(*old(b)).push(Made::Signature { params: params@, results: results@ }),
{
    b.func.signature.params = params.iter().map(|t| AbiParam::new(match *t { ClType::I8 => types::I8, ClType::I32 => types::I32, ClType::I64 => types::I64, ClType::F64 => types::F64 })).collect();
    b.func.signature.returns = results.iter().map(|t| AbiParam::new(match *t { ClType::I8 => types::I8, ClType::I32 => types::I32, ClType::I64 => types::I64, ClType::F64 => types::F64 })).collect();
}

/// `FunctionBuilder::create_block`: a new block, numbered as no other, so that
/// nothing was done with that number.
#[verifier::external_body]
fn create_block(b: &mut FunctionBuilder<'_>) -> (r: u32)
    ensures
        made(*final(b)) == made(*old(b)).push(Made::Block { block: r }),
        !known(made(*old(b)), r),
        !begun(made(*old(b)), r),
        !filled(made(*old(b)), r),
        !sealed(made(*old(b)), r),
        param_count(made(*old(b)), r) == 0,
{
    b.create_block().as_u32()
}

/// `FunctionBuilder::append_block_params_for_function_params` and
/// `FunctionBuilder::block_params`: a block that has just been made gets a
/// parameter for each of the function, and their values come back.
#[verifier::external_body]
fn entry_params(b: &mut FunctionBuilder<'_>, block: u32) -> (r: Vec<u32>)
    requires
        made(*old(b)).len() > 0,
        made(*old(b)).last() == (Made::Block { block }),
        sig_params(made(*old(b))) is Some,
        sig_params(made(*old(b)))->0.len() <= 65535,
    ensures
        made(*final(b)) == made(*old(b)).push(Made::EntryParams { block, tys: sig_params(made(*old(b)))->0, vals: r@ }),
        r@.len() == sig_params(made(*old(b)))->0.len(),
        forall|i: int| 0 <= i < r@.len() ==> val_ty(made(*old(b)), #[trigger] r@[i]) is None,
        forall|i: int, j: int| 0 <= i < j < r@.len() ==> #[trigger] r@[i] != #[trigger] r@[j],
{
    b.append_block_params_for_function_params(Block::from_u32(block));
    b.block_params(Block::from_u32(block)).iter().map(|v| v.as_u32()).collect()
}

/// `FunctionBuilder::append_block_param`: one more parameter of a block that
/// nothing has been put into yet. The limit is that of a parameter's position.
#[verifier::external_body]
fn block_param(b: &mut FunctionBuilder<'_>, block: u32, ty: ClType) -> (r: u32)
    requires
        known(made(*old(b)), block),
        !begun(made(*old(b)), block),
        param_count(made(*old(b)), block) < 65535,
    ensures
        made(*final(b)) == made(*old(b)).push(Made::Param { block, ty, val: r }),
        val_ty(made(*old(b)), r) is None,
{
    let ty = match ty {
        ClType::I8 => types::I8,
        ClType::I32 => types::I32,
        ClType::I64 => types::I64,
        ClType::F64 => types::F64,
    };
    b.append_block_param(Block::from_u32(block), ty).as_u32()
}

/// `FunctionBuilder::switch_to_block`: what follows goes into this block. The one
/// before must have its end, or nothing in it.
#[verifier::external_body]
fn switch_to_block(b: &mut FunctionBuilder<'_>, block: u32)
    requires
        known(made(*old(b)), block),
        !filled(made(*old(b)), block),
        may_leave(made(*old(b))),
    ensures
        made(*final(b)) == made(*old(b)).push(Made::Switch { block }),
{
    b.switch_to_block(Block::from_u32(block));
}

/// `FunctionBuilder::seal_block`: all jumps to this block are known. Values that
/// were handed out before keep their types. Variables that were read before may
/// become parameters of blocks that lead here, each at most once in a block, and
/// there must be room for them.
#[verifier::external_body]
fn seal_block(b: &mut FunctionBuilder<'_>, block: u32)
    requires
        known(made(*old(b)), block),
        !sealed(made(*old(b)), block),
        has_room(made(*old(b))),
    ensures
        made(*final(b)) == made(*old(b)).push(Made::Seal { block }),
{
    b.seal_block(Block::from_u32(block));
}

/// `FunctionBuilder::declare_var`: a new variable, numbered as no other, so that
/// nothing was done with that number.
#[verifier::external_body]
fn declare_var(b: &mut FunctionBuilder<'_>, ty: ClType) -> (r: u32)
    ensures
        made(*final(b)) == made(*old(b)).push(Made::Var { ty, var: r }),
        var_ty(made(*old(b)), r) is None,
        !touched(made(*old(b)), r),
{
    let ty = match ty {
        ClType::I8 => types::I8,
        ClType::I32 => types::I32,
        ClType::I64 => types::I64,
        ClType::F64 => types::F64,
    };
    b.declare_var(ty).as_u32()
}

/// `FunctionBuilder::declare_var_needs_stack_map`: every value of this variable is
/// a root. It must have had none yet.
#[verifier::external_body]
fn var_is_root(b: &mut FunctionBuilder<'_>, var: u32)
    requires
        var_ty(made(*old(b)), var) is Some,
        !touched(made(*old(b)), var),
    ensures
        made(*final(b)) == made(*old(b)).push(Made::GcVar { var }),
{
    b.declare_var_needs_stack_map(Variable::from_u32(var));
}

/// `FunctionBuilder::def_var`: from here on the variable has this value.
#[verifier::external_body]
fn def_var(b: &mut FunctionBuilder<'_>, var: u32, val: u32)
    requires
        current(made(*old(b))) is Some,
        var_ty(made(*old(b)), var) is Some,
        val_ty(made(*old(b)), val) == var_ty(made(*old(b)), var),
    ensures
        made(*final(b)) == made(*old(b)).push(Made::Def { var, val }),
{
    b.def_var(Variable::from_u32(var), Value::from_u32(val));
}

/// `FunctionBuilder::use_var`: the value of a variable at this point. It may be one
/// that was handed out before; it has the type of the variable. The variable may
/// become a parameter of this block or of blocks that lead to it, at most once in
/// a block, and there must be room for it.
#[verifier::external_body]
fn use_var(b: &mut FunctionBuilder<'_>, var: u32) -> (r: u32)
    requires
        has_room(made(*old(b))),
        open(made(*old(b))),
        var_ty(made(*old(b)), var) is Some,
    ensures
        made(*final(b)) == made(*old(b)).push(Made::Use { var, ty: var_ty(made(*old(b)), var)->0, val: r }),
        val_ty(made(*old(b)), r) is None || val_ty(made(*old(b)), r) == var_ty(made(*old(b)), var),
{
    b.use_var(Variable::from_u32(var)).as_u32()
}

/// `FunctionBuilder::declare_value_needs_stack_map`: this value is a root.
#[verifier::external_body]
fn value_is_root(b: &mut FunctionBuilder<'_>, val: u32)
    requires
        val_ty(made(*old(b)), val) is Some,
    ensures
        made(*final(b)) == made(*old(b)).push(Made::GcValue { val }),
{
    b.declare_value_needs_stack_map(Value::from_u32(val));
}

/// `FunctionBuilder::create_sized_stack_slot`: a new stack slot of so many bytes,
/// aligned to eight.
#[verifier::external_body]
fn stack_slot(b: &mut FunctionBuilder<'_>, bytes: u32) -> (r: u32)
    ensures
        made(*final(b)) == made(*old(b)).push(Made::Slot { bytes, slot: r }),
        slot_bytes(made(*old(b)), r) is None,
{
    let data = StackSlotData::new(StackSlotKind::ExplicitSlot, bytes, 3);
    b.create_sized_stack_slot(data).as_u32()
}

/// `FunctionBuilder::import_signature`: the signature of a function that is called,
/// with the calling convention of the one that is built.
#[verifier::external_body]
fn import_signature(b: &mut FunctionBuilder<'_>, params: &Vec<ClType>, results: &Vec<ClType>) -> (r: u32)
    ensures
        made(*final(b)) == made(*old(b)).push(Made::Sig { params: params@, results: results@, sig: r }),
        sig_at(made(*old(b)), r) is None,
{
    let mut s = Signature::new(b.func.signature.call_conv);
    s.params = params.iter().map(|t| AbiParam::new(match *t { ClType::I8 => types::I8, ClType::I32 => types::I32, ClType::I64 => types::I64, ClType::F64 => types::F64 })).collect();
    s.returns = results.iter().map(|t| AbiParam::new(match *t { ClType::I8 => types::I8, ClType::I32 => types::I32, ClType::I64 => types::I64, ClType::F64 => types::F64 })).collect();
    b.import_signature(s).as_u32()
}

/// `Function::declare_imported_user_function`: a reference to the function with this
/// number. The same number may give the same reference.
#[verifier::external_body]
fn import_name(b: &mut FunctionBuilder<'_>, index: u32) -> (r: u32)
    ensures
        made(*final(b)) == made(*old(b)).push(Made::Name { index, name: r }),
        name_at(made(*old(b)), r) is None || name_at(made(*old(b)), r) == Some(index),
{
    b.func.declare_imported_user_function(UserExternalName { namespace: 0, index }).as_u32()
}

/// `FunctionBuilder::import_function`: a function that can be called, from its name
/// and its signature. `local` says whether it is near.
#[verifier::external_body]
fn import_function(b: &mut FunctionBuilder<'_>, name: u32, sig: u32, local: bool) -> (r: u32)
    requires
        name_at(made(*old(b)), name) is Some,
        sig_at(made(*old(b)), sig) is Some,
    ensures
        made(*final(b)) == made(*old(b)).push(Made::Import { name, sig, local, func: r }),
        func_at(made(*old(b)), r) is None,
{
    let name = ExternalName::user(UserExternalNameRef::from_u32(name));
    let signature = SigRef::from_u32(sig);
    b.import_function(ExtFuncData { name, signature, colocated: local, patchable: false }).as_u32()
}

/// `InstBuilder::iconst`: an integer constant, of which the low bits that the type
/// has count.
#[verifier::external_body]
fn iconst(b: &mut FunctionBuilder<'_>, ty: ClType, imm: i64) -> (r: u32)
    requires
        open(made(*old(b))),
        ty != ClType::F64,
    ensures
        made(*final(b)) == made(*old(b)).push(Made::Const { ty, imm, val: r }),
        val_ty(made(*old(b)), r) is None,
{
    let ty = match ty {
        ClType::I8 => types::I8,
        ClType::I32 => types::I32,
        ClType::I64 => types::I64,
        ClType::F64 => types::F64,
    };
    b.ins().iconst(ty, imm).as_u32()
}

/// `InstBuilder::f64const`: the float with these bits.
#[verifier::external_body]
fn fconst(b: &mut FunctionBuilder<'_>, bits: u64) -> (r: u32)
    requires
        open(made(*old(b))),
    ensures
        made(*final(b)) == made(*old(b)).push(Made::Float { bits, val: r }),
        val_ty(made(*old(b)), r) is None,
{
    b.ins().f64const(Ieee64::with_bits(bits)).as_u32()
}

/// `InstBuilder::Binary`: an operation on two values of one type, integers or
/// floats as it asks for.
#[verifier::external_body]
fn binary(b: &mut FunctionBuilder<'_>, op: BinOp, x: u32, y: u32) -> (r: u32)
    requires
        open(made(*old(b))),
        val_ty(made(*old(b)), x) is Some,
        val_ty(made(*old(b)), y) == val_ty(made(*old(b)), x),
        (val_ty(made(*old(b)), x)->0 == ClType::F64) == on_floats(op),
    ensures
        made(*final(b)) == made(*old(b)).push(Made::Binary { op, ty: val_ty(made(*old(b)), x)->0, x, y, val: r }),
        val_ty(made(*old(b)), r) is None,
{
    let code = match op {
        BinOp::Iadd => Opcode::Iadd, BinOp::Isub => Opcode::Isub, BinOp::Imul => Opcode::Imul, BinOp::Sdiv => Opcode::Sdiv,
        BinOp::Band => Opcode::Band, BinOp::Bor => Opcode::Bor, BinOp::Bxor => Opcode::Bxor,
        BinOp::Fadd => Opcode::Fadd, BinOp::Fsub => Opcode::Fsub, BinOp::Fmul => Opcode::Fmul, BinOp::Fdiv => Opcode::Fdiv,
    };
    let (x, y) = (Value::from_u32(x), Value::from_u32(y));
    let ty = b.func.dfg.value_type(x);
    let (inst, dfg) = b.ins().Binary(code, ty, x, y);
    dfg.first_result(inst).as_u32()
}

/// `InstBuilder::Unary`: a change of representation that is not a mere reading of
/// the same bits.
#[verifier::external_body]
fn unary(b: &mut FunctionBuilder<'_>, op: Conv, x: u32) -> (r: u32)
    requires
        open(made(*old(b))),
        val_ty(made(*old(b)), x) is Some,
        converts(op, val_ty(made(*old(b)), x)->0),
        op != Conv::FloatBits,
        op != Conv::BitsFloat,
    ensures
        made(*final(b)) == made(*old(b)).push(Made::Unary { op, x, val: r }),
        val_ty(made(*old(b)), r) is None,
{
    let (code, ty) = match op {
        Conv::Widen => (Opcode::Uextend, types::I64),
        Conv::Low8 => (Opcode::Ireduce, types::I8),
        Conv::Low32 => (Opcode::Ireduce, types::I32),
        Conv::IntFloat => (Opcode::FcvtFromSint, types::F64),
        Conv::FloatNeg | Conv::FloatBits | Conv::BitsFloat => (Opcode::Fneg, types::F64),
    };
    let (inst, dfg) = b.ins().Unary(code, ty, Value::from_u32(x));
    dfg.first_result(inst).as_u32()
}

/// `InstBuilder::bitcast`: the same 64 bits as a value of another type.
#[verifier::external_body]
fn bitcast(b: &mut FunctionBuilder<'_>, ty: ClType, x: u32) -> (r: u32)
    requires
        open(made(*old(b))),
        val_ty(made(*old(b)), x) == Some(ClType::I64) && ty == ClType::F64 || val_ty(made(*old(b)), x) == Some(ClType::F64) && ty == ClType::I64,
    ensures
        made(*final(b)) == made(*old(b)).push(Made::Bitcast { ty, x, val: r }),
        val_ty(made(*old(b)), r) is None,
{
    let ty = match ty {
        ClType::I8 => types::I8,
        ClType::I32 => types::I32,
        ClType::I64 => types::I64,
        ClType::F64 => types::F64,
    };
    b.ins().bitcast(ty, MemFlagsData::new(), Value::from_u32(x)).as_u32()
}

/// `InstBuilder::icmp`: whether a comparison of two integers of one type holds.
#[verifier::external_body]
fn int_test(b: &mut FunctionBuilder<'_>, test: Test, x: u32, y: u32) -> (r: u32)
    requires
        open(made(*old(b))),
        val_ty(made(*old(b)), x) is Some,
        val_ty(made(*old(b)), x)->0 != ClType::F64,
        val_ty(made(*old(b)), y) == val_ty(made(*old(b)), x),
    ensures
        made(*final(b)) == made(*old(b)).push(Made::Compare { test, x, y, val: r }),
        val_ty(made(*old(b)), r) is None,
{
    let test = match test {
        Test::Equal => IntCC::Equal,
        Test::NotEqual => IntCC::NotEqual,
        Test::Less => IntCC::SignedLessThan,
        Test::Greater => IntCC::SignedGreaterThan,
        Test::LessEqual => IntCC::SignedLessThanOrEqual,
        Test::GreaterEqual => IntCC::SignedGreaterThanOrEqual,
        Test::UnsignedLessEqual => IntCC::UnsignedLessThanOrEqual,
    };
    b.ins().icmp(test, Value::from_u32(x), Value::from_u32(y)).as_u32()
}

/// `InstBuilder::fcmp`: whether a comparison of two floats holds.
#[verifier::external_body]
fn float_test(b: &mut FunctionBuilder<'_>, test: Test, x: u32, y: u32) -> (r: u32)
    requires
        open(made(*old(b))),
        val_ty(made(*old(b)), x) == Some(ClType::F64),
        val_ty(made(*old(b)), y) == Some(ClType::F64),
        test != Test::UnsignedLessEqual,
    ensures
        made(*final(b)) == made(*old(b)).push(Made::FloatCompare { test, x, y, val: r }),
        val_ty(made(*old(b)), r) is None,
{
    let test = match test {
        Test::Equal => FloatCC::Equal,
        Test::NotEqual => FloatCC::NotEqual,
        Test::Less => FloatCC::LessThan,
        Test::Greater => FloatCC::GreaterThan,
        Test::LessEqual | Test::UnsignedLessEqual => FloatCC::LessThanOrEqual,
        Test::GreaterEqual => FloatCC::GreaterThanOrEqual,
    };
    b.ins().fcmp(test, Value::from_u32(x), Value::from_u32(y)).as_u32()
}

/// `InstBuilder::select`: one of two values of one type.
#[verifier::external_body]
fn select(b: &mut FunctionBuilder<'_>, cond: u32, x: u32, y: u32) -> (r: u32)
    requires
        open(made(*old(b))),
        val_ty(made(*old(b)), cond) is Some,
        val_ty(made(*old(b)), cond)->0 != ClType::F64,
        val_ty(made(*old(b)), x) is Some,
        val_ty(made(*old(b)), y) == val_ty(made(*old(b)), x),
    ensures
        made(*final(b)) == made(*old(b)).push(Made::Select { ty: val_ty(made(*old(b)), x)->0, cond, x, y, val: r }),
        val_ty(made(*old(b)), r) is None,
{
    b.ins().select(Value::from_u32(cond), Value::from_u32(x), Value::from_u32(y)).as_u32()
}

/// `InstBuilder::load`: a value from memory.
#[verifier::external_body]
fn load(b: &mut FunctionBuilder<'_>, ty: ClType, mem: Mem, base: u32, offset: i32) -> (r: u32)
    requires
        open(made(*old(b))),
        val_ty(made(*old(b)), base) == Some(ClType::I64),
    ensures
        made(*final(b)) == made(*old(b)).push(Made::Load { ty, mem, base, offset, val: r }),
        val_ty(made(*old(b)), r) is None,
{
    let flags = match mem {
        Mem::Heap => MemFlagsData::trusted(),
        Mem::Plain => MemFlagsData::new(),
    };
    let ty = match ty { ClType::I8 => types::I8, ClType::I32 => types::I32, ClType::I64 => types::I64, ClType::F64 => types::F64 };
    b.ins().load(ty, flags, Value::from_u32(base), offset).as_u32()
}

/// `InstBuilder::store`: a value into memory.
#[verifier::external_body]
fn store(b: &mut FunctionBuilder<'_>, mem: Mem, val: u32, base: u32, offset: i32)
    requires
        open(made(*old(b))),
        val_ty(made(*old(b)), val) is Some,
        val_ty(made(*old(b)), base) == Some(ClType::I64),
    ensures
        made(*final(b)) == made(*old(b)).push(Made::Store { mem, val, base, offset }),
{
    let flags = match mem {
        Mem::Heap => MemFlagsData::trusted(),
        Mem::Plain => MemFlagsData::new(),
    };
    b.ins().store(flags, Value::from_u32(val), Value::from_u32(base), offset);
}

/// `InstBuilder::stack_addr`: the address of a stack slot.
#[verifier::external_body]
fn stack_addr(b: &mut FunctionBuilder<'_>, slot: u32) -> (r: u32)
    requires
        open(made(*old(b))),
        slot_bytes(made(*old(b)), slot) is Some,
    ensures
        made(*final(b)) == made(*old(b)).push(Made::StackAddr { slot, val: r }),
        val_ty(made(*old(b)), r) is None,
{
    b.ins().stack_addr(types::I64, StackSlot::from_u32(slot), 0).as_u32()
}

/// `InstBuilder::stack_load`: a word of a stack slot.
#[verifier::external_body]
fn stack_load(b: &mut FunctionBuilder<'_>, slot: u32, offset: i32) -> (r: u32)
    requires
        open(made(*old(b))),
        slot_bytes(made(*old(b)), slot) is Some,
        0 <= offset,
        offset + 8 <= slot_bytes(made(*old(b)), slot)->0,
    ensures
        made(*final(b)) == made(*old(b)).push(Made::StackLoad { slot, offset, val: r }),
        val_ty(made(*old(b)), r) is None,
{
    b.ins().stack_load(types::I64, types::I64, StackSlot::from_u32(slot), offset).as_u32()
}

/// `InstBuilder::stack_store`: a value into a word of a stack slot.
#[verifier::external_body]
fn stack_store(b: &mut FunctionBuilder<'_>, val: u32, slot: u32, offset: i32)
    requires
        open(made(*old(b))),
        val_ty(made(*old(b)), val) is Some,
        slot_bytes(made(*old(b)), slot) is Some,
        0 <= offset,
        offset + 8 <= slot_bytes(made(*old(b)), slot)->0,
    ensures
        made(*final(b)) == made(*old(b)).push(Made::StackStore { val, slot, offset }),
{
    b.ins().stack_store(types::I64, Value::from_u32(val), StackSlot::from_u32(slot), offset);
}

/// `InstBuilder::jump`: the end of a block, on to another with these arguments.
#[verifier::external_body]
fn jump(b: &mut FunctionBuilder<'_>, block: u32, args: &Vec<u32>)
    requires
        open(made(*old(b))),
        known(made(*old(b)), block),
        !sealed(made(*old(b)), block),
        forall|i: int| 0 <= i < args@.len() ==> val_ty(made(*old(b)), #[trigger] args@[i]) is Some,
    ensures
        made(*final(b)) == made(*old(b)).push(Made::Jump { block, args: args@ }),
{
    let args: Vec<BlockArg> = args.iter().map(|a| BlockArg::Value(Value::from_u32(*a))).collect();
    b.ins().jump(Block::from_u32(block), &args);
}

/// `InstBuilder::brif`: the end of a block, on to one of two others.
#[verifier::external_body]
fn brif(b: &mut FunctionBuilder<'_>, cond: u32, yes: u32, args: &Vec<u32>, no: u32, others: &Vec<u32>)
    requires
        open(made(*old(b))),
        val_ty(made(*old(b)), cond) is Some,
        val_ty(made(*old(b)), cond)->0 != ClType::F64,
        known(made(*old(b)), yes),
        !sealed(made(*old(b)), yes),
        known(made(*old(b)), no),
        !sealed(made(*old(b)), no),
        forall|i: int| 0 <= i < args@.len() ==> val_ty(made(*old(b)), #[trigger] args@[i]) is Some,
        forall|i: int| 0 <= i < others@.len() ==> val_ty(made(*old(b)), #[trigger] others@[i]) is Some,
    ensures
        made(*final(b)) == made(*old(b)).push(Made::Brif { cond, yes, args: args@, no, others: others@ }),
{
    let args: Vec<BlockArg> = args.iter().map(|a| BlockArg::Value(Value::from_u32(*a))).collect();
    let others: Vec<BlockArg> = others.iter().map(|a| BlockArg::Value(Value::from_u32(*a))).collect();
    b.ins().brif(Value::from_u32(cond), Block::from_u32(yes), &args, Block::from_u32(no), &others);
}

/// `InstBuilder::return_`: the end of the function, with its results.
#[verifier::external_body]
fn return_values(b: &mut FunctionBuilder<'_>, args: &Vec<u32>)
    requires
        open(made(*old(b))),
        forall|i: int| 0 <= i < args@.len() ==> val_ty(made(*old(b)), #[trigger] args@[i]) is Some,
    ensures
        made(*final(b)) == made(*old(b)).push(Made::Return { args: args@ }),
{
    let args: Vec<Value> = args.iter().map(|a| Value::from_u32(*a)).collect();
    b.ins().return_(&args);
}

/// `InstBuilder::trap`: the end of the program. The highest five codes and zero are
/// not for users.
#[verifier::external_body]
fn trap(b: &mut FunctionBuilder<'_>, code: u8)
    requires
        open(made(*old(b))),
        0 < code <= 250,
    ensures
        made(*final(b)) == made(*old(b)).push(Made::Trap { code }),
{
    b.ins().trap(TrapCode::unwrap_user(code));
}

/// `InstBuilder::call` and `FunctionBuilder::inst_results`: a call, and the values
/// that it gives, one for each result of the signature.
#[verifier::external_body]
fn call(b: &mut FunctionBuilder<'_>, func: u32, args: &Vec<u32>) -> (r: Vec<u32>)
    requires
        open(made(*old(b))),
        called(made(*old(b)), func) is Some,
        called(made(*old(b)), func)->0.len() <= 65535,
        forall|i: int| 0 <= i < args@.len() ==> val_ty(made(*old(b)), #[trigger] args@[i]) is Some,
    ensures
        made(*final(b)) == made(*old(b)).push(Made::Call { func, args: args@, tys: called(made(*old(b)), func)->0, vals: r@ }),
        r@.len() == called(made(*old(b)), func)->0.len(),
        forall|i: int| 0 <= i < r@.len() ==> val_ty(made(*old(b)), #[trigger] r@[i]) is None,
        forall|i: int, j: int| 0 <= i < j < r@.len() ==> #[trigger] r@[i] != #[trigger] r@[j],
{
    let args: Vec<Value> = args.iter().map(|a| Value::from_u32(*a)).collect();
    let inst = b.ins().call(FuncRef::from_u32(func), &args);
    b.inst_results(inst).iter().map(|v| v.as_u32()).collect()
}

// ── Operations that fit together ─────────────────────────────────────────

/// What an operation left behind.
pub ghost enum Seat {
    Nothing,
    Val(ClType),
    Block(int),
    Var(int),
    Slot(int),
}

pub ghost struct Blk {
    pub filled: bool,
    pub sealed: bool,
    pub begun: bool,
    pub params: nat,
}

pub ghost struct Vr {
    pub ty: ClType,
    pub touched: bool,
}

/// How far operations have come: what each left behind, the state of the
/// blocks, variables and stack slots, the block at hand, and the arguments
/// that wait.
pub ghost struct Form {
    pub seats: Seq<Seat>,
    pub blocks: Seq<Blk>,
    /// The types of the parameters of each block.
    pub shapes: Seq<Seq<ClType>>,
    /// Whether anything leads to a block.
    pub aimed: Seq<bool>,
    /// The most parameters that a block has.
    pub widest: nat,
    pub vars: Seq<Vr>,
    pub slots: Seq<u32>,
    pub at: Option<int>,
    pub args: Seq<usize>,
    pub others: Seq<usize>,
    pub call: Option<int>,
    pub results: Seq<ClType>,
    pub entry: Option<int>,
}

/// The greater of two numbers.
pub open spec fn most(a: nat, b: nat) -> nat {
    if a < b {
        b
    } else {
        a
    }
}

/// What the machine that code runs on has settled: where the parts of objects
/// lie, the word of `none`, and where the string constants are.
pub struct Target {
    pub none_word: i64,
    pub list_data: i32,
    pub list_stride: i32,
    pub list_len: i32,
    pub list_cap: i32,
    pub shared: i32,
    pub variant_tag: i32,
    pub variant_slots: i32,
    pub strings: Vec<i64>,
}

/// Where a part of an object lies.
pub open spec fn offset_of(t: Target, at: Field) -> int {
    match at {
        Field::ListData => t.list_data as int,
        Field::ListStride => t.list_stride as int,
        Field::ListLen => t.list_len as int,
        Field::ListCap => t.list_cap as int,
        Field::Shared => t.shared as int,
        Field::VariantTag => t.variant_tag as int,
        Field::VariantSlot(i) => t.variant_slots + 8 * i,
        Field::Word(i) => 8 * i as int,
        Field::Out(i) => 8 * i as int,
    }
}

pub open spec fn mem_of(at: Field) -> Mem {
    match at {
        Field::Out(_) => Mem::Plain,
        _ => Mem::Heap,
    }
}

/// What operations refer to outside themselves: the parameters and results of
/// the function, the functions that can be called with the number that each has,
/// and the machine.
pub ghost struct World {
    pub params: Seq<ClType>,
    pub results: Seq<ClType>,
    pub decls: Seq<Decl>,
    pub ids: Seq<u32>,
    pub target: Target,
}

pub open spec fn ty_at(f: Form, p: usize) -> Option<ClType> {
    if p < f.seats.len() {
        match f.seats[p as int] {
            Seat::Val(ty) => Some(ty),
            _ => None,
        }
    } else {
        None
    }
}

/// The types of values.
pub open spec fn tys_at(f: Form, ps: Seq<usize>) -> Seq<ClType> {
    ps.map_values(|p: usize| ty_at(f, p)->0)
}

pub open spec fn block_at(f: Form, p: usize) -> Option<int> {
    if p < f.seats.len() {
        match f.seats[p as int] {
            Seat::Block(k) => Some(k),
            _ => None,
        }
    } else {
        None
    }
}

pub open spec fn var_at(f: Form, p: usize) -> Option<int> {
    if p < f.seats.len() {
        match f.seats[p as int] {
            Seat::Var(k) => Some(k),
            _ => None,
        }
    } else {
        None
    }
}

pub open spec fn slot_at(f: Form, p: usize) -> Option<int> {
    if p < f.seats.len() {
        match f.seats[p as int] {
            Seat::Slot(k) => Some(k),
            _ => None,
        }
    } else {
        None
    }
}

/// Whether there is a block that operations can go into.
pub open spec fn is_open(f: Form) -> bool {
    f.at is Some && !f.blocks[f.at->0].filled
}

/// With something in the block at hand.
pub open spec fn marked(f: Form) -> Form {
    Form { blocks: f.blocks.update(f.at->0, Blk { begun: true, ..f.blocks[f.at->0] }), ..f }
}

/// With one more operation, that left `s` behind.
pub open spec fn seated(f: Form, s: Seat) -> Form {
    Form { seats: f.seats.push(s), ..f }
}

/// With the block at hand ended, and no argument waiting.
pub open spec fn ended(f: Form) -> Form {
    seated(
        Form {
            blocks: f.blocks.update(f.at->0, Blk { begun: true, filled: true, ..f.blocks[f.at->0] }),
            args: Seq::empty(),
            others: Seq::empty(),
            ..f
        },
        Seat::Nothing,
    )
}

/// With something that leads to a block.
pub open spec fn aimed_at(f: Form, k: int) -> Form {
    Form { aimed: f.aimed.update(k, true), ..f }
}

pub open spec fn when(ok: bool, f: Form) -> Option<Form> {
    if ok {
        Some(f)
    } else {
        None
    }
}

pub open spec fn value_when(ok: bool, f: Form, ty: ClType) -> Option<Form> {
    when(ok && is_open(f), seated(marked(f), Seat::Val(ty)))
}

pub open spec fn is_int(t: Option<ClType>) -> bool {
    t is Some && t->0 != ClType::F64
}

/// What follows from an operation, where it fits.
pub open spec fn fit(f: Form, op: Op, w: World) -> Option<Form> {
    match op {
        Op::Iconst { ty, imm: _ } => value_when(ty != ClType::F64, f, ty),
        Op::F64const { bits: _ } => value_when(true, f, ClType::F64),
        Op::StrAddr { index } => value_when(index < w.target.strings@.len(), f, ClType::I64),
        Op::NoneWord => value_when(true, f, ClType::I64),
        Op::Binary { op, a, b } => value_when(
            ty_at(f, a) is Some && ty_at(f, b) == ty_at(f, a) && (ty_at(f, a)->0 == ClType::F64) == on_floats(op),
            f,
            ty_at(f, a)->0,
        ),
        Op::BinaryImm { op, a, imm: _ } => value_when(is_int(ty_at(f, a)) && !on_floats(op), f, ty_at(f, a)->0),
        Op::Convert { op, a } => value_when(
            ty_at(f, a) is Some && converts(op, ty_at(f, a)->0),
            f,
            converted(op),
        ),
        Op::Compare { test: _, a, b } => value_when(
            is_int(ty_at(f, a)) && ty_at(f, b) == ty_at(f, a),
            f,
            ClType::I8,
        ),
        Op::CompareImm { test: _, a, imm: _ } => value_when(is_int(ty_at(f, a)), f, ClType::I8),
        Op::FloatCompare { test, a, b } => value_when(
            ty_at(f, a) == Some(ClType::F64) && ty_at(f, b) == Some(ClType::F64) && test != Test::UnsignedLessEqual,
            f,
            ClType::I8,
        ),
        Op::Select { cond, a, b } => value_when(
            is_int(ty_at(f, cond)) && ty_at(f, a) is Some && ty_at(f, b) == ty_at(f, a),
            f,
            ty_at(f, a)->0,
        ),
        Op::Load { ty, base, at } => value_when(
            ty_at(f, base) == Some(ClType::I64) && i32::MIN <= offset_of(w.target, at) <= i32::MAX,
            f,
            ty,
        ),
        Op::Store { val, base, at } => when(
            is_open(f) && ty_at(f, val) is Some && ty_at(f, base) == Some(ClType::I64) && i32::MIN <= offset_of(
                w.target,
                at,
            ) <= i32::MAX,
            seated(marked(f), Seat::Nothing),
        ),
        Op::StackSlot { words } => when(
            words * 8 <= i32::MAX,
            seated(Form { slots: f.slots.push((words * 8) as u32), ..f }, Seat::Slot(f.slots.len() as int)),
        ),
        Op::StackStore { val, slot, word } => when(
            is_open(f) && ty_at(f, val) is Some && slot_at(f, slot) is Some && word * 8 + 8 <= f.slots[slot_at(
                f,
                slot,
            )->0],
            seated(marked(f), Seat::Nothing),
        ),
        Op::StackLoad { slot, word } => value_when(
            slot_at(f, slot) is Some && word * 8 + 8 <= f.slots[slot_at(f, slot)->0],
            f,
            ClType::I64,
        ),
        Op::StackAddr { slot } => value_when(slot_at(f, slot) is Some, f, ClType::I64),
        Op::Var { ty } => when(
            f.widest + f.vars.len() < 65536,
            seated(Form { vars: f.vars.push(Vr { ty, touched: false }), ..f }, Seat::Var(f.vars.len() as int)),
        ),
        Op::GcVar { var } => when(
            var_at(f, var) is Some && !f.vars[var_at(f, var)->0].touched,
            seated(f, Seat::Nothing),
        ),
        Op::DefVar { var, val } => when(
            f.at is Some && var_at(f, var) is Some && ty_at(f, val) == Some(f.vars[var_at(f, var)->0].ty),
            seated(touched_in(f, var_at(f, var)->0), Seat::Nothing),
        ),
        Op::UseVar { var } => when(
            is_open(f) && var_at(f, var) is Some,
            seated(touched_in(marked(f), var_at(f, var)->0), Seat::Val(f.vars[var_at(f, var)->0].ty)),
        ),
        Op::GcValue { val } => when(ty_at(f, val) is Some, seated(f, Seat::Nothing)),
        Op::Block => when(
            f.blocks.len() > 0 || w.params.len() <= 65535 && w.params.len() + f.vars.len() <= 65536,
            seated(
                Form {
                    blocks: f.blocks.push(
                        Blk {
                            filled: false,
                            sealed: false,
                            begun: false,
                            params: if f.blocks.len() == 0 {
                                w.params.len()
                            } else {
                                0
                            },
                        },
                    ),
                    shapes: f.shapes.push(
                        if f.blocks.len() == 0 {
                            w.params
                        } else {
                            Seq::empty()
                        },
                    ),
                    aimed: f.aimed.push(false),
                    widest: if f.blocks.len() == 0 {
                        most(f.widest, w.params.len())
                    } else {
                        f.widest
                    },
                    entry: if f.blocks.len() == 0 {
                        Some(f.seats.len() as int)
                    } else {
                        f.entry
                    },
                    ..f
                },
                Seat::Block(f.blocks.len() as int),
            ),
        ),
        Op::BlockParam { block, ty } => match block_at(f, block) {
            Some(k) => when(
                !f.blocks[k].begun && !f.aimed[k] && f.blocks[k].params < 65535 && f.blocks[k].params + f.vars.len()
                    < 65536,
                seated(
                    Form {
                        blocks: f.blocks.update(k, Blk { params: f.blocks[k].params + 1, ..f.blocks[k] }),
                        shapes: f.shapes.update(k, f.shapes[k].push(ty)),
                        widest: most(f.widest, f.blocks[k].params + 1),
                        ..f
                    },
                    Seat::Val(ty),
                ),
            ),
            None => None,
        },
        Op::EntryParam { index } => when(
            f.entry is Some && index < w.params.len(),
            seated(f, Seat::Val(w.params[index as int])),
        ),
        Op::Switch { block } => match block_at(f, block) {
            Some(k) => when(
                !f.blocks[k].filled && (f.at is None || f.blocks[f.at->0].filled || !f.blocks[f.at->0].begun),
                seated(Form { at: Some(k), ..f }, Seat::Nothing),
            ),
            None => None,
        },
        Op::Seal { block } => match block_at(f, block) {
            Some(k) => when(
                !f.blocks[k].sealed,
                seated(
                    Form { blocks: f.blocks.update(k, Blk { sealed: true, ..f.blocks[k] }), ..f },
                    Seat::Nothing,
                ),
            ),
            None => None,
        },
        Op::Arg { val } => when(
            ty_at(f, val) is Some,
            seated(Form { args: f.args.push(val), ..f }, Seat::Nothing),
        ),
        Op::ElseArg { val } => when(
            ty_at(f, val) is Some,
            seated(Form { others: f.others.push(val), ..f }, Seat::Nothing),
        ),
        Op::Jump { block } => match block_at(f, block) {
            Some(k) => when(
                is_open(f) && !f.blocks[k].sealed && tys_at(f, f.args) == f.shapes[k],
                ended(aimed_at(f, k)),
            ),
            None => None,
        },
        Op::Brif { cond, yes, no } => match (block_at(f, yes), block_at(f, no)) {
            (Some(k), Some(l)) => when(
                is_open(f) && is_int(ty_at(f, cond)) && !f.blocks[k].sealed && !f.blocks[l].sealed && tys_at(f, f.args)
                    == f.shapes[k] && tys_at(f, f.others) == f.shapes[l],
                ended(aimed_at(aimed_at(f, k), l)),
            ),
            _ => None,
        },
        Op::Return => when(is_open(f) && tys_at(f, f.args) == w.results, ended(f)),
        Op::Trap { code } => when(is_open(f) && 0 < code <= 250, ended(f)),
        Op::Call { func } => when(
            is_open(f) && func < w.decls.len() && func < w.ids.len() && tys_at(f, f.args)
                == w.decls[func as int].sig.params@ && w.decls[func as int].sig.results@.len() <= 65535,
            seated(
                Form {
                    args: Seq::empty(),
                    others: Seq::empty(),
                    call: Some(f.seats.len() as int),
                    results: w.decls[func as int].sig.results@,
                    ..marked(f)
                },
                Seat::Nothing,
            ),
        ),
        Op::Result { index } => when(
            f.call is Some && index < f.results.len(),
            seated(f, Seat::Val(f.results[index as int])),
        ),
    }
}

pub open spec fn touched_in(f: Form, k: int) -> Form {
    Form { vars: f.vars.update(k, Vr { touched: true, ..f.vars[k] }), ..f }
}

/// Before the first operation.
pub open spec fn blank() -> Form {
    Form {
        seats: Seq::empty(),
        blocks: Seq::empty(),
        shapes: Seq::empty(),
        aimed: Seq::empty(),
        widest: 0,
        vars: Seq::empty(),
        slots: Seq::empty(),
        at: None,
        args: Seq::empty(),
        others: Seq::empty(),
        call: None,
        results: Seq::empty(),
        entry: None,
    }
}

/// What follows from operations, where all of them fit.
pub open spec fn fit_all(ops: Seq<Op>, w: World) -> Option<Form>
    decreases ops.len(),
{
    if ops.len() == 0 {
        Some(blank())
    } else {
        match fit_all(ops.drop_last(), w) {
            Some(f) => fit(f, ops.last(), w),
            None => None,
        }
    }
}

/// The numbers that came back for an operation: that of what it left behind,
/// those of what it needed on the way, and those of the values of a block or a
/// call.
#[derive(Debug)]
pub struct Row {
    pub num: u32,
    pub extra: Vec<u32>,
    pub vals: Vec<u32>,
}

pub ghost struct RowView {
    pub num: u32,
    pub extra: Seq<u32>,
    pub vals: Seq<u32>,
}

pub open spec fn row_view(r: Row) -> RowView {
    RowView { num: r.num, extra: r.extra@, vals: r.vals@ }
}

pub open spec fn row_views(rs: Seq<Row>) -> Seq<RowView> {
    rs.map_values(|r: Row| row_view(r))
}

/// The numbers of what operations left behind.
pub open spec fn nums(rows: Seq<RowView>, ps: Seq<usize>) -> Seq<u32> {
    ps.map_values(|p: usize| rows[p as int].num)
}

/// The calls of the builder that the last operation of `rows` is made into.
pub open spec fn emitted(f: Form, op: Op, rows: Seq<RowView>, w: World) -> Seq<Made> {
    let me = rows.last();
    let n = |p: usize| rows[p as int].num;
    match op {
        Op::Iconst { ty, imm } => seq![Made::Const { ty, imm, val: me.num }],
        Op::F64const { bits } => seq![Made::Float { bits, val: me.num }],
        Op::StrAddr { index } => seq![
            Made::Const { ty: ClType::I64, imm: w.target.strings@[index as int], val: me.num },
        ],
        Op::NoneWord => seq![Made::Const { ty: ClType::I64, imm: w.target.none_word, val: me.num }],
        Op::Binary { op, a, b } => seq![
            Made::Binary { op, ty: ty_at(f, a)->0, x: n(a), y: n(b), val: me.num },
        ],
        Op::BinaryImm { op, a, imm } => seq![
            Made::Const { ty: ty_at(f, a)->0, imm, val: me.extra[0] },
            Made::Binary { op, ty: ty_at(f, a)->0, x: n(a), y: me.extra[0], val: me.num },
        ],
        Op::Convert { op, a } => if op == Conv::FloatBits || op == Conv::BitsFloat {
            seq![Made::Bitcast { ty: converted(op), x: n(a), val: me.num }]
        } else {
            seq![Made::Unary { op, x: n(a), val: me.num }]
        },
        Op::Compare { test, a, b } => seq![Made::Compare { test, x: n(a), y: n(b), val: me.num }],
        Op::CompareImm { test, a, imm } => seq![
            Made::Const { ty: ty_at(f, a)->0, imm, val: me.extra[0] },
            Made::Compare { test, x: n(a), y: me.extra[0], val: me.num },
        ],
        Op::FloatCompare { test, a, b } => seq![Made::FloatCompare { test, x: n(a), y: n(b), val: me.num }],
        Op::Select { cond, a, b } => seq![
            Made::Select { ty: ty_at(f, a)->0, cond: n(cond), x: n(a), y: n(b), val: me.num },
        ],
        Op::Load { ty, base, at } => seq![
            Made::Load {
                ty,
                mem: mem_of(at),
                base: n(base),
                offset: offset_of(w.target, at) as i32,
                val: me.num,
            },
        ],
        Op::Store { val, base, at } => seq![
            Made::Store { mem: mem_of(at), val: n(val), base: n(base), offset: offset_of(w.target, at) as i32 },
        ],
        Op::StackSlot { words } => seq![Made::Slot { bytes: (words * 8) as u32, slot: me.num }],
        Op::StackStore { val, slot, word } => seq![
            Made::StackStore { val: n(val), slot: n(slot), offset: (word * 8) as i32 },
        ],
        Op::StackLoad { slot, word } => seq![
            Made::StackLoad { slot: n(slot), offset: (word * 8) as i32, val: me.num },
        ],
        Op::StackAddr { slot } => seq![Made::StackAddr { slot: n(slot), val: me.num }],
        Op::Var { ty } => seq![Made::Var { ty, var: me.num }],
        Op::GcVar { var } => seq![Made::GcVar { var: n(var) }],
        Op::DefVar { var, val } => seq![Made::Def { var: n(var), val: n(val) }],
        Op::UseVar { var } => seq![
            Made::Use { var: n(var), ty: f.vars[var_at(f, var)->0].ty, val: me.num },
        ],
        Op::GcValue { val } => seq![Made::GcValue { val: n(val) }],
        Op::Block => if f.blocks.len() == 0 {
            seq![
                Made::Block { block: me.num },
                Made::EntryParams { block: me.num, tys: w.params, vals: me.vals },
            ]
        } else {
            seq![Made::Block { block: me.num }]
        },
        Op::BlockParam { block, ty } => seq![Made::Param { block: n(block), ty, val: me.num }],
        Op::EntryParam { index: _ } => Seq::empty(),
        Op::Switch { block } => seq![Made::Switch { block: n(block) }],
        Op::Seal { block } => seq![Made::Seal { block: n(block) }],
        Op::Arg { val: _ } => Seq::empty(),
        Op::ElseArg { val: _ } => Seq::empty(),
        Op::Jump { block } => seq![Made::Jump { block: n(block), args: nums(rows, f.args) }],
        Op::Brif { cond, yes, no } => seq![
            Made::Brif {
                cond: n(cond),
                yes: n(yes),
                args: nums(rows, f.args),
                no: n(no),
                others: nums(rows, f.others),
            },
        ],
        Op::Return => seq![Made::Return { args: nums(rows, f.args) }],
        Op::Trap { code } => seq![Made::Trap { code }],
        Op::Call { func } => {
            let d = w.decls[func as int];
            seq![
                Made::Sig { params: d.sig.params@, results: d.sig.results@, sig: me.extra[0] },
                Made::Name { index: w.ids[func as int], name: me.extra[1] },
                Made::Import { name: me.extra[1], sig: me.extra[0], local: !d.import, func: me.extra[2] },
                Made::Call {
                    func: me.extra[2],
                    args: nums(rows, f.args),
                    tys: d.sig.results@,
                    vals: me.vals,
                },
            ]
        },
        Op::Result { index: _ } => Seq::empty(),
    }
}

/// What the number of the last operation is, where it asks for an earlier one.
pub open spec fn tied(f: Form, op: Op, rows: Seq<RowView>) -> bool {
    match op {
        Op::EntryParam { index } => rows.last().num == rows[f.entry->0].vals[index as int],
        Op::Result { index } => rows.last().num == rows[f.call->0].vals[index as int],
        _ => true,
    }
}

/// The calls that operations are made into, if the numbers in `rows` come
/// back.
pub open spec fn trace(ops: Seq<Op>, rows: Seq<RowView>, w: World) -> Seq<Made>
    decreases ops.len(),
{
    if ops.len() == 0 {
        Seq::empty()
    } else {
        trace(ops.drop_last(), rows.drop_last(), w) + emitted(
            fit_all(ops.drop_last(), w)->0,
            ops.last(),
            rows,
            w,
        )
    }
}

pub open spec fn all_tied(ops: Seq<Op>, rows: Seq<RowView>, w: World) -> bool
    decreases ops.len(),
{
    ops.len() == 0 || (all_tied(ops.drop_last(), rows.drop_last(), w) && tied(
        fit_all(ops.drop_last(), w)->0,
        ops.last(),
        rows,
    ))
}

// ── What is kept on the way ──────────────────────────────────────────────

#[derive(Debug, Clone, Copy, PartialEq, Eq, Structural)]
enum Place {
    Nothing,
    Val { num: u32, ty: ClType },
    Block { at: usize },
    Var { at: usize },
    Slot { at: usize },
}

#[derive(Debug, Clone, Copy)]
struct BlockRow {
    num: u32,
    filled: bool,
    sealed: bool,
    begun: bool,
    params: usize,
}

#[derive(Debug, Clone, Copy)]
struct VarRow {
    num: u32,
    ty: ClType,
    touched: bool,
}

#[derive(Debug, Clone, Copy)]
struct SlotRow {
    num: u32,
    bytes: u32,
}

struct Desk {
    seats: Vec<Place>,
    blocks: Vec<BlockRow>,
    shapes: Vec<Vec<ClType>>,
    aimed: Vec<bool>,
    widest: usize,
    vars: Vec<VarRow>,
    slots: Vec<SlotRow>,
    at: Option<usize>,
    args: Vec<usize>,
    others: Vec<usize>,
    call: Option<usize>,
    vals: Vec<u32>,
    results: Vec<ClType>,
    entry: Option<usize>,
    entry_vals: Vec<u32>,
}

spec fn seat_view(p: Place) -> Seat {
    match p {
        Place::Nothing => Seat::Nothing,
        Place::Val { num: _, ty } => Seat::Val(ty),
        Place::Block { at } => Seat::Block(at as int),
        Place::Var { at } => Seat::Var(at as int),
        Place::Slot { at } => Seat::Slot(at as int),
    }
}

spec fn at_view(o: Option<usize>) -> Option<int> {
    match o {
        Some(k) => Some(k as int),
        None => None,
    }
}

impl Desk {
    spec fn form(self) -> Form {
        Form {
            seats: self.seats@.map_values(|p: Place| seat_view(p)),
            blocks: self.blocks@.map_values(
                |r: BlockRow|
                    Blk { filled: r.filled, sealed: r.sealed, begun: r.begun, params: r.params as nat },
            ),
            shapes: self.shapes@.map_values(|v: Vec<ClType>| v@),
            aimed: self.aimed@,
            widest: self.widest as nat,
            vars: self.vars@.map_values(|r: VarRow| Vr { ty: r.ty, touched: r.touched }),
            slots: self.slots@.map_values(|r: SlotRow| r.bytes),
            at: at_view(self.at),
            args: self.args@,
            others: self.others@,
            call: at_view(self.call),
            results: self.results@,
            entry: at_view(self.entry),
        }
    }

    /// Whether a seat agrees with the numbers and the calls.
    spec fn seat_ok(self, i: int, rows: Seq<RowView>, log: Seq<Made>) -> bool {
        match self.seats@[i] {
            Place::Nothing => true,
            Place::Val { num, ty } => rows[i].num == num && val_ty(log, num) == Some(ty),
            Place::Block { at } => at < self.blocks@.len() && rows[i].num == self.blocks@[at as int].num,
            Place::Var { at } => at < self.vars@.len() && rows[i].num == self.vars@[at as int].num,
            Place::Slot { at } => at < self.slots@.len() && rows[i].num == self.slots@[at as int].num,
        }
    }

    spec fn block_ok(self, k: int, log: Seq<Made>) -> bool {
        let r = self.blocks@[k];
        known(log, r.num) && r.filled == filled(log, r.num) && r.sealed == sealed(log, r.num) && r.begun == begun(
            log,
            r.num,
        ) && r.params == param_count(log, r.num)
    }

    spec fn var_ok(self, k: int, log: Seq<Made>) -> bool {
        let r = self.vars@[k];
        var_ty(log, r.num) == Some(r.ty) && r.touched == touched(log, r.num)
    }

    spec fn waits(self, ps: Seq<usize>) -> bool {
        forall|k: int|
            0 <= k < ps.len() ==> (#[trigger] ps[k]) < self.seats@.len() && self.seats@[ps[k] as int] is Val
    }

    spec fn linked(self, rows: Seq<RowView>, log: Seq<Made>, params: Seq<ClType>) -> bool {
        &&& rows.len() == self.seats@.len()
        &&& sig_params(log) == Some(params)
        &&& forall|i: int| 0 <= i < self.seats@.len() ==> #[trigger] self.seat_ok(i, rows, log)
        &&& forall|k: int| 0 <= k < self.blocks@.len() ==> #[trigger] self.block_ok(k, log)
        &&& forall|k: int| 0 <= k < self.vars@.len() ==> #[trigger] self.var_ok(k, log)
        &&& forall|k: int|
            0 <= k < self.slots@.len() ==> slot_bytes(log, (#[trigger] self.slots@[k]).num) == Some(self.slots@[k].bytes)
                && self.slots@[k].bytes <= i32::MAX
        &&& forall|j: int, k: int|
            0 <= j < k < self.blocks@.len() ==> (#[trigger] self.blocks@[j]).num != (#[trigger] self.blocks@[k]).num
        &&& forall|j: int, k: int|
            0 <= j < k < self.vars@.len() ==> (#[trigger] self.vars@[j]).num != (#[trigger] self.vars@[k]).num
        &&& match self.at {
            Some(k) => k < self.blocks@.len() && current(log) == Some(self.blocks@[k as int].num),
            None => current(log) is None,
        }
        &&& self.waits(self.args@)
        &&& self.waits(self.others@)
        &&& self.vals@.len() == self.results@.len()
        &&& forall|k: int|
            0 <= k < self.vals@.len() ==> val_ty(log, #[trigger] self.vals@[k]) == Some(self.results@[k])
        &&& self.call is Some ==> self.call->0 < rows.len() && rows[self.call->0 as int].vals == self.vals@
        &&& self.entry is Some ==> self.entry->0 < rows.len() && rows[self.entry->0 as int].vals == self.entry_vals@
            && self.entry_vals@.len() == params.len() && forall|k: int|
            0 <= k < self.entry_vals@.len() ==> val_ty(log, #[trigger] self.entry_vals@[k]) == Some(params[k])
        &&& self.entry is Some <==> self.blocks@.len() > 0
        &&& self.shapes@.len() == self.blocks@.len()
        &&& self.aimed@.len() == self.blocks@.len()
        &&& var_count(log) == self.vars@.len()
        &&& forall|k: u32| #[trigger] param_count(log, k) <= self.widest
        &&& self.widest + self.vars@.len() <= 65536
    }
}

/// What one more call changes.
proof fn pushed(log: Seq<Made>, m: Made)
    ensures
        forall|v: u32| #[trigger] val_ty(log.push(m), v) == (match here(m, v) {
            Some(ty) => Some(ty),
            None => val_ty(log, v),
        }),
        current(log.push(m)) == (match m {
            Made::Switch { block } => Some(block),
            _ => current(log),
        }),
        forall|k: u32| #[trigger] known(log.push(m), k) == (m == (Made::Block { block: k }) || known(log, k)),
        forall|k: u32| #[trigger] begun(log.push(m), k) == (puts(m) && current(log) == Some(k) || begun(log, k)),
        forall|k: u32| #[trigger] filled(log.push(m), k) == (ends(m) && current(log) == Some(k) || filled(log, k)),
        forall|k: u32| #[trigger] sealed(log.push(m), k) == (m == (Made::Seal { block: k }) || sealed(log, k)),
        forall|k: u32| #[trigger]
            param_count(log.push(m), k) == param_count(log, k) + (match m {
                Made::Param { block, ty: _, val: _ } => if block == k {
                    1nat
                } else {
                    0nat
                },
                Made::EntryParams { block, tys, vals: _ } => if block == k {
                    tys.len()
                } else {
                    0nat
                },
                _ => 0nat,
            }),
        var_count(log.push(m)) == var_count(log) + (if m is Var {
            1nat
        } else {
            0nat
        }),
        forall|v: u32| #[trigger] var_ty(log.push(m), v) == (match m {
            Made::Var { ty, var } => if var == v {
                Some(ty)
            } else {
                var_ty(log, v)
            },
            _ => var_ty(log, v),
        }),
        forall|v: u32| #[trigger] touched(log.push(m), v) == (match m {
            Made::Def { var, val: _ } => var == v || touched(log, v),
            Made::Use { var, ty: _, val: _ } => var == v || touched(log, v),
            _ => touched(log, v),
        }),
        forall|s: u32| #[trigger] slot_bytes(log.push(m), s) == (match m {
            Made::Slot { bytes, slot } => if slot == s {
                Some(bytes)
            } else {
                slot_bytes(log, s)
            },
            _ => slot_bytes(log, s),
        }),
        sig_params(log.push(m)) == (match m {
            Made::Signature { params, results: _ } => Some(params),
            _ => sig_params(log),
        }),
        forall|s: u32| #[trigger] sig_at(log.push(m), s) == (match m {
            Made::Sig { params: _, results, sig } => if sig == s {
                Some(results)
            } else {
                sig_at(log, s)
            },
            _ => sig_at(log, s),
        }),
        forall|n: u32| #[trigger] name_at(log.push(m), n) == (match m {
            Made::Name { index, name } => if name == n {
                Some(index)
            } else {
                name_at(log, n)
            },
            _ => name_at(log, n),
        }),
        forall|f: u32| #[trigger] func_at(log.push(m), f) == (match m {
            Made::Import { name: _, sig, local: _, func } => if func == f {
                Some(sig)
            } else {
                func_at(log, f)
            },
            _ => func_at(log, f),
        }),
{
    assert(log.push(m).drop_last() =~= log);
    assert(log.push(m).last() == m);
}

/// The type that a call gives a value.
spec fn here(m: Made, v: u32) -> Option<ClType> {
    match m {
        Made::EntryParams { block: _, tys, vals } => among(vals, tys, v),
        Made::Call { func: _, args: _, tys, vals } => among(vals, tys, v),
        _ => match given(m) {
            Some((w, ty)) => if w == v {
                Some(ty)
            } else {
                None
            },
            None => None,
        },
    }
}

/// A value that did not come with others is not found among them.
proof fn among_misses(vals: Seq<u32>, tys: Seq<ClType>, v: u32)
    requires
        forall|k: int| 0 <= k < vals.len() ==> #[trigger] vals[k] != v,
    ensures
        among(vals, tys, v) is None,
    decreases vals.len(),
{
    if vals.len() > 0 && tys.len() == vals.len() {
        let l = vals.drop_last();
        assert(vals[vals.len() - 1] != v);
        assert forall|k: int| 0 <= k < l.len() implies #[trigger] l[k] != v by {
            assert(l[k] == vals[k]);
        }
        among_misses(l, tys.drop_last(), v);
    }
}

/// Values that came together are found with their types.
proof fn among_finds(vals: Seq<u32>, tys: Seq<ClType>)
    requires
        vals.len() == tys.len(),
        forall|i: int, j: int| 0 <= i < j < vals.len() ==> #[trigger] vals[i] != #[trigger] vals[j],
    ensures
        forall|k: int| 0 <= k < vals.len() ==> among(vals, tys, #[trigger] vals[k]) == Some(tys[k]),
    decreases vals.len(),
{
    if vals.len() > 0 {
        among_finds(vals.drop_last(), tys.drop_last());
        let l = vals.drop_last();
        assert forall|k: int| 0 <= k < vals.len() implies among(vals, tys, #[trigger] vals[k]) == Some(tys[k]) by {
            if k < l.len() {
                assert(vals[k] == l[k]);
                assert(vals[k] != vals[vals.len() - 1]);
            }
        }
    }
}

/// None of the values that came together was there before.
proof fn among_new(log: Seq<Made>, vals: Seq<u32>, tys: Seq<ClType>, v: u32)
    requires
        forall|i: int| 0 <= i < vals.len() ==> val_ty(log, #[trigger] vals[i]) is None,
        among(vals, tys, v) is Some,
    ensures
        val_ty(log, v) is None,
{
    if val_ty(log, v) is Some {
        assert forall|k: int| 0 <= k < vals.len() implies #[trigger] vals[k] != v by {}
        among_misses(vals, tys, v);
    }
}

impl Target {
    /// Where a part of an object lies, if that can be told.
    fn offset(&self, at: Field) -> (r: Option<i32>)
        ensures
            match r {
                Some(o) => o == offset_of(*self, at),
                None => !(i32::MIN <= offset_of(*self, at) <= i32::MAX),
            },
    {
        let (base, i) = match at {
            Field::ListData => (self.list_data, 0),
            Field::ListStride => (self.list_stride, 0),
            Field::ListLen => (self.list_len, 0),
            Field::ListCap => (self.list_cap, 0),
            Field::Shared => (self.shared, 0),
            Field::VariantTag => (self.variant_tag, 0),
            Field::VariantSlot(i) => (self.variant_slots, i),
            Field::Word(i) => (0, i),
            Field::Out(i) => (0, i),
        };
        if i > 1_000_000_000 {
            return None;
        }
        let sum: i64 = base as i64 + 8 * (i as i64);
        if sum < i32::MIN as i64 || sum > i32::MAX as i64 {
            None
        } else {
            Some(sum as i32)
        }
    }
}

fn mem(at: Field) -> (r: Mem)
    ensures
        r == mem_of(at),
{
    match at {
        Field::Out(_) => Mem::Plain,
        _ => Mem::Heap,
    }
}

impl Desk {
    fn new(Ghost(params): Ghost<Seq<ClType>>, Ghost(results): Ghost<Seq<ClType>>) -> (r: Desk)
        ensures
            r.form() == blank(),
            r.linked(Seq::empty(), Seq::empty().push(Made::Signature { params, results }), params),
    {
        let r = Desk {
            seats: Vec::new(),
            blocks: Vec::new(),
            shapes: Vec::new(),
            aimed: Vec::new(),
            widest: 0,
            vars: Vec::new(),
            slots: Vec::new(),
            at: None,
            args: Vec::new(),
            others: Vec::new(),
            call: None,
            vals: Vec::new(),
            results: Vec::new(),
            entry: None,
            entry_vals: Vec::new(),
        };
        proof {
            let f = r.form();
            assert(f.seats =~= Seq::empty());
            assert(f.blocks =~= Seq::empty());
            assert(f.shapes =~= Seq::empty());
            assert(f.aimed =~= Seq::empty());
            assert(f.vars =~= Seq::empty());
            assert(f.slots =~= Seq::empty());
            assert(f.args =~= Seq::empty());
            assert(f.others =~= Seq::empty());
            assert(f.results =~= Seq::empty());
            pushed(Seq::empty(), Made::Signature { params, results });
        }
        r
    }

    fn val(&self, p: usize) -> (r: Option<(u32, ClType)>)
        ensures
            match r {
                Some((num, ty)) => ty_at(self.form(), p) == Some(ty) && p < self.seats@.len() && self.seats@[p as int]
                    == (Place::Val { num, ty }),
                None => ty_at(self.form(), p) is None,
            },
    {
        if p < self.seats.len() {
            match self.seats[p] {
                Place::Val { num, ty } => Some((num, ty)),
                _ => None,
            }
        } else {
            None
        }
    }

    fn block(&self, p: usize) -> (r: Option<usize>)
        ensures
            at_view(r) == block_at(self.form(), p),
            r is Some ==> p < self.seats@.len() && self.seats@[p as int] == (Place::Block { at: r->0 }),
    {
        if p < self.seats.len() {
            match self.seats[p] {
                Place::Block { at } => Some(at),
                _ => None,
            }
        } else {
            None
        }
    }

    fn var(&self, p: usize) -> (r: Option<usize>)
        ensures
            at_view(r) == var_at(self.form(), p),
            r is Some ==> p < self.seats@.len() && self.seats@[p as int] == (Place::Var { at: r->0 }),
    {
        if p < self.seats.len() {
            match self.seats[p] {
                Place::Var { at } => Some(at),
                _ => None,
            }
        } else {
            None
        }
    }

    fn slot(&self, p: usize) -> (r: Option<usize>)
        ensures
            at_view(r) == slot_at(self.form(), p),
            r is Some ==> p < self.seats@.len() && self.seats@[p as int] == (Place::Slot { at: r->0 }),
    {
        if p < self.seats.len() {
            match self.seats[p] {
                Place::Slot { at } => Some(at),
                _ => None,
            }
        } else {
            None
        }
    }

    fn is_open(&self) -> (r: bool)
        requires
            self.at is Some ==> self.at->0 < self.blocks@.len(),
        ensures
            r == is_open(self.form()),
    {
        match self.at {
            Some(k) => !self.blocks[k].filled,
            None => false,
        }
    }

    /// The builder has a block that things can go into where operations have.
    proof fn opens(self, rows: Seq<RowView>, log: Seq<Made>, params: Seq<ClType>)
        requires
            self.linked(rows, log, params),
        ensures
            open(log) == is_open(self.form()),
    {
        match self.at {
            Some(k) => {
                assert(self.block_ok(k as int, log));
            },
            None => {},
        }
    }

    /// Whether values that wait have these types.
    fn have_tys(&self, ps: &Vec<usize>, tys: &Vec<ClType>) -> (r: bool)
        requires
            self.waits(ps@),
        ensures
            r == (tys_at(self.form(), ps@) == tys@),
    {
        let ghost f = self.form();
        let ghost all = tys_at(f, ps@);
        if ps.len() != tys.len() {
            return false;
        }
        let mut i: usize = 0;
        while i < ps.len()
            invariant
                i <= ps.len() == tys.len(),
                f == self.form(),
                all == tys_at(f, ps@),
                self.waits(ps@),
                forall|k: int| 0 <= k < i ==> #[trigger] all[k] == tys@[k],
            decreases ps.len() - i,
        {
            let p = ps[i];
            assert(ps@[i as int] < self.seats@.len());
            match self.seats[p] {
                Place::Val { num: _, ty } => {
                    assert(f.seats[p as int] == Seat::Val(ty));
                    assert(all[i as int] == ty);
                    if ty != tys[i] {
                        return false;
                    }
                },
                _ => {},
            }
            i = i + 1;
        }
        assert(all =~= tys@);
        true
    }

    /// Something leads to a block.
    fn aim(&mut self, k: usize, Ghost(rows): Ghost<Seq<RowView>>, Ghost(log): Ghost<Seq<Made>>, Ghost(params): Ghost<Seq<ClType>>)
        requires
            old(self).linked(rows, log, params),
            k < old(self).blocks@.len(),
        ensures
            final(self).linked(rows, log, params),
            final(self).form() == aimed_at(old(self).form(), k as int),
            final(self).blocks@ == old(self).blocks@,
            final(self).shapes@ == old(self).shapes@,
            final(self).args@ == old(self).args@,
            final(self).others@ == old(self).others@,
    {
        let ghost before = *self;
        self.aimed[k] = true;
        proof {
            assert forall|i: int| 0 <= i < self.blocks@.len() implies #[trigger] self.block_ok(i, log) by {
                assert(before.block_ok(i, log));
            }
            assert forall|i: int| 0 <= i < self.seats@.len() implies #[trigger] self.seat_ok(i, rows, log) by {
                assert(before.seat_ok(i, rows, log));
            }
            assert forall|i: int| 0 <= i < self.vars@.len() implies #[trigger] self.var_ok(i, log) by {
                assert(before.var_ok(i, log));
            }
        }
    }

    /// The numbers of the values that wait.
    fn waiting(
        &self,
        ps: &Vec<usize>,
        Ghost(rows): Ghost<Seq<RowView>>,
        Ghost(log): Ghost<Seq<Made>>,
        Ghost(params): Ghost<Seq<ClType>>,
    ) -> (r: Vec<u32>)
        requires
            self.linked(rows, log, params),
            self.waits(ps@),
        ensures
            r@ == nums(rows, ps@),
            forall|i: int| 0 <= i < r@.len() ==> val_ty(log, #[trigger] r@[i]) is Some,
    {
        let mut out: Vec<u32> = Vec::new();
        let mut i: usize = 0;
        while i < ps.len()
            invariant
                i <= ps.len(),
                self.linked(rows, log, params),
                self.waits(ps@),
                out@ =~= nums(rows, ps@).take(i as int),
                forall|k: int| 0 <= k < out@.len() ==> val_ty(log, #[trigger] out@[k]) is Some,
            decreases ps.len() - i,
        {
            let p = ps[i];
            assert(ps@[i as int] < self.seats@.len());
            assert(self.seat_ok(p as int, rows, log));
            match self.seats[p] {
                Place::Val { num, ty: _ } => {
                    out.push(num);
                },
                _ => {},
            }
            i = i + 1;
        }
        assert(nums(rows, ps@).take(i as int) =~= nums(rows, ps@));
        out
    }

    /// Something was put into the block at hand.
    fn mark(
        &mut self,
        Ghost(rows): Ghost<Seq<RowView>>,
        Ghost(log): Ghost<Seq<Made>>,
        Ghost(m): Ghost<Made>,
        Ghost(params): Ghost<Seq<ClType>>,
    )
        requires
            old(self).linked(rows, log, params),
            is_open(old(self).form()),
            puts(m),
            !ends(m),
            !(m is Use),
            forall|v: u32| (#[trigger] here(m, v)) is Some ==> val_ty(log, v) is None || val_ty(log, v) == here(m, v),
        ensures
            final(self).linked(rows, log.push(m), params),
            final(self).form() == marked(old(self).form()),
            final(self).seats@ == old(self).seats@,
            final(self).vals@ == old(self).vals@,
            final(self).slots@ == old(self).slots@,
            final(self).args@ == old(self).args@,
    {
        let ghost before = *self;
        proof {
            pushed(log, m);
        }
        match self.at {
            Some(k) => {
                let mut r = self.blocks[k];
                r.begun = true;
                self.blocks[k] = r;
                proof {
                    assert forall|i: int| 0 <= i < self.blocks@.len() implies #[trigger] self.block_ok(i, log.push(m)) by {
                        assert(before.block_ok(i, log));
                    }
                    assert forall|i: int| 0 <= i < self.seats@.len() implies #[trigger] self.seat_ok(i, rows, log.push(m)) by {
                        assert(before.seat_ok(i, rows, log));
                    }
                    assert forall|i: int| 0 <= i < self.vars@.len() implies #[trigger] self.var_ok(i, log.push(m)) by {
                        assert(before.var_ok(i, log));
                    }
                    assert(self.form().blocks =~= marked(before.form()).blocks);
                }
            },
            None => {},
        }
    }

    /// One more operation, that left `place` behind.
    fn seat(
        &mut self,
        rows: &mut Vec<Row>,
        place: Place,
        row: Row,
        Ghost(log): Ghost<Seq<Made>>,
        Ghost(params): Ghost<Seq<ClType>>,
    )
        requires
            old(self).linked(row_views(old(rows)@), log, params),
            match place {
                Place::Nothing => true,
                Place::Val { num, ty } => row.num == num && val_ty(log, num) == Some(ty),
                Place::Block { at } => at < old(self).blocks@.len() && row.num == old(self).blocks@[at as int].num,
                Place::Var { at } => at < old(self).vars@.len() && row.num == old(self).vars@[at as int].num,
                Place::Slot { at } => at < old(self).slots@.len() && row.num == old(self).slots@[at as int].num,
            },
        ensures
            final(self).linked(row_views(final(rows)@), log, params),
            final(self).form() == seated(old(self).form(), seat_view(place)),
            row_views(final(rows)@) == row_views(old(rows)@).push(row_view(row)),
    {
        let ghost before = *self;
        let ghost was = row_views(rows@);
        self.seats.push(place);
        rows.push(row);
        proof {
            let now = row_views(rows@);
            assert(now =~= was.push(row_view(row)));
            assert forall|i: int| 0 <= i < self.seats@.len() implies #[trigger] self.seat_ok(i, now, log) by {
                if i < before.seats@.len() {
                    assert(before.seat_ok(i, was, log));
                }
            }
            assert forall|i: int| 0 <= i < self.blocks@.len() implies #[trigger] self.block_ok(i, log) by {
                assert(before.block_ok(i, log));
            }
            assert forall|i: int| 0 <= i < self.vars@.len() implies #[trigger] self.var_ok(i, log) by {
                assert(before.var_ok(i, log));
            }
            assert(self.form().seats =~= seated(before.form(), seat_view(place)).seats);
        }
    }

    /// A call that changes nothing that is kept here.
    proof fn unmoved(self, rows: Seq<RowView>, log: Seq<Made>, m: Made, params: Seq<ClType>)
        requires
            self.linked(rows, log, params),
            m is GcVar || m is GcValue || m is Sig || m is Name || m is Import,
        ensures
            self.linked(rows, log.push(m), params),
    {
        pushed(log, m);
        assert forall|i: int| 0 <= i < self.seats@.len() implies #[trigger] self.seat_ok(i, rows, log.push(m)) by {
            assert(self.seat_ok(i, rows, log));
        }
        assert forall|i: int| 0 <= i < self.blocks@.len() implies #[trigger] self.block_ok(i, log.push(m)) by {
            assert(self.block_ok(i, log));
        }
        assert forall|i: int| 0 <= i < self.vars@.len() implies #[trigger] self.var_ok(i, log.push(m)) by {
            assert(self.var_ok(i, log));
        }
    }

    /// The block at hand has its end.
    fn finish(
        &mut self,
        rows: &mut Vec<Row>,
        Ghost(log): Ghost<Seq<Made>>,
        Ghost(m): Ghost<Made>,
        Ghost(params): Ghost<Seq<ClType>>,
    )
        requires
            old(self).linked(row_views(old(rows)@), log, params),
            is_open(old(self).form()),
            ends(m),
        ensures
            final(self).linked(row_views(final(rows)@), log.push(m), params),
            final(self).form() == ended(old(self).form()),
            row_views(final(rows)@) == row_views(old(rows)@).push(
                RowView { num: 0, extra: Seq::empty(), vals: Seq::empty() },
            ),
    {
        let ghost before = *self;
        let ghost was = row_views(rows@);
        proof {
            pushed(log, m);
        }
        match self.at {
            Some(k) => {
                let mut r = self.blocks[k];
                r.begun = true;
                r.filled = true;
                self.blocks[k] = r;
            },
            None => {},
        }
        self.args = Vec::new();
        self.others = Vec::new();
        proof {
            let k = before.at->0 as int;
            assert forall|i: int| 0 <= i < self.blocks@.len() implies #[trigger] self.block_ok(i, log.push(m)) by {
                assert(before.block_ok(i, log));
            }
            assert forall|i: int| 0 <= i < self.seats@.len() implies #[trigger] self.seat_ok(i, was, log.push(m)) by {
                assert(before.seat_ok(i, was, log));
            }
            assert forall|i: int| 0 <= i < self.vars@.len() implies #[trigger] self.var_ok(i, log.push(m)) by {
                assert(before.var_ok(i, log));
            }
            assert(self.linked(was, log.push(m), params));
        }
        let row = blank_row();
        self.seat(rows, Place::Nothing, row, Ghost(log.push(m)), Ghost(params));
        proof {
            assert(self.form().blocks =~= ended(before.form()).blocks);
            assert(self.form().args =~= Seq::empty());
            assert(self.form().others =~= Seq::empty());
        }
    }
}

fn blank_row() -> (r: Row)
    ensures
        row_view(r) == (RowView { num: 0, extra: Seq::empty(), vals: Seq::empty() }),
{
    let r = Row { num: 0, extra: Vec::new(), vals: Vec::new() };
    assert(r.extra@ =~= Seq::empty());
    assert(r.vals@ =~= Seq::empty());
    r
}

fn plain_row(num: u32) -> (r: Row)
    ensures
        row_view(r) == (RowView { num, extra: Seq::empty(), vals: Seq::empty() }),
{
    let r = Row { num, extra: Vec::new(), vals: Vec::new() };
    assert(r.extra@ =~= Seq::empty());
    assert(r.vals@ =~= Seq::empty());
    r
}

fn row_with(num: u32, extra: u32) -> (r: Row)
    ensures
        row_view(r) == (RowView { num, extra: seq![extra], vals: Seq::empty() }),
{
    let mut e: Vec<u32> = Vec::new();
    e.push(extra);
    let r = Row { num, extra: e, vals: Vec::new() };
    assert(r.extra@ =~= seq![extra]);
    assert(r.vals@ =~= Seq::empty());
    r
}

/// Whether one step was done as it should: it failed where the operation does
/// not fit, and otherwise the calls are those of the operation, and all that
/// is kept agrees with them.
spec fn stepped(
    f: Form,
    was: Seq<RowView>,
    log: Seq<Made>,
    op: Op,
    w: World,
    ok: bool,
    d: Desk,
    rows: Seq<RowView>,
    now: Seq<Made>,
) -> bool {
    match fit(f, op, w) {
        None => !ok,
        Some(g) => {
            &&& ok
            &&& d.form() == g
            &&& d.linked(rows, now, w.params)
            &&& rows.len() == was.len() + 1
            &&& rows.drop_last() == was
            &&& now == log + emitted(f, op, rows, w)
            &&& tied(f, op, rows)
        },
    }
}

fn do_iconst(
    b: &mut FunctionBuilder<'_>,
    d: &mut Desk,
    rows: &mut Vec<Row>,
    ty: ClType,
    imm: i64,
    Ghost(w): Ghost<World>,
) -> (ok: bool)
    requires
        old(d).linked(row_views(old(rows)@), made(*old(b)), w.params),
    ensures
        stepped(
            old(d).form(),
            row_views(old(rows)@),
            made(*old(b)),
            Op::Iconst { ty, imm },
            w,
            ok,
            *final(d),
            row_views(final(rows)@),
            made(*final(b)),
        ),
{
    let ghost f = d.form();
    let ghost log = made(*b);
    let ghost was = row_views(rows@);
    if !d.is_open() {
        return false;
    }
    proof {
        d.opens(was, log, w.params);
    }
    if ty == ClType::F64 {
        return false;
    }
    let r = iconst(b, ty, imm);
    let ghost m = Made::Const { ty, imm, val: r };
    d.mark(Ghost(was), Ghost(log), Ghost(m), Ghost(w.params));
    proof {
        pushed(log, m);
    }
    d.seat(rows, Place::Val { num: r, ty: ty }, plain_row(r), Ghost(log.push(m)), Ghost(w.params));
    proof {
        let now = row_views(rows@);
        assert(now.drop_last() =~= was);
        assert(log.push(m) =~= log + seq![m]);
    }
    true
}

fn do_fconst(
    b: &mut FunctionBuilder<'_>,
    d: &mut Desk,
    rows: &mut Vec<Row>,
    bits: u64,
    Ghost(w): Ghost<World>,
) -> (ok: bool)
    requires
        old(d).linked(row_views(old(rows)@), made(*old(b)), w.params),
    ensures
        stepped(
            old(d).form(),
            row_views(old(rows)@),
            made(*old(b)),
            Op::F64const { bits },
            w,
            ok,
            *final(d),
            row_views(final(rows)@),
            made(*final(b)),
        ),
{
    let ghost f = d.form();
    let ghost log = made(*b);
    let ghost was = row_views(rows@);
    if !d.is_open() {
        return false;
    }
    proof {
        d.opens(was, log, w.params);
    }
    let r = fconst(b, bits);
    let ghost m = Made::Float { bits, val: r };
    d.mark(Ghost(was), Ghost(log), Ghost(m), Ghost(w.params));
    proof {
        pushed(log, m);
    }
    d.seat(rows, Place::Val { num: r, ty: ClType::F64 }, plain_row(r), Ghost(log.push(m)), Ghost(w.params));
    proof {
        let now = row_views(rows@);
        assert(now.drop_last() =~= was);
        assert(log.push(m) =~= log + seq![m]);
    }
    true
}

fn do_str_addr(
    b: &mut FunctionBuilder<'_>,
    d: &mut Desk,
    rows: &mut Vec<Row>,
    index: usize,
    target: &Target,
    Ghost(w): Ghost<World>,
) -> (ok: bool)
    requires
        old(d).linked(row_views(old(rows)@), made(*old(b)), w.params),
        *target == w.target,
    ensures
        stepped(
            old(d).form(),
            row_views(old(rows)@),
            made(*old(b)),
            Op::StrAddr { index },
            w,
            ok,
            *final(d),
            row_views(final(rows)@),
            made(*final(b)),
        ),
{
    let ghost f = d.form();
    let ghost log = made(*b);
    let ghost was = row_views(rows@);
    if !d.is_open() {
        return false;
    }
    proof {
        d.opens(was, log, w.params);
    }
    if index >= target.strings.len() {
        return false;
    }
    let imm: i64 = target.strings[index];
    let r = iconst(b, ClType::I64, imm);
    let ghost m = Made::Const { ty: ClType::I64, imm, val: r };
    d.mark(Ghost(was), Ghost(log), Ghost(m), Ghost(w.params));
    proof {
        pushed(log, m);
    }
    d.seat(rows, Place::Val { num: r, ty: ClType::I64 }, plain_row(r), Ghost(log.push(m)), Ghost(w.params));
    proof {
        let now = row_views(rows@);
        assert(now.drop_last() =~= was);
        assert(log.push(m) =~= log + seq![m]);
    }
    true
}

fn do_none_word(
    b: &mut FunctionBuilder<'_>,
    d: &mut Desk,
    rows: &mut Vec<Row>,
    target: &Target,
    Ghost(w): Ghost<World>,
) -> (ok: bool)
    requires
        old(d).linked(row_views(old(rows)@), made(*old(b)), w.params),
        *target == w.target,
    ensures
        stepped(
            old(d).form(),
            row_views(old(rows)@),
            made(*old(b)),
            Op::NoneWord,
            w,
            ok,
            *final(d),
            row_views(final(rows)@),
            made(*final(b)),
        ),
{
    let ghost f = d.form();
    let ghost log = made(*b);
    let ghost was = row_views(rows@);
    if !d.is_open() {
        return false;
    }
    proof {
        d.opens(was, log, w.params);
    }
    let imm: i64 = target.none_word;
    let r = iconst(b, ClType::I64, imm);
    let ghost m = Made::Const { ty: ClType::I64, imm, val: r };
    d.mark(Ghost(was), Ghost(log), Ghost(m), Ghost(w.params));
    proof {
        pushed(log, m);
    }
    d.seat(rows, Place::Val { num: r, ty: ClType::I64 }, plain_row(r), Ghost(log.push(m)), Ghost(w.params));
    proof {
        let now = row_views(rows@);
        assert(now.drop_last() =~= was);
        assert(log.push(m) =~= log + seq![m]);
    }
    true
}

fn floats(op: BinOp) -> (r: bool)
    ensures
        r == on_floats(op),
{
    op == BinOp::Fadd || op == BinOp::Fsub || op == BinOp::Fmul || op == BinOp::Fdiv
}

fn do_binary(
    b: &mut FunctionBuilder<'_>,
    d: &mut Desk,
    rows: &mut Vec<Row>,
    op: BinOp,
    x: usize,
    y: usize,
    Ghost(w): Ghost<World>,
) -> (ok: bool)
    requires
        old(d).linked(row_views(old(rows)@), made(*old(b)), w.params),
    ensures
        stepped(
            old(d).form(),
            row_views(old(rows)@),
            made(*old(b)),
            Op::Binary { op, a: x, b: y },
            w,
            ok,
            *final(d),
            row_views(final(rows)@),
            made(*final(b)),
        ),
{
    let ghost f = d.form();
    let ghost log = made(*b);
    let ghost was = row_views(rows@);
    if !d.is_open() {
        return false;
    }
    proof {
        d.opens(was, log, w.params);
    }
    let (x_num, x_ty) = match d.val(x) {
        Some(v) => v,
        None => {
            return false;
        },
    };
    assert(d.seat_ok(x as int, was, log));
    let (y_num, y_ty) = match d.val(y) {
        Some(v) => v,
        None => {
            return false;
        },
    };
    assert(d.seat_ok(y as int, was, log));
    if x_ty != y_ty || (x_ty == ClType::F64) != floats(op) {
        return false;
    }
    let r = binary(b, op, x_num, y_num);
    let ghost m = Made::Binary { op, ty: x_ty, x: x_num, y: y_num, val: r };
    d.mark(Ghost(was), Ghost(log), Ghost(m), Ghost(w.params));
    proof {
        pushed(log, m);
    }
    d.seat(rows, Place::Val { num: r, ty: x_ty }, plain_row(r), Ghost(log.push(m)), Ghost(w.params));
    proof {
        let now = row_views(rows@);
        assert(now.drop_last() =~= was);
        assert(log.push(m) =~= log + seq![m]);
    }
    true
}

fn do_binary_imm(
    b: &mut FunctionBuilder<'_>,
    d: &mut Desk,
    rows: &mut Vec<Row>,
    op: BinOp,
    x: usize,
    imm: i64,
    Ghost(w): Ghost<World>,
) -> (ok: bool)
    requires
        old(d).linked(row_views(old(rows)@), made(*old(b)), w.params),
    ensures
        stepped(
            old(d).form(),
            row_views(old(rows)@),
            made(*old(b)),
            Op::BinaryImm { op, a: x, imm },
            w,
            ok,
            *final(d),
            row_views(final(rows)@),
            made(*final(b)),
        ),
{
    let ghost f = d.form();
    let ghost log = made(*b);
    let ghost was = row_views(rows@);
    if !d.is_open() {
        return false;
    }
    proof {
        d.opens(was, log, w.params);
    }
    let (x_num, x_ty) = match d.val(x) {
        Some(v) => v,
        None => {
            return false;
        },
    };
    assert(d.seat_ok(x as int, was, log));
    if x_ty == ClType::F64 || floats(op) {
        return false;
    }
    let c = iconst(b, x_ty, imm);
    let ghost m1 = Made::Const { ty: x_ty, imm, val: c };
    d.mark(Ghost(was), Ghost(log), Ghost(m1), Ghost(w.params));
    let ghost mid = log.push(m1);
    proof {
        pushed(log, m1);
        d.opens(was, mid, w.params);
        assert(d.seat_ok(x as int, was, mid));
    }
    let r = binary(b, op, x_num, c);
    let ghost m = Made::Binary { op, ty: x_ty, x: x_num, y: c, val: r };
    d.mark(Ghost(was), Ghost(mid), Ghost(m), Ghost(w.params));
    proof {
        pushed(mid, m);
        assert(marked(marked(f)).blocks =~= marked(f).blocks);
    }
    d.seat(rows, Place::Val { num: r, ty: x_ty }, row_with(r, c), Ghost(mid.push(m)), Ghost(w.params));
    proof {
        let now = row_views(rows@);
        assert(now.drop_last() =~= was);
        assert(mid.push(m) =~= log + seq![m1, m]);
    }
    true
}

fn conversion(op: Conv, ty: ClType) -> (r: Option<ClType>)
    ensures
        r == if converts(op, ty) {
            Some(converted(op))
        } else {
            None
        },
{
    let (ok, to) = match op {
        Conv::Widen => (ty == ClType::I8 || ty == ClType::I32, ClType::I64),
        Conv::Low8 => (ty == ClType::I32 || ty == ClType::I64, ClType::I8),
        Conv::Low32 => (ty == ClType::I64, ClType::I32),
        Conv::FloatBits => (ty == ClType::F64, ClType::I64),
        Conv::BitsFloat => (ty == ClType::I64, ClType::F64),
        Conv::IntFloat => (ty != ClType::F64, ClType::F64),
        Conv::FloatNeg => (ty == ClType::F64, ClType::F64),
    };
    if ok {
        Some(to)
    } else {
        None
    }
}

fn do_convert(
    b: &mut FunctionBuilder<'_>,
    d: &mut Desk,
    rows: &mut Vec<Row>,
    op: Conv,
    x: usize,
    Ghost(w): Ghost<World>,
) -> (ok: bool)
    requires
        old(d).linked(row_views(old(rows)@), made(*old(b)), w.params),
    ensures
        stepped(
            old(d).form(),
            row_views(old(rows)@),
            made(*old(b)),
            Op::Convert { op, a: x },
            w,
            ok,
            *final(d),
            row_views(final(rows)@),
            made(*final(b)),
        ),
{
    let ghost f = d.form();
    let ghost log = made(*b);
    let ghost was = row_views(rows@);
    if !d.is_open() {
        return false;
    }
    proof {
        d.opens(was, log, w.params);
    }
    let (x_num, x_ty) = match d.val(x) {
        Some(v) => v,
        None => {
            return false;
        },
    };
    assert(d.seat_ok(x as int, was, log));
    let to = match conversion(op, x_ty) {
        Some(to) => to,
        None => {
            return false;
        },
    };
    let same_bits = op == Conv::FloatBits || op == Conv::BitsFloat;
    let r = if same_bits {
        bitcast(b, to, x_num)
    } else {
        unary(b, op, x_num)
    };
    let ghost m = if same_bits {
        Made::Bitcast { ty: to, x: x_num, val: r }
    } else {
        Made::Unary { op, x: x_num, val: r }
    };
    d.mark(Ghost(was), Ghost(log), Ghost(m), Ghost(w.params));
    proof {
        pushed(log, m);
    }
    d.seat(rows, Place::Val { num: r, ty: to }, plain_row(r), Ghost(log.push(m)), Ghost(w.params));
    proof {
        let now = row_views(rows@);
        assert(now.drop_last() =~= was);
        assert(log.push(m) =~= log + seq![m]);
    }
    true
}

fn do_compare(
    b: &mut FunctionBuilder<'_>,
    d: &mut Desk,
    rows: &mut Vec<Row>,
    test: Test,
    x: usize,
    y: usize,
    Ghost(w): Ghost<World>,
) -> (ok: bool)
    requires
        old(d).linked(row_views(old(rows)@), made(*old(b)), w.params),
    ensures
        stepped(
            old(d).form(),
            row_views(old(rows)@),
            made(*old(b)),
            Op::Compare { test, a: x, b: y },
            w,
            ok,
            *final(d),
            row_views(final(rows)@),
            made(*final(b)),
        ),
{
    let ghost f = d.form();
    let ghost log = made(*b);
    let ghost was = row_views(rows@);
    if !d.is_open() {
        return false;
    }
    proof {
        d.opens(was, log, w.params);
    }
    let (x_num, x_ty) = match d.val(x) {
        Some(v) => v,
        None => {
            return false;
        },
    };
    assert(d.seat_ok(x as int, was, log));
    let (y_num, y_ty) = match d.val(y) {
        Some(v) => v,
        None => {
            return false;
        },
    };
    assert(d.seat_ok(y as int, was, log));
    if x_ty != y_ty || x_ty == ClType::F64 {
        return false;
    }
    let r = int_test(b, test, x_num, y_num);
    let ghost m = Made::Compare { test, x: x_num, y: y_num, val: r };
    d.mark(Ghost(was), Ghost(log), Ghost(m), Ghost(w.params));
    proof {
        pushed(log, m);
    }
    d.seat(rows, Place::Val { num: r, ty: ClType::I8 }, plain_row(r), Ghost(log.push(m)), Ghost(w.params));
    proof {
        let now = row_views(rows@);
        assert(now.drop_last() =~= was);
        assert(log.push(m) =~= log + seq![m]);
    }
    true
}

fn do_compare_imm(
    b: &mut FunctionBuilder<'_>,
    d: &mut Desk,
    rows: &mut Vec<Row>,
    test: Test,
    x: usize,
    imm: i64,
    Ghost(w): Ghost<World>,
) -> (ok: bool)
    requires
        old(d).linked(row_views(old(rows)@), made(*old(b)), w.params),
    ensures
        stepped(
            old(d).form(),
            row_views(old(rows)@),
            made(*old(b)),
            Op::CompareImm { test, a: x, imm },
            w,
            ok,
            *final(d),
            row_views(final(rows)@),
            made(*final(b)),
        ),
{
    let ghost f = d.form();
    let ghost log = made(*b);
    let ghost was = row_views(rows@);
    if !d.is_open() {
        return false;
    }
    proof {
        d.opens(was, log, w.params);
    }
    let (x_num, x_ty) = match d.val(x) {
        Some(v) => v,
        None => {
            return false;
        },
    };
    assert(d.seat_ok(x as int, was, log));
    if x_ty == ClType::F64 {
        return false;
    }
    let c = iconst(b, x_ty, imm);
    let ghost m1 = Made::Const { ty: x_ty, imm, val: c };
    d.mark(Ghost(was), Ghost(log), Ghost(m1), Ghost(w.params));
    let ghost mid = log.push(m1);
    proof {
        pushed(log, m1);
        d.opens(was, mid, w.params);
        assert(d.seat_ok(x as int, was, mid));
    }
    let r = int_test(b, test, x_num, c);
    let ghost m = Made::Compare { test, x: x_num, y: c, val: r };
    d.mark(Ghost(was), Ghost(mid), Ghost(m), Ghost(w.params));
    proof {
        pushed(mid, m);
        assert(marked(marked(f)).blocks =~= marked(f).blocks);
    }
    d.seat(rows, Place::Val { num: r, ty: ClType::I8 }, row_with(r, c), Ghost(mid.push(m)), Ghost(w.params));
    proof {
        let now = row_views(rows@);
        assert(now.drop_last() =~= was);
        assert(mid.push(m) =~= log + seq![m1, m]);
    }
    true
}

fn do_float_compare(
    b: &mut FunctionBuilder<'_>,
    d: &mut Desk,
    rows: &mut Vec<Row>,
    test: Test,
    x: usize,
    y: usize,
    Ghost(w): Ghost<World>,
) -> (ok: bool)
    requires
        old(d).linked(row_views(old(rows)@), made(*old(b)), w.params),
    ensures
        stepped(
            old(d).form(),
            row_views(old(rows)@),
            made(*old(b)),
            Op::FloatCompare { test, a: x, b: y },
            w,
            ok,
            *final(d),
            row_views(final(rows)@),
            made(*final(b)),
        ),
{
    let ghost f = d.form();
    let ghost log = made(*b);
    let ghost was = row_views(rows@);
    if !d.is_open() {
        return false;
    }
    proof {
        d.opens(was, log, w.params);
    }
    let (x_num, x_ty) = match d.val(x) {
        Some(v) => v,
        None => {
            return false;
        },
    };
    assert(d.seat_ok(x as int, was, log));
    let (y_num, y_ty) = match d.val(y) {
        Some(v) => v,
        None => {
            return false;
        },
    };
    assert(d.seat_ok(y as int, was, log));
    if x_ty != ClType::F64 || y_ty != ClType::F64 || test == Test::UnsignedLessEqual {
        return false;
    }
    let r = float_test(b, test, x_num, y_num);
    let ghost m = Made::FloatCompare { test, x: x_num, y: y_num, val: r };
    d.mark(Ghost(was), Ghost(log), Ghost(m), Ghost(w.params));
    proof {
        pushed(log, m);
    }
    d.seat(rows, Place::Val { num: r, ty: ClType::I8 }, plain_row(r), Ghost(log.push(m)), Ghost(w.params));
    proof {
        let now = row_views(rows@);
        assert(now.drop_last() =~= was);
        assert(log.push(m) =~= log + seq![m]);
    }
    true
}

fn do_select(
    b: &mut FunctionBuilder<'_>,
    d: &mut Desk,
    rows: &mut Vec<Row>,
    cond: usize,
    x: usize,
    y: usize,
    Ghost(w): Ghost<World>,
) -> (ok: bool)
    requires
        old(d).linked(row_views(old(rows)@), made(*old(b)), w.params),
    ensures
        stepped(
            old(d).form(),
            row_views(old(rows)@),
            made(*old(b)),
            Op::Select { cond, a: x, b: y },
            w,
            ok,
            *final(d),
            row_views(final(rows)@),
            made(*final(b)),
        ),
{
    let ghost f = d.form();
    let ghost log = made(*b);
    let ghost was = row_views(rows@);
    if !d.is_open() {
        return false;
    }
    proof {
        d.opens(was, log, w.params);
    }
    let (cond_num, cond_ty) = match d.val(cond) {
        Some(v) => v,
        None => {
            return false;
        },
    };
    assert(d.seat_ok(cond as int, was, log));
    let (x_num, x_ty) = match d.val(x) {
        Some(v) => v,
        None => {
            return false;
        },
    };
    assert(d.seat_ok(x as int, was, log));
    let (y_num, y_ty) = match d.val(y) {
        Some(v) => v,
        None => {
            return false;
        },
    };
    assert(d.seat_ok(y as int, was, log));
    if cond_ty == ClType::F64 || x_ty != y_ty {
        return false;
    }
    let r = select(b, cond_num, x_num, y_num);
    let ghost m = Made::Select { ty: x_ty, cond: cond_num, x: x_num, y: y_num, val: r };
    d.mark(Ghost(was), Ghost(log), Ghost(m), Ghost(w.params));
    proof {
        pushed(log, m);
    }
    d.seat(rows, Place::Val { num: r, ty: x_ty }, plain_row(r), Ghost(log.push(m)), Ghost(w.params));
    proof {
        let now = row_views(rows@);
        assert(now.drop_last() =~= was);
        assert(log.push(m) =~= log + seq![m]);
    }
    true
}

fn do_load(
    b: &mut FunctionBuilder<'_>,
    d: &mut Desk,
    rows: &mut Vec<Row>,
    ty: ClType,
    base: usize,
    at: Field,
    target: &Target,
    Ghost(w): Ghost<World>,
) -> (ok: bool)
    requires
        old(d).linked(row_views(old(rows)@), made(*old(b)), w.params),
        *target == w.target,
    ensures
        stepped(
            old(d).form(),
            row_views(old(rows)@),
            made(*old(b)),
            Op::Load { ty, base, at },
            w,
            ok,
            *final(d),
            row_views(final(rows)@),
            made(*final(b)),
        ),
{
    let ghost f = d.form();
    let ghost log = made(*b);
    let ghost was = row_views(rows@);
    if !d.is_open() {
        return false;
    }
    proof {
        d.opens(was, log, w.params);
    }
    let (base_num, base_ty) = match d.val(base) {
        Some(v) => v,
        None => {
            return false;
        },
    };
    assert(d.seat_ok(base as int, was, log));
    if base_ty != ClType::I64 {
        return false;
    }
    let offset = match target.offset(at) {
        Some(o) => o,
        None => {
            return false;
        },
    };
    let kind = mem(at);
    let r = load(b, ty, kind, base_num, offset);
    let ghost m = Made::Load { ty, mem: kind, base: base_num, offset, val: r };
    d.mark(Ghost(was), Ghost(log), Ghost(m), Ghost(w.params));
    proof {
        pushed(log, m);
    }
    d.seat(rows, Place::Val { num: r, ty: ty }, plain_row(r), Ghost(log.push(m)), Ghost(w.params));
    proof {
        let now = row_views(rows@);
        assert(now.drop_last() =~= was);
        assert(log.push(m) =~= log + seq![m]);
    }
    true
}

fn do_store(
    b: &mut FunctionBuilder<'_>,
    d: &mut Desk,
    rows: &mut Vec<Row>,
    val: usize,
    base: usize,
    at: Field,
    target: &Target,
    Ghost(w): Ghost<World>,
) -> (ok: bool)
    requires
        old(d).linked(row_views(old(rows)@), made(*old(b)), w.params),
        *target == w.target,
    ensures
        stepped(
            old(d).form(),
            row_views(old(rows)@),
            made(*old(b)),
            Op::Store { val, base, at },
            w,
            ok,
            *final(d),
            row_views(final(rows)@),
            made(*final(b)),
        ),
{
    let ghost f = d.form();
    let ghost log = made(*b);
    let ghost was = row_views(rows@);
    if !d.is_open() {
        return false;
    }
    proof {
        d.opens(was, log, w.params);
    }
    let (val_num, val_ty) = match d.val(val) {
        Some(v) => v,
        None => {
            return false;
        },
    };
    assert(d.seat_ok(val as int, was, log));
    let (base_num, base_ty) = match d.val(base) {
        Some(v) => v,
        None => {
            return false;
        },
    };
    assert(d.seat_ok(base as int, was, log));
    if base_ty != ClType::I64 {
        return false;
    }
    let offset = match target.offset(at) {
        Some(o) => o,
        None => {
            return false;
        },
    };
    let kind = mem(at);
    store(b, kind, val_num, base_num, offset);
    let ghost m = Made::Store { mem: kind, val: val_num, base: base_num, offset };
    d.mark(Ghost(was), Ghost(log), Ghost(m), Ghost(w.params));
    d.seat(rows, Place::Nothing, blank_row(), Ghost(log.push(m)), Ghost(w.params));
    proof {
        let now = row_views(rows@);
        assert(now.drop_last() =~= was);
        assert(log.push(m) =~= log + seq![m]);
    }
    true
}

fn do_stack_slot(
    b: &mut FunctionBuilder<'_>,
    d: &mut Desk,
    rows: &mut Vec<Row>,
    words: usize,
    Ghost(w): Ghost<World>,
) -> (ok: bool)
    requires
        old(d).linked(row_views(old(rows)@), made(*old(b)), w.params),
    ensures
        stepped(
            old(d).form(),
            row_views(old(rows)@),
            made(*old(b)),
            Op::StackSlot { words },
            w,
            ok,
            *final(d),
            row_views(final(rows)@),
            made(*final(b)),
        ),
{
    let ghost f = d.form();
    let ghost log = made(*b);
    let ghost was = row_views(rows@);
    if words > 0x0fff_ffff {
        return false;
    }
    let bytes: u32 = (words * 8) as u32;
    let r = stack_slot(b, bytes);
    let ghost m = Made::Slot { bytes, slot: r };
    let ghost before = *d;
    let k: usize = d.slots.len();
    d.slots.push(SlotRow { num: r, bytes });
    proof {
        pushed(log, m);
        assert forall|i: int| 0 <= i < d.slots@.len() implies slot_bytes(log.push(m), (#[trigger] d.slots@[i]).num)
            == Some(d.slots@[i].bytes) && d.slots@[i].bytes <= i32::MAX by {
            if i < before.slots@.len() {
                assert(before.slots@[i] == d.slots@[i]);
            }
        }
        assert forall|i: int| 0 <= i < d.seats@.len() implies #[trigger] d.seat_ok(i, was, log.push(m)) by {
            assert(before.seat_ok(i, was, log));
        }
        assert forall|i: int| 0 <= i < d.blocks@.len() implies #[trigger] d.block_ok(i, log.push(m)) by {
            assert(before.block_ok(i, log));
        }
        assert forall|i: int| 0 <= i < d.vars@.len() implies #[trigger] d.var_ok(i, log.push(m)) by {
            assert(before.var_ok(i, log));
        }
        assert(d.form().slots =~= f.slots.push(bytes));
    }
    d.seat(rows, Place::Slot { at: k }, plain_row(r), Ghost(log.push(m)), Ghost(w.params));
    proof {
        let now = row_views(rows@);
        assert(now.drop_last() =~= was);
        assert(log.push(m) =~= log + seq![m]);
    }
    true
}

fn do_stack_store(
    b: &mut FunctionBuilder<'_>,
    d: &mut Desk,
    rows: &mut Vec<Row>,
    val: usize,
    slot: usize,
    word: usize,
    Ghost(w): Ghost<World>,
) -> (ok: bool)
    requires
        old(d).linked(row_views(old(rows)@), made(*old(b)), w.params),
    ensures
        stepped(
            old(d).form(),
            row_views(old(rows)@),
            made(*old(b)),
            Op::StackStore { val, slot, word },
            w,
            ok,
            *final(d),
            row_views(final(rows)@),
            made(*final(b)),
        ),
{
    let ghost f = d.form();
    let ghost log = made(*b);
    let ghost was = row_views(rows@);
    if !d.is_open() {
        return false;
    }
    proof {
        d.opens(was, log, w.params);
    }
    let (val_num, val_ty) = match d.val(val) {
        Some(v) => v,
        None => {
            return false;
        },
    };
    assert(d.seat_ok(val as int, was, log));
    let k = match d.slot(slot) {
        Some(k) => k,
        None => {
            return false;
        },
    };
    assert(d.seat_ok(slot as int, was, log));
    let SlotRow { num: slot_num, bytes } = d.slots[k];
    assert(f.slots[k as int] == bytes);
    if word > 0x0fff_ffff || (word * 8 + 8) as u32 > bytes {
        return false;
    }
    let offset: i32 = (word * 8) as i32;
    stack_store(b, val_num, slot_num, offset);
    let ghost m = Made::StackStore { val: val_num, slot: slot_num, offset };
    d.mark(Ghost(was), Ghost(log), Ghost(m), Ghost(w.params));
    d.seat(rows, Place::Nothing, blank_row(), Ghost(log.push(m)), Ghost(w.params));
    proof {
        let now = row_views(rows@);
        assert(now.drop_last() =~= was);
        assert(log.push(m) =~= log + seq![m]);
    }
    true
}

fn do_stack_load(
    b: &mut FunctionBuilder<'_>,
    d: &mut Desk,
    rows: &mut Vec<Row>,
    slot: usize,
    word: usize,
    Ghost(w): Ghost<World>,
) -> (ok: bool)
    requires
        old(d).linked(row_views(old(rows)@), made(*old(b)), w.params),
    ensures
        stepped(
            old(d).form(),
            row_views(old(rows)@),
            made(*old(b)),
            Op::StackLoad { slot, word },
            w,
            ok,
            *final(d),
            row_views(final(rows)@),
            made(*final(b)),
        ),
{
    let ghost f = d.form();
    let ghost log = made(*b);
    let ghost was = row_views(rows@);
    if !d.is_open() {
        return false;
    }
    proof {
        d.opens(was, log, w.params);
    }
    let k = match d.slot(slot) {
        Some(k) => k,
        None => {
            return false;
        },
    };
    assert(d.seat_ok(slot as int, was, log));
    let SlotRow { num: slot_num, bytes } = d.slots[k];
    assert(f.slots[k as int] == bytes);
    if word > 0x0fff_ffff || (word * 8 + 8) as u32 > bytes {
        return false;
    }
    let offset: i32 = (word * 8) as i32;
    let r = stack_load(b, slot_num, offset);
    let ghost m = Made::StackLoad { slot: slot_num, offset, val: r };
    d.mark(Ghost(was), Ghost(log), Ghost(m), Ghost(w.params));
    proof {
        pushed(log, m);
    }
    d.seat(rows, Place::Val { num: r, ty: ClType::I64 }, plain_row(r), Ghost(log.push(m)), Ghost(w.params));
    proof {
        let now = row_views(rows@);
        assert(now.drop_last() =~= was);
        assert(log.push(m) =~= log + seq![m]);
    }
    true
}

fn do_stack_addr(
    b: &mut FunctionBuilder<'_>,
    d: &mut Desk,
    rows: &mut Vec<Row>,
    slot: usize,
    Ghost(w): Ghost<World>,
) -> (ok: bool)
    requires
        old(d).linked(row_views(old(rows)@), made(*old(b)), w.params),
    ensures
        stepped(
            old(d).form(),
            row_views(old(rows)@),
            made(*old(b)),
            Op::StackAddr { slot },
            w,
            ok,
            *final(d),
            row_views(final(rows)@),
            made(*final(b)),
        ),
{
    let ghost f = d.form();
    let ghost log = made(*b);
    let ghost was = row_views(rows@);
    if !d.is_open() {
        return false;
    }
    proof {
        d.opens(was, log, w.params);
    }
    let k = match d.slot(slot) {
        Some(k) => k,
        None => {
            return false;
        },
    };
    assert(d.seat_ok(slot as int, was, log));
    let SlotRow { num: slot_num, bytes } = d.slots[k];
    assert(f.slots[k as int] == bytes);
    let r = stack_addr(b, slot_num);
    let ghost m = Made::StackAddr { slot: slot_num, val: r };
    d.mark(Ghost(was), Ghost(log), Ghost(m), Ghost(w.params));
    proof {
        pushed(log, m);
    }
    d.seat(rows, Place::Val { num: r, ty: ClType::I64 }, plain_row(r), Ghost(log.push(m)), Ghost(w.params));
    proof {
        let now = row_views(rows@);
        assert(now.drop_last() =~= was);
        assert(log.push(m) =~= log + seq![m]);
    }
    true
}

fn do_var(
    b: &mut FunctionBuilder<'_>,
    d: &mut Desk,
    rows: &mut Vec<Row>,
    ty: ClType,
    Ghost(w): Ghost<World>,
) -> (ok: bool)
    requires
        old(d).linked(row_views(old(rows)@), made(*old(b)), w.params),
    ensures
        stepped(
            old(d).form(),
            row_views(old(rows)@),
            made(*old(b)),
            Op::Var { ty },
            w,
            ok,
            *final(d),
            row_views(final(rows)@),
            made(*final(b)),
        ),
{
    let ghost f = d.form();
    let ghost log = made(*b);
    let ghost was = row_views(rows@);
    if d.widest + d.vars.len() >= 65536 {
        return false;
    }
    let r = declare_var(b, ty);
    let ghost m = Made::Var { ty, var: r };
    let ghost before = *d;
    let k: usize = d.vars.len();
    d.vars.push(VarRow { num: r, ty, touched: false });
    proof {
        pushed(log, m);
        assert forall|i: int| 0 <= i < before.vars@.len() implies (#[trigger] d.vars@[i]).num != r by {
            assert(before.var_ok(i, log));
        }
        assert forall|i: int| 0 <= i < d.seats@.len() implies #[trigger] d.seat_ok(i, was, log.push(m)) by {
            assert(before.seat_ok(i, was, log));
        }
        assert forall|i: int| 0 <= i < d.blocks@.len() implies #[trigger] d.block_ok(i, log.push(m)) by {
            if i < before.blocks@.len() {
                assert(before.block_ok(i, log));
            }
        }
        assert forall|i: int| 0 <= i < d.vars@.len() implies #[trigger] d.var_ok(i, log.push(m)) by {
            if i < before.vars@.len() {
                assert(before.var_ok(i, log));
            }
        }
        assert(d.form().vars =~= f.vars.push(Vr { ty, touched: false }));
    }
    d.seat(rows, Place::Var { at: k }, plain_row(r), Ghost(log.push(m)), Ghost(w.params));
    proof {
        let now = row_views(rows@);
        assert(now.drop_last() =~= was);
        assert(log.push(m) =~= log + seq![m]);
    }
    true
}

fn do_gc_var(
    b: &mut FunctionBuilder<'_>,
    d: &mut Desk,
    rows: &mut Vec<Row>,
    var: usize,
    Ghost(w): Ghost<World>,
) -> (ok: bool)
    requires
        old(d).linked(row_views(old(rows)@), made(*old(b)), w.params),
    ensures
        stepped(
            old(d).form(),
            row_views(old(rows)@),
            made(*old(b)),
            Op::GcVar { var },
            w,
            ok,
            *final(d),
            row_views(final(rows)@),
            made(*final(b)),
        ),
{
    let ghost f = d.form();
    let ghost log = made(*b);
    let ghost was = row_views(rows@);
    let k = match d.var(var) {
        Some(k) => k,
        None => {
            return false;
        },
    };
    assert(d.seat_ok(var as int, was, log));
    assert(d.var_ok(k as int, log));
    let row = d.vars[k];
    assert(f.vars[k as int] == (Vr { ty: row.ty, touched: row.touched }));
    if row.touched {
        return false;
    }
    var_is_root(b, row.num);
    let ghost m = Made::GcVar { var: row.num };
    proof {
        d.unmoved(was, log, m, w.params);
    }
    d.seat(rows, Place::Nothing, blank_row(), Ghost(log.push(m)), Ghost(w.params));
    proof {
        let now = row_views(rows@);
        assert(now.drop_last() =~= was);
        assert(log.push(m) =~= log + seq![m]);
    }
    true
}

fn do_def_var(
    b: &mut FunctionBuilder<'_>,
    d: &mut Desk,
    rows: &mut Vec<Row>,
    var: usize,
    val: usize,
    Ghost(w): Ghost<World>,
) -> (ok: bool)
    requires
        old(d).linked(row_views(old(rows)@), made(*old(b)), w.params),
    ensures
        stepped(
            old(d).form(),
            row_views(old(rows)@),
            made(*old(b)),
            Op::DefVar { var, val },
            w,
            ok,
            *final(d),
            row_views(final(rows)@),
            made(*final(b)),
        ),
{
    let ghost f = d.form();
    let ghost log = made(*b);
    let ghost was = row_views(rows@);
    let k = match d.var(var) {
        Some(k) => k,
        None => {
            return false;
        },
    };
    assert(d.seat_ok(var as int, was, log));
    assert(d.var_ok(k as int, log));
    let row = d.vars[k];
    assert(f.vars[k as int] == (Vr { ty: row.ty, touched: row.touched }));
    let (val_num, val_ty) = match d.val(val) {
        Some(v) => v,
        None => {
            return false;
        },
    };
    assert(d.seat_ok(val as int, was, log));
    if d.at.is_none() || val_ty != row.ty {
        return false;
    }
    def_var(b, row.num, val_num);
    let ghost m = Made::Def { var: row.num, val: val_num };
    let ghost before = *d;
    d.vars[k] = VarRow { num: row.num, ty: row.ty, touched: true };
    proof {
        pushed(log, m);
        assert forall|i: int| 0 <= i < d.seats@.len() implies #[trigger] d.seat_ok(i, was, log.push(m)) by {
            assert(before.seat_ok(i, was, log));
        }
        assert forall|i: int| 0 <= i < d.blocks@.len() implies #[trigger] d.block_ok(i, log.push(m)) by {
            if i < before.blocks@.len() {
                assert(before.block_ok(i, log));
            }
        }
        assert forall|i: int| 0 <= i < d.vars@.len() implies #[trigger] d.var_ok(i, log.push(m)) by {
            if i < before.vars@.len() {
                assert(before.var_ok(i, log));
            }
        }
        assert(d.form().vars =~= touched_in(f, k as int).vars);
    }
    d.seat(rows, Place::Nothing, blank_row(), Ghost(log.push(m)), Ghost(w.params));
    proof {
        let now = row_views(rows@);
        assert(now.drop_last() =~= was);
        assert(log.push(m) =~= log + seq![m]);
    }
    true
}

fn do_use_var(
    b: &mut FunctionBuilder<'_>,
    d: &mut Desk,
    rows: &mut Vec<Row>,
    var: usize,
    Ghost(w): Ghost<World>,
) -> (ok: bool)
    requires
        old(d).linked(row_views(old(rows)@), made(*old(b)), w.params),
    ensures
        stepped(
            old(d).form(),
            row_views(old(rows)@),
            made(*old(b)),
            Op::UseVar { var },
            w,
            ok,
            *final(d),
            row_views(final(rows)@),
            made(*final(b)),
        ),
{
    let ghost f = d.form();
    let ghost log = made(*b);
    let ghost was = row_views(rows@);
    if !d.is_open() {
        return false;
    }
    proof {
        d.opens(was, log, w.params);
    }
    let k = match d.var(var) {
        Some(k) => k,
        None => {
            return false;
        },
    };
    assert(d.seat_ok(var as int, was, log));
    assert(d.var_ok(k as int, log));
    let row = d.vars[k];
    assert(f.vars[k as int] == (Vr { ty: row.ty, touched: row.touched }));
    let r = use_var(b, row.num);
    let ghost m = Made::Use { var: row.num, ty: row.ty, val: r };
    let ghost before = *d;
    d.vars[k] = VarRow { num: row.num, ty: row.ty, touched: true };
    match d.at {
        Some(a) => {
            let mut block = d.blocks[a];
            block.begun = true;
            d.blocks[a] = block;
        },
        None => {},
    }
    proof {
        pushed(log, m);
        assert forall|i: int| 0 <= i < d.seats@.len() implies #[trigger] d.seat_ok(i, was, log.push(m)) by {
            assert(before.seat_ok(i, was, log));
        }
        assert forall|i: int| 0 <= i < d.blocks@.len() implies #[trigger] d.block_ok(i, log.push(m)) by {
            if i < before.blocks@.len() {
                assert(before.block_ok(i, log));
            }
        }
        assert forall|i: int| 0 <= i < d.vars@.len() implies #[trigger] d.var_ok(i, log.push(m)) by {
            if i < before.vars@.len() {
                assert(before.var_ok(i, log));
            }
        }
        assert(d.form().vars =~= touched_in(marked(f), k as int).vars);
        assert(d.form().blocks =~= touched_in(marked(f), k as int).blocks);
    }
    d.seat(rows, Place::Val { num: r, ty: row.ty }, plain_row(r), Ghost(log.push(m)), Ghost(w.params));
    proof {
        let now = row_views(rows@);
        assert(now.drop_last() =~= was);
        assert(log.push(m) =~= log + seq![m]);
    }
    true
}

fn do_gc_value(
    b: &mut FunctionBuilder<'_>,
    d: &mut Desk,
    rows: &mut Vec<Row>,
    val: usize,
    Ghost(w): Ghost<World>,
) -> (ok: bool)
    requires
        old(d).linked(row_views(old(rows)@), made(*old(b)), w.params),
    ensures
        stepped(
            old(d).form(),
            row_views(old(rows)@),
            made(*old(b)),
            Op::GcValue { val },
            w,
            ok,
            *final(d),
            row_views(final(rows)@),
            made(*final(b)),
        ),
{
    let ghost f = d.form();
    let ghost log = made(*b);
    let ghost was = row_views(rows@);
    let (val_num, val_ty) = match d.val(val) {
        Some(v) => v,
        None => {
            return false;
        },
    };
    assert(d.seat_ok(val as int, was, log));
    value_is_root(b, val_num);
    let ghost m = Made::GcValue { val: val_num };
    proof {
        d.unmoved(was, log, m, w.params);
    }
    d.seat(rows, Place::Nothing, blank_row(), Ghost(log.push(m)), Ghost(w.params));
    proof {
        let now = row_views(rows@);
        assert(now.drop_last() =~= was);
        assert(log.push(m) =~= log + seq![m]);
    }
    true
}

fn do_later_block(
    b: &mut FunctionBuilder<'_>,
    d: &mut Desk,
    rows: &mut Vec<Row>,
    Ghost(w): Ghost<World>,
) -> (ok: bool)
    requires
        old(d).linked(row_views(old(rows)@), made(*old(b)), w.params),
        old(d).blocks@.len() > 0,
    ensures
        stepped(
            old(d).form(),
            row_views(old(rows)@),
            made(*old(b)),
            Op::Block,
            w,
            ok,
            *final(d),
            row_views(final(rows)@),
            made(*final(b)),
        ),
{
    let ghost f = d.form();
    let ghost log = made(*b);
    let ghost was = row_views(rows@);
    let r = create_block(b);
    let ghost m = Made::Block { block: r };
    let ghost before = *d;
    let k: usize = d.blocks.len();
    d.blocks.push(BlockRow { num: r, filled: false, sealed: false, begun: false, params: 0 });
    d.shapes.push(Vec::new());
    d.aimed.push(false);
    proof {
        pushed(log, m);
        assert forall|i: int| 0 <= i < before.blocks@.len() implies (#[trigger] d.blocks@[i]).num != r by {
            assert(before.block_ok(i, log));
        }
        assert forall|i: int| 0 <= i < d.seats@.len() implies #[trigger] d.seat_ok(i, was, log.push(m)) by {
            assert(before.seat_ok(i, was, log));
        }
        assert forall|i: int| 0 <= i < d.blocks@.len() implies #[trigger] d.block_ok(i, log.push(m)) by {
            if i < before.blocks@.len() {
                assert(before.block_ok(i, log));
            }
        }
        assert forall|i: int| 0 <= i < d.vars@.len() implies #[trigger] d.var_ok(i, log.push(m)) by {
            if i < before.vars@.len() {
                assert(before.var_ok(i, log));
            }
        }
        assert(d.form().blocks =~= f.blocks.push(Blk { filled: false, sealed: false, begun: false, params: 0 }));
        assert(d.shapes@.last()@ =~= Seq::empty());
        assert(d.form().shapes =~= f.shapes.push(Seq::empty()));
        assert(d.form().aimed =~= f.aimed.push(false));
    }
    d.seat(rows, Place::Block { at: k }, plain_row(r), Ghost(log.push(m)), Ghost(w.params));
    proof {
        let now = row_views(rows@);
        assert(now.drop_last() =~= was);
        assert(log.push(m) =~= log + seq![m]);
    }
    true
}

fn do_entry_block(
    b: &mut FunctionBuilder<'_>,
    d: &mut Desk,
    rows: &mut Vec<Row>,
    params: &Vec<ClType>,
    Ghost(w): Ghost<World>,
) -> (ok: bool)
    requires
        old(d).linked(row_views(old(rows)@), made(*old(b)), w.params),
        old(d).blocks@.len() == 0,
        params@ == w.params,
    ensures
        stepped(
            old(d).form(),
            row_views(old(rows)@),
            made(*old(b)),
            Op::Block,
            w,
            ok,
            *final(d),
            row_views(final(rows)@),
            made(*final(b)),
        ),
{
    let ghost f = d.form();
    let ghost log = made(*b);
    let ghost was = row_views(rows@);
    let count: usize = params.len();
    if count > 65535 || count + d.vars.len() > 65536 {
        return false;
    }
    let r = create_block(b);
    let ghost m1 = Made::Block { block: r };
    let ghost mid = log.push(m1);
    proof {
        pushed(log, m1);
        assert(mid.last() == m1);
    }
    let vals = entry_params(b, r);
    let ghost m = Made::EntryParams { block: r, tys: w.params, vals: vals@ };
    let ghost now = mid.push(m);
    let ghost before = *d;
    proof {
        pushed(mid, m);
        among_finds(vals@, w.params);
        assert forall|i: int| 0 <= i < d.seats@.len() implies #[trigger] d.seat_ok(i, was, now) by {
            assert(before.seat_ok(i, was, log));
            if d.seats@[i] is Val {
                let num = d.seats@[i]->num;
                if among(vals@, w.params, num) is Some {
                    among_new(mid, vals@, w.params, num);
                }
            }
        }
        assert forall|i: int| 0 <= i < d.vars@.len() implies #[trigger] d.var_ok(i, now) by {
            assert(before.var_ok(i, log));
        }
        assert forall|i: int| 0 <= i < d.vals@.len() implies val_ty(now, #[trigger] d.vals@[i]) == Some(d.results@[i]) by {
            let num = d.vals@[i];
            if among(vals@, w.params, num) is Some {
                among_new(mid, vals@, w.params, num);
            }
        }
    }
    let k: usize = rows.len();
    d.blocks.push(BlockRow { num: r, filled: false, sealed: false, begun: false, params: count });
    let mut shape: Vec<ClType> = Vec::new();
    let mut i: usize = 0;
    while i < params.len()
        invariant
            i <= params.len(),
            shape@ =~= params@.take(i as int),
        decreases params.len() - i,
    {
        shape.push(params[i]);
        i = i + 1;
    }
    assert(shape@ =~= w.params);
    d.shapes.push(shape);
    d.aimed.push(false);
    if d.widest < count {
        d.widest = count;
    }
    let mut kept: Vec<u32> = Vec::new();
    let mut i: usize = 0;
    while i < vals.len()
        invariant
            i <= vals.len(),
            kept@ =~= vals@.take(i as int),
        decreases vals.len() - i,
    {
        kept.push(vals[i]);
        i = i + 1;
    }
    assert(kept@ =~= vals@);
    d.entry_vals = kept;
    let row = Row { num: r, extra: Vec::new(), vals };
    let ghost rv = row_view(row);
    let ghost rest = *d;
    d.entry = Some(k);
    d.seats.push(Place::Block { at: 0 });
    rows.push(row);
    proof {
        let later = row_views(rows@);
        assert(later =~= was.push(rv));
        assert forall|j: int| 0 <= j < d.seats@.len() implies #[trigger] d.seat_ok(j, later, now) by {
            if j < before.seats@.len() {
                assert(before.seat_ok(j, was, now));
            }
        }
        assert(d.block_ok(0, now));
        assert forall|j: int| 0 <= j < d.vars@.len() implies #[trigger] d.var_ok(j, now) by {
            assert(before.var_ok(j, now));
        }
        assert(d.form().blocks =~= f.blocks.push(
            Blk { filled: false, sealed: false, begun: false, params: w.params.len() },
        ));
        assert(d.form().shapes =~= f.shapes.push(w.params));
        assert(d.form().aimed =~= f.aimed.push(false));
        assert(d.form().seats =~= f.seats.push(Seat::Block(0)));
        assert(later.drop_last() =~= was);
        assert(now =~= log + seq![m1, m]);
    }
    true
}

fn do_block_param(
    b: &mut FunctionBuilder<'_>,
    d: &mut Desk,
    rows: &mut Vec<Row>,
    block: usize,
    ty: ClType,
    Ghost(w): Ghost<World>,
) -> (ok: bool)
    requires
        old(d).linked(row_views(old(rows)@), made(*old(b)), w.params),
    ensures
        stepped(
            old(d).form(),
            row_views(old(rows)@),
            made(*old(b)),
            Op::BlockParam { block, ty },
            w,
            ok,
            *final(d),
            row_views(final(rows)@),
            made(*final(b)),
        ),
{
    let ghost f = d.form();
    let ghost log = made(*b);
    let ghost was = row_views(rows@);
    let k = match d.block(block) {
        Some(k) => k,
        None => {
            return false;
        },
    };
    assert(d.seat_ok(block as int, was, log));
    assert(d.block_ok(k as int, log));
    let row = d.blocks[k];
    assert(f.blocks[k as int] == (Blk {
        filled: row.filled,
        sealed: row.sealed,
        begun: row.begun,
        params: row.params as nat,
    }));
    if row.begun || d.aimed[k] || row.params >= 65535 || row.params + d.vars.len() >= 65536 {
        return false;
    }
    let r = block_param(b, row.num, ty);
    let ghost m = Made::Param { block: row.num, ty, val: r };
    let ghost before = *d;
    let mut next = row;
    next.params = row.params + 1;
    d.blocks[k] = next;
    let mut shape: Vec<ClType> = Vec::new();
    let mut i: usize = 0;
    while i < d.shapes[k].len()
        invariant
            k < d.shapes@.len(),
            i <= d.shapes@[k as int]@.len(),
            shape@ =~= d.shapes@[k as int]@.take(i as int),
        decreases d.shapes@[k as int]@.len() - i,
    {
        shape.push(d.shapes[k][i]);
        i = i + 1;
    }
    shape.push(ty);
    assert(shape@ =~= f.shapes[k as int].push(ty));
    d.shapes[k] = shape;
    if d.widest < row.params + 1 {
        d.widest = row.params + 1;
    }
    proof {
        pushed(log, m);
        assert forall|i: int| 0 <= i < d.seats@.len() implies #[trigger] d.seat_ok(i, was, log.push(m)) by {
            assert(before.seat_ok(i, was, log));
        }
        assert forall|i: int| 0 <= i < d.blocks@.len() implies #[trigger] d.block_ok(i, log.push(m)) by {
            if i < before.blocks@.len() {
                assert(before.block_ok(i, log));
            }
        }
        assert forall|i: int| 0 <= i < d.vars@.len() implies #[trigger] d.var_ok(i, log.push(m)) by {
            if i < before.vars@.len() {
                assert(before.var_ok(i, log));
            }
        }
        assert(d.form().blocks =~= f.blocks.update(
            k as int,
            Blk { params: f.blocks[k as int].params + 1, ..f.blocks[k as int] },
        ));
        assert(d.form().shapes =~= f.shapes.update(k as int, f.shapes[k as int].push(ty)));
    }
    d.seat(rows, Place::Val { num: r, ty }, plain_row(r), Ghost(log.push(m)), Ghost(w.params));
    proof {
        let now = row_views(rows@);
        assert(now.drop_last() =~= was);
        assert(log.push(m) =~= log + seq![m]);
    }
    true
}

fn do_entry_param(
    b: &mut FunctionBuilder<'_>,
    d: &mut Desk,
    rows: &mut Vec<Row>,
    index: usize,
    params: &Vec<ClType>,
    Ghost(w): Ghost<World>,
) -> (ok: bool)
    requires
        old(d).linked(row_views(old(rows)@), made(*old(b)), w.params),
        params@ == w.params,
    ensures
        stepped(
            old(d).form(),
            row_views(old(rows)@),
            made(*old(b)),
            Op::EntryParam { index },
            w,
            ok,
            *final(d),
            row_views(final(rows)@),
            made(*final(b)),
        ),
{
    let ghost f = d.form();
    let ghost log = made(*b);
    let ghost was = row_views(rows@);
    if d.entry.is_none() || index >= params.len() {
        return false;
    }
    let num = d.entry_vals[index];
    d.seat(rows, Place::Val { num, ty: params[index] }, plain_row(num), Ghost(log), Ghost(w.params));
    proof {
        let now = row_views(rows@);
        assert(now.drop_last() =~= was);
        assert(log =~= log + Seq::empty());
    }
    true
}

fn do_switch(
    b: &mut FunctionBuilder<'_>,
    d: &mut Desk,
    rows: &mut Vec<Row>,
    block: usize,
    Ghost(w): Ghost<World>,
) -> (ok: bool)
    requires
        old(d).linked(row_views(old(rows)@), made(*old(b)), w.params),
    ensures
        stepped(
            old(d).form(),
            row_views(old(rows)@),
            made(*old(b)),
            Op::Switch { block },
            w,
            ok,
            *final(d),
            row_views(final(rows)@),
            made(*final(b)),
        ),
{
    let ghost f = d.form();
    let ghost log = made(*b);
    let ghost was = row_views(rows@);
    let k = match d.block(block) {
        Some(k) => k,
        None => {
            return false;
        },
    };
    assert(d.seat_ok(block as int, was, log));
    assert(d.block_ok(k as int, log));
    let row = d.blocks[k];
    assert(f.blocks[k as int] == (Blk {
        filled: row.filled,
        sealed: row.sealed,
        begun: row.begun,
        params: row.params as nat,
    }));
    if row.filled {
        return false;
    }
    match d.at {
        Some(a) => {
            assert(d.block_ok(a as int, log));
            if !d.blocks[a].filled && d.blocks[a].begun {
                return false;
            }
        },
        None => {},
    }
    switch_to_block(b, row.num);
    let ghost m = Made::Switch { block: row.num };
    let ghost before = *d;
    d.at = Some(k);
    proof {
        pushed(log, m);
        assert forall|i: int| 0 <= i < d.seats@.len() implies #[trigger] d.seat_ok(i, was, log.push(m)) by {
            assert(before.seat_ok(i, was, log));
        }
        assert forall|i: int| 0 <= i < d.blocks@.len() implies #[trigger] d.block_ok(i, log.push(m)) by {
            if i < before.blocks@.len() {
                assert(before.block_ok(i, log));
            }
        }
        assert forall|i: int| 0 <= i < d.vars@.len() implies #[trigger] d.var_ok(i, log.push(m)) by {
            if i < before.vars@.len() {
                assert(before.var_ok(i, log));
            }
        }
    }
    d.seat(rows, Place::Nothing, blank_row(), Ghost(log.push(m)), Ghost(w.params));
    proof {
        let now = row_views(rows@);
        assert(now.drop_last() =~= was);
        assert(log.push(m) =~= log + seq![m]);
    }
    true
}

fn do_seal(
    b: &mut FunctionBuilder<'_>,
    d: &mut Desk,
    rows: &mut Vec<Row>,
    block: usize,
    Ghost(w): Ghost<World>,
) -> (ok: bool)
    requires
        old(d).linked(row_views(old(rows)@), made(*old(b)), w.params),
    ensures
        stepped(
            old(d).form(),
            row_views(old(rows)@),
            made(*old(b)),
            Op::Seal { block },
            w,
            ok,
            *final(d),
            row_views(final(rows)@),
            made(*final(b)),
        ),
{
    let ghost f = d.form();
    let ghost log = made(*b);
    let ghost was = row_views(rows@);
    let k = match d.block(block) {
        Some(k) => k,
        None => {
            return false;
        },
    };
    assert(d.seat_ok(block as int, was, log));
    assert(d.block_ok(k as int, log));
    let row = d.blocks[k];
    assert(f.blocks[k as int] == (Blk {
        filled: row.filled,
        sealed: row.sealed,
        begun: row.begun,
        params: row.params as nat,
    }));
    if row.sealed {
        return false;
    }
    seal_block(b, row.num);
    let ghost m = Made::Seal { block: row.num };
    let ghost before = *d;
    let mut next = row;
    next.sealed = true;
    d.blocks[k] = next;
    proof {
        pushed(log, m);
        assert forall|i: int| 0 <= i < d.seats@.len() implies #[trigger] d.seat_ok(i, was, log.push(m)) by {
            assert(before.seat_ok(i, was, log));
        }
        assert forall|i: int| 0 <= i < d.blocks@.len() implies #[trigger] d.block_ok(i, log.push(m)) by {
            if i < before.blocks@.len() {
                assert(before.block_ok(i, log));
            }
        }
        assert forall|i: int| 0 <= i < d.vars@.len() implies #[trigger] d.var_ok(i, log.push(m)) by {
            if i < before.vars@.len() {
                assert(before.var_ok(i, log));
            }
        }
        assert(d.form().blocks =~= f.blocks.update(k as int, Blk { sealed: true, ..f.blocks[k as int] }));
    }
    d.seat(rows, Place::Nothing, blank_row(), Ghost(log.push(m)), Ghost(w.params));
    proof {
        let now = row_views(rows@);
        assert(now.drop_last() =~= was);
        assert(log.push(m) =~= log + seq![m]);
    }
    true
}

fn do_arg(
    b: &mut FunctionBuilder<'_>,
    d: &mut Desk,
    rows: &mut Vec<Row>,
    val: usize,
    Ghost(w): Ghost<World>,
) -> (ok: bool)
    requires
        old(d).linked(row_views(old(rows)@), made(*old(b)), w.params),
    ensures
        stepped(
            old(d).form(),
            row_views(old(rows)@),
            made(*old(b)),
            Op::Arg { val },
            w,
            ok,
            *final(d),
            row_views(final(rows)@),
            made(*final(b)),
        ),
{
    let ghost f = d.form();
    let ghost log = made(*b);
    let ghost was = row_views(rows@);
    let (val_num, val_ty) = match d.val(val) {
        Some(v) => v,
        None => {
            return false;
        },
    };
    assert(d.seat_ok(val as int, was, log));
    let ghost before = *d;
    d.args.push(val);
    proof {
        assert forall|i: int| 0 <= i < d.seats@.len() implies #[trigger] d.seat_ok(i, was, log) by {
            assert(before.seat_ok(i, was, log));
        }
        assert forall|i: int| 0 <= i < d.blocks@.len() implies #[trigger] d.block_ok(i, log) by {
            assert(before.block_ok(i, log));
        }
        assert forall|i: int| 0 <= i < d.vars@.len() implies #[trigger] d.var_ok(i, log) by {
            assert(before.var_ok(i, log));
        }
    }
    d.seat(rows, Place::Nothing, blank_row(), Ghost(log), Ghost(w.params));
    proof {
        let now = row_views(rows@);
        assert(now.drop_last() =~= was);
        assert(log =~= log + Seq::empty());
    }
    true
}

fn do_else_arg(
    b: &mut FunctionBuilder<'_>,
    d: &mut Desk,
    rows: &mut Vec<Row>,
    val: usize,
    Ghost(w): Ghost<World>,
) -> (ok: bool)
    requires
        old(d).linked(row_views(old(rows)@), made(*old(b)), w.params),
    ensures
        stepped(
            old(d).form(),
            row_views(old(rows)@),
            made(*old(b)),
            Op::ElseArg { val },
            w,
            ok,
            *final(d),
            row_views(final(rows)@),
            made(*final(b)),
        ),
{
    let ghost f = d.form();
    let ghost log = made(*b);
    let ghost was = row_views(rows@);
    let (val_num, val_ty) = match d.val(val) {
        Some(v) => v,
        None => {
            return false;
        },
    };
    assert(d.seat_ok(val as int, was, log));
    let ghost before = *d;
    d.others.push(val);
    proof {
        assert forall|i: int| 0 <= i < d.seats@.len() implies #[trigger] d.seat_ok(i, was, log) by {
            assert(before.seat_ok(i, was, log));
        }
        assert forall|i: int| 0 <= i < d.blocks@.len() implies #[trigger] d.block_ok(i, log) by {
            assert(before.block_ok(i, log));
        }
        assert forall|i: int| 0 <= i < d.vars@.len() implies #[trigger] d.var_ok(i, log) by {
            assert(before.var_ok(i, log));
        }
    }
    d.seat(rows, Place::Nothing, blank_row(), Ghost(log), Ghost(w.params));
    proof {
        let now = row_views(rows@);
        assert(now.drop_last() =~= was);
        assert(log =~= log + Seq::empty());
    }
    true
}

fn do_jump(
    b: &mut FunctionBuilder<'_>,
    d: &mut Desk,
    rows: &mut Vec<Row>,
    block: usize,
    Ghost(w): Ghost<World>,
) -> (ok: bool)
    requires
        old(d).linked(row_views(old(rows)@), made(*old(b)), w.params),
    ensures
        stepped(
            old(d).form(),
            row_views(old(rows)@),
            made(*old(b)),
            Op::Jump { block },
            w,
            ok,
            *final(d),
            row_views(final(rows)@),
            made(*final(b)),
        ),
{
    let ghost f = d.form();
    let ghost log = made(*b);
    let ghost was = row_views(rows@);
    if !d.is_open() {
        return false;
    }
    proof {
        d.opens(was, log, w.params);
    }
    let k = match d.block(block) {
        Some(k) => k,
        None => {
            return false;
        },
    };
    assert(d.seat_ok(block as int, was, log));
    assert(d.block_ok(k as int, log));
    let row = d.blocks[k];
    assert(f.blocks[k as int] == (Blk {
        filled: row.filled,
        sealed: row.sealed,
        begun: row.begun,
        params: row.params as nat,
    }));
    assert(f.shapes[k as int] == d.shapes@[k as int]@);
    if row.sealed || !d.have_tys(&d.args, &d.shapes[k]) {
        return false;
    }
    let args = d.waiting(&d.args, Ghost(was), Ghost(log), Ghost(w.params));
    d.aim(k, Ghost(was), Ghost(log), Ghost(w.params));
    jump(b, row.num, &args);
    let ghost m = Made::Jump { block: row.num, args: args@ };
    d.finish(rows, Ghost(log), Ghost(m), Ghost(w.params));
    proof {
        let now = row_views(rows@);
        assert(now.drop_last() =~= was);
        assert(log.push(m) =~= log + seq![m]);
        assert(nums(now, f.args) =~= nums(was, f.args));
    }
    true
}

fn do_brif(
    b: &mut FunctionBuilder<'_>,
    d: &mut Desk,
    rows: &mut Vec<Row>,
    cond: usize,
    yes: usize,
    no: usize,
    Ghost(w): Ghost<World>,
) -> (ok: bool)
    requires
        old(d).linked(row_views(old(rows)@), made(*old(b)), w.params),
    ensures
        stepped(
            old(d).form(),
            row_views(old(rows)@),
            made(*old(b)),
            Op::Brif { cond, yes, no },
            w,
            ok,
            *final(d),
            row_views(final(rows)@),
            made(*final(b)),
        ),
{
    let ghost f = d.form();
    let ghost log = made(*b);
    let ghost was = row_views(rows@);
    if !d.is_open() {
        return false;
    }
    proof {
        d.opens(was, log, w.params);
    }
    let (cond_num, cond_ty) = match d.val(cond) {
        Some(v) => v,
        None => {
            return false;
        },
    };
    assert(d.seat_ok(cond as int, was, log));
    let k = match d.block(yes) {
        Some(k) => k,
        None => {
            return false;
        },
    };
    assert(d.seat_ok(yes as int, was, log));
    assert(d.block_ok(k as int, log));
    let row = d.blocks[k];
    assert(f.blocks[k as int] == (Blk {
        filled: row.filled,
        sealed: row.sealed,
        begun: row.begun,
        params: row.params as nat,
    }));
    let l = match d.block(no) {
        Some(k) => k,
        None => {
            return false;
        },
    };
    assert(d.seat_ok(no as int, was, log));
    assert(d.block_ok(l as int, log));
    let other = d.blocks[l];
    assert(f.blocks[l as int] == (Blk {
        filled: other.filled,
        sealed: other.sealed,
        begun: other.begun,
        params: other.params as nat,
    }));
    assert(f.shapes[k as int] == d.shapes@[k as int]@);
    assert(f.shapes[l as int] == d.shapes@[l as int]@);
    if cond_ty == ClType::F64 || row.sealed || other.sealed || !d.have_tys(&d.args, &d.shapes[k]) || !d.have_tys(
        &d.others,
        &d.shapes[l],
    ) {
        return false;
    }
    let args = d.waiting(&d.args, Ghost(was), Ghost(log), Ghost(w.params));
    let others = d.waiting(&d.others, Ghost(was), Ghost(log), Ghost(w.params));
    d.aim(k, Ghost(was), Ghost(log), Ghost(w.params));
    d.aim(l, Ghost(was), Ghost(log), Ghost(w.params));
    brif(b, cond_num, row.num, &args, other.num, &others);
    let ghost m = Made::Brif {
        cond: cond_num,
        yes: row.num,
        args: args@,
        no: other.num,
        others: others@,
    };
    d.finish(rows, Ghost(log), Ghost(m), Ghost(w.params));
    proof {
        let now = row_views(rows@);
        assert(now.drop_last() =~= was);
        assert(log.push(m) =~= log + seq![m]);
        assert(nums(now, f.args) =~= nums(was, f.args));
        assert(nums(now, f.others) =~= nums(was, f.others));
    }
    true
}

fn do_return(
    b: &mut FunctionBuilder<'_>,
    d: &mut Desk,
    rows: &mut Vec<Row>,
    results: &Vec<ClType>,
    Ghost(w): Ghost<World>,
) -> (ok: bool)
    requires
        results@ == w.results,
        old(d).linked(row_views(old(rows)@), made(*old(b)), w.params),
    ensures
        stepped(
            old(d).form(),
            row_views(old(rows)@),
            made(*old(b)),
            Op::Return,
            w,
            ok,
            *final(d),
            row_views(final(rows)@),
            made(*final(b)),
        ),
{
    let ghost f = d.form();
    let ghost log = made(*b);
    let ghost was = row_views(rows@);
    if !d.is_open() {
        return false;
    }
    proof {
        d.opens(was, log, w.params);
    }
    if !d.have_tys(&d.args, results) {
        return false;
    }
    let args = d.waiting(&d.args, Ghost(was), Ghost(log), Ghost(w.params));
    return_values(b, &args);
    let ghost m = Made::Return { args: args@ };
    d.finish(rows, Ghost(log), Ghost(m), Ghost(w.params));
    proof {
        let now = row_views(rows@);
        assert(now.drop_last() =~= was);
        assert(log.push(m) =~= log + seq![m]);
        assert(nums(now, f.args) =~= nums(was, f.args));
    }
    true
}

fn do_trap(
    b: &mut FunctionBuilder<'_>,
    d: &mut Desk,
    rows: &mut Vec<Row>,
    code: u8,
    Ghost(w): Ghost<World>,
) -> (ok: bool)
    requires
        old(d).linked(row_views(old(rows)@), made(*old(b)), w.params),
    ensures
        stepped(
            old(d).form(),
            row_views(old(rows)@),
            made(*old(b)),
            Op::Trap { code },
            w,
            ok,
            *final(d),
            row_views(final(rows)@),
            made(*final(b)),
        ),
{
    let ghost f = d.form();
    let ghost log = made(*b);
    let ghost was = row_views(rows@);
    if !d.is_open() {
        return false;
    }
    proof {
        d.opens(was, log, w.params);
    }
    if code == 0 || code > 250 {
        return false;
    }
    trap(b, code);
    let ghost m = Made::Trap { code };
    d.finish(rows, Ghost(log), Ghost(m), Ghost(w.params));
    proof {
        let now = row_views(rows@);
        assert(now.drop_last() =~= was);
        assert(log.push(m) =~= log + seq![m]);
    }
    true
}

fn do_call(
    b: &mut FunctionBuilder<'_>,
    d: &mut Desk,
    rows: &mut Vec<Row>,
    func: usize,
    decls: &Vec<Decl>,
    ids: &Vec<u32>,
    Ghost(w): Ghost<World>,
) -> (ok: bool)
    requires
        old(d).linked(row_views(old(rows)@), made(*old(b)), w.params),
        decls@ == w.decls,
        ids@ == w.ids,
    ensures
        stepped(
            old(d).form(),
            row_views(old(rows)@),
            made(*old(b)),
            Op::Call { func },
            w,
            ok,
            *final(d),
            row_views(final(rows)@),
            made(*final(b)),
        ),
{
    let ghost f = d.form();
    let ghost log = made(*b);
    let ghost was = row_views(rows@);
    if !d.is_open() {
        return false;
    }
    proof {
        d.opens(was, log, w.params);
    }
    if func >= decls.len() || func >= ids.len() {
        return false;
    }
    let decl = &decls[func];
    if !d.have_tys(&d.args, &decl.sig.params) || decl.sig.results.len() > 65535 {
        return false;
    }
    let args = d.waiting(&d.args, Ghost(was), Ghost(log), Ghost(w.params));
    let sig = import_signature(b, &decl.sig.params, &decl.sig.results);
    let ghost m1 = Made::Sig { params: decl.sig.params@, results: decl.sig.results@, sig };
    let ghost log1 = log.push(m1);
    proof {
        pushed(log, m1);
        d.unmoved(was, log, m1, w.params);
    }
    let name = import_name(b, ids[func]);
    let ghost m2 = Made::Name { index: ids@[func as int], name };
    let ghost log2 = log1.push(m2);
    proof {
        pushed(log1, m2);
        d.unmoved(was, log1, m2, w.params);
    }
    let callee = import_function(b, name, sig, !decl.import);
    let ghost m3 = Made::Import { name, sig, local: !decl.import, func: callee };
    let ghost log3 = log2.push(m3);
    proof {
        pushed(log2, m3);
        d.unmoved(was, log2, m3, w.params);
        d.opens(was, log3, w.params);
    }
    let vals = call(b, callee, &args);
    let ghost m = Made::Call { func: callee, args: args@, tys: decl.sig.results@, vals: vals@ };
    proof {
        among_finds(vals@, decl.sig.results@);
        assert forall|v: u32| (#[trigger] here(m, v)) is Some implies val_ty(log3, v) is None || val_ty(log3, v)
            == here(m, v) by {
            among_new(log3, vals@, decl.sig.results@, v);
        }
    }
    d.mark(Ghost(was), Ghost(log3), Ghost(m), Ghost(w.params));
    let ghost last = log3.push(m);
    proof {
        pushed(log3, m);
    }
    let ghost before = *d;
    let k: usize = rows.len();
    let mut kept: Vec<u32> = Vec::new();
    let mut i: usize = 0;
    while i < vals.len()
        invariant
            i <= vals.len(),
            kept@ =~= vals@.take(i as int),
        decreases vals.len() - i,
    {
        kept.push(vals[i]);
        i = i + 1;
    }
    assert(kept@ =~= vals@);
    let mut tys: Vec<ClType> = Vec::new();
    let mut i: usize = 0;
    while i < decl.sig.results.len()
        invariant
            i <= decl.sig.results@.len(),
            tys@ =~= decl.sig.results@.take(i as int),
        decreases decl.sig.results.len() - i,
    {
        tys.push(decl.sig.results[i]);
        i = i + 1;
    }
    assert(tys@ =~= decl.sig.results@);
    let mut extra: Vec<u32> = Vec::new();
    extra.push(sig);
    extra.push(name);
    extra.push(callee);
    let row = Row { num: 0, extra, vals };
    let ghost rv = row_view(row);
    d.vals = kept;
    d.results = tys;
    d.call = Some(k);
    d.args = Vec::new();
    d.others = Vec::new();
    d.seats.push(Place::Nothing);
    rows.push(row);
    proof {
        let now = row_views(rows@);
        assert(now =~= was.push(rv));
        assert forall|j: int| 0 <= j < d.seats@.len() implies #[trigger] d.seat_ok(j, now, last) by {
            if j < before.seats@.len() {
                assert(before.seat_ok(j, was, last));
            }
        }
        assert forall|j: int| 0 <= j < d.blocks@.len() implies #[trigger] d.block_ok(j, last) by {
            assert(before.block_ok(j, last));
        }
        assert forall|j: int| 0 <= j < d.vars@.len() implies #[trigger] d.var_ok(j, last) by {
            assert(before.var_ok(j, last));
        }
        assert(d.form().seats =~= f.seats.push(Seat::Nothing));
        assert(d.form().args =~= Seq::empty());
        assert(d.form().others =~= Seq::empty());
        assert(now.drop_last() =~= was);
        assert(nums(now, f.args) =~= nums(was, f.args));
        assert(last =~= log + seq![m1, m2, m3, m]);
        assert(rv.extra =~= seq![sig, name, callee]);
    }
    true
}

fn do_result(
    b: &mut FunctionBuilder<'_>,
    d: &mut Desk,
    rows: &mut Vec<Row>,
    index: usize,
    Ghost(w): Ghost<World>,
) -> (ok: bool)
    requires
        old(d).linked(row_views(old(rows)@), made(*old(b)), w.params),
    ensures
        stepped(
            old(d).form(),
            row_views(old(rows)@),
            made(*old(b)),
            Op::Result { index },
            w,
            ok,
            *final(d),
            row_views(final(rows)@),
            made(*final(b)),
        ),
{
    let ghost f = d.form();
    let ghost log = made(*b);
    let ghost was = row_views(rows@);
    if d.call.is_none() || index >= d.results.len() {
        return false;
    }
    let num = d.vals[index];
    let ty = d.results[index];
    d.seat(rows, Place::Val { num, ty }, plain_row(num), Ghost(log), Ghost(w.params));
    proof {
        let now = row_views(rows@);
        assert(now.drop_last() =~= was);
        assert(log =~= log + Seq::empty());
    }
    true
}

/// One operation.
fn replay_op(
    b: &mut FunctionBuilder<'_>,
    d: &mut Desk,
    rows: &mut Vec<Row>,
    op: Op,
    params: &Vec<ClType>,
    results: &Vec<ClType>,
    decls: &Vec<Decl>,
    ids: &Vec<u32>,
    target: &Target,
    Ghost(w): Ghost<World>,
) -> (ok: bool)
    requires
        old(d).linked(row_views(old(rows)@), made(*old(b)), w.params),
        params@ == w.params,
        results@ == w.results,
        decls@ == w.decls,
        ids@ == w.ids,
        *target == w.target,
    ensures
        stepped(
            old(d).form(),
            row_views(old(rows)@),
            made(*old(b)),
            op,
            w,
            ok,
            *final(d),
            row_views(final(rows)@),
            made(*final(b)),
        ),
{
    match op {
        Op::Iconst { ty, imm } => do_iconst(b, d, rows, ty, imm, Ghost(w)),
        Op::F64const { bits } => do_fconst(b, d, rows, bits, Ghost(w)),
        Op::StrAddr { index } => do_str_addr(b, d, rows, index, target, Ghost(w)),
        Op::NoneWord => do_none_word(b, d, rows, target, Ghost(w)),
        Op::Binary { op, a, b: c } => do_binary(b, d, rows, op, a, c, Ghost(w)),
        Op::BinaryImm { op, a, imm } => do_binary_imm(b, d, rows, op, a, imm, Ghost(w)),
        Op::Convert { op, a } => do_convert(b, d, rows, op, a, Ghost(w)),
        Op::Compare { test, a, b: c } => do_compare(b, d, rows, test, a, c, Ghost(w)),
        Op::CompareImm { test, a, imm } => do_compare_imm(b, d, rows, test, a, imm, Ghost(w)),
        Op::FloatCompare { test, a, b: c } => do_float_compare(b, d, rows, test, a, c, Ghost(w)),
        Op::Select { cond, a, b: c } => do_select(b, d, rows, cond, a, c, Ghost(w)),
        Op::Load { ty, base, at } => do_load(b, d, rows, ty, base, at, target, Ghost(w)),
        Op::Store { val, base, at } => do_store(b, d, rows, val, base, at, target, Ghost(w)),
        Op::StackSlot { words } => do_stack_slot(b, d, rows, words, Ghost(w)),
        Op::StackStore { val, slot, word } => do_stack_store(b, d, rows, val, slot, word, Ghost(w)),
        Op::StackLoad { slot, word } => do_stack_load(b, d, rows, slot, word, Ghost(w)),
        Op::StackAddr { slot } => do_stack_addr(b, d, rows, slot, Ghost(w)),
        Op::Var { ty } => do_var(b, d, rows, ty, Ghost(w)),
        Op::GcVar { var } => do_gc_var(b, d, rows, var, Ghost(w)),
        Op::DefVar { var, val } => do_def_var(b, d, rows, var, val, Ghost(w)),
        Op::UseVar { var } => do_use_var(b, d, rows, var, Ghost(w)),
        Op::GcValue { val } => do_gc_value(b, d, rows, val, Ghost(w)),
        Op::Block => if d.blocks.len() == 0 {
            do_entry_block(b, d, rows, params, Ghost(w))
        } else {
            do_later_block(b, d, rows, Ghost(w))
        },
        Op::BlockParam { block, ty } => do_block_param(b, d, rows, block, ty, Ghost(w)),
        Op::EntryParam { index } => do_entry_param(b, d, rows, index, params, Ghost(w)),
        Op::Switch { block } => do_switch(b, d, rows, block, Ghost(w)),
        Op::Seal { block } => do_seal(b, d, rows, block, Ghost(w)),
        Op::Arg { val } => do_arg(b, d, rows, val, Ghost(w)),
        Op::ElseArg { val } => do_else_arg(b, d, rows, val, Ghost(w)),
        Op::Jump { block } => do_jump(b, d, rows, block, Ghost(w)),
        Op::Brif { cond, yes, no } => do_brif(b, d, rows, cond, yes, no, Ghost(w)),
        Op::Return => do_return(b, d, rows, results, Ghost(w)),
        Op::Trap { code } => do_trap(b, d, rows, code, Ghost(w)),
        Op::Call { func } => do_call(b, d, rows, func, decls, ids, Ghost(w)),
        Op::Result { index } => do_result(b, d, rows, index, Ghost(w)),
    }
}

/// Operations after the first that does not fit change nothing.
proof fn misfit_stays(ops: Seq<Op>, w: World, n: int)
    requires
        0 <= n <= ops.len(),
        fit_all(ops.take(n), w) is None,
    ensures
        fit_all(ops, w) is None,
    decreases ops.len(),
{
    if n < ops.len() {
        assert(ops.drop_last().take(n) =~= ops.take(n));
        misfit_stays(ops.drop_last(), w, n);
    } else {
        assert(ops.take(n) =~= ops);
    }
}

/// Puts operations into a function, one after another, through a builder that
/// nothing has been done on. `sig` is the signature of the function, `decls`
/// are the functions that operations call by position, and `ids` the numbers
/// that those go by outside. Where an operation does not fit, its position
/// comes back, and the function is left unfinished; otherwise the numbers that
/// the builder gave out.
pub fn replay(
    b: &mut FunctionBuilder<'_>,
    sig: &Sig,
    ops: &Vec<Op>,
    decls: &Vec<Decl>,
    ids: &Vec<u32>,
    target: &Target,
) -> (r: Result<Vec<Row>, usize>)
    requires
        made(*old(b)) == Seq::<Made>::empty(),
    ensures
        ({
            let w = World { params: sig.params@, results: sig.results@, decls: decls@, ids: ids@, target: *target };
            match r {
                Ok(rows) => fit_all(ops@, w) is Some && rows@.len() == ops@.len() && made(*final(b)) == seq![
                    Made::Signature { params: sig.params@, results: sig.results@ },
                ] + trace(ops@, row_views(rows@), w) && all_tied(ops@, row_views(rows@), w),
                Err(n) => n < ops@.len() && fit_all(ops@.take(n as int), w) is Some && fit_all(
                    ops@.take(n + 1),
                    w,
                ) is None && fit_all(ops@, w) is None,
            }
        }),
{
    let ghost w = World { params: sig.params@, results: sig.results@, decls: decls@, ids: ids@, target: *target };
    set_signature(b, &sig.params, &sig.results);
    let ghost first = Made::Signature { params: sig.params@, results: sig.results@ };
    let mut d = Desk::new(Ghost(sig.params@), Ghost(sig.results@));
    let mut rows: Vec<Row> = Vec::new();
    let mut i: usize = 0;
    proof {
        assert(row_views(rows@) =~= Seq::empty());
        assert(made(*b) =~= Seq::empty().push(first));
        assert(made(*b) =~= seq![first] + trace(ops@.take(0), row_views(rows@), w));
    }
    while i < ops.len()
        invariant
            i <= ops.len(),
            w == (World { params: sig.params@, results: sig.results@, decls: decls@, ids: ids@, target: *target }),
            rows@.len() == i,
            d.linked(row_views(rows@), made(*b), w.params),
            fit_all(ops@.take(i as int), w) == Some(d.form()),
            made(*b) == seq![first] + trace(ops@.take(i as int), row_views(rows@), w),
            all_tied(ops@.take(i as int), row_views(rows@), w),
        decreases ops.len() - i,
    {
        let ghost was = row_views(rows@);
        let ghost log = made(*b);
        let ghost f = d.form();
        let ghost next = ops@.take(i + 1);
        assert(next.drop_last() =~= ops@.take(i as int));
        assert(next.last() == ops@[i as int]);
        let ok = replay_op(b, &mut d, &mut rows, ops[i], &sig.params, &sig.results, decls, ids, target, Ghost(w));
        if !ok {
            proof {
                misfit_stays(ops@, w, i + 1);
            }
            return Err(i);
        }
        proof {
            let now = row_views(rows@);
            assert(now.len() == rows@.len());
            assert(made(*b) =~= seq![first] + trace(next, now, w));
        }
        i = i + 1;
    }
    assert(ops@.take(i as int) =~= ops@);
    Ok(rows)
}

/// A context that a first function can be begun with.
pub fn idle_context() -> (r: FunctionBuilderContext)
    ensures
        !in_use(r),
{
    new_context()
}

/// Begins a function and puts operations into it. The builder comes back for
/// the blocks to be sealed and the function to be finished; where an operation
/// does not fit, its position.
pub fn fill<'a>(
    func: &'a mut Function,
    ctx: &'a mut FunctionBuilderContext,
    sig: &Sig,
    ops: &Vec<Op>,
    decls: &Vec<Decl>,
    ids: &Vec<u32>,
    target: &Target,
) -> (r: Result<(FunctionBuilder<'a>, Vec<Row>), usize>)
    requires
        !in_use(*old(ctx)),
    ensures
        ({
            let w = World { params: sig.params@, results: sig.results@, decls: decls@, ids: ids@, target: *target };
            match r {
                Ok((b, rows)) => fit_all(ops@, w) is Some && rows@.len() == ops@.len() && made(b) == seq![
                    Made::Signature { params: sig.params@, results: sig.results@ },
                ] + trace(ops@, row_views(rows@), w) && all_tied(ops@, row_views(rows@), w),
                Err(n) => n < ops@.len() && fit_all(ops@.take(n as int), w) is Some && fit_all(
                    ops@.take(n + 1),
                    w,
                ) is None && fit_all(ops@, w) is None,
            }
        }),
{
    let mut b = new_builder(func, ctx);
    match replay(&mut b, sig, ops, decls, ids, target) {
        Ok(rows) => Ok((b, rows)),
        Err(n) => Err(n),
    }
}

} // verus!
