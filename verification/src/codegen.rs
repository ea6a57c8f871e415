//! From type-checked entries to code: the table of functions, signatures, the
//! code of each function, and the code of the entry itself.
use crate::emit::{
    cl_type, declare_and_def_var, declare_and_def_var_code, get_or_declare_var, get_or_declare_var_code, iconst,
    iconst_code, machine, min_len, min_nat, placeholder_value, placeholder_value_code, to_i64_repr, to_i64_repr_code,
};
use crate::host::HostFn;
use crate::ir::{
    Builder, ClType, Code, Ctx, Env, Fault, Field, Op, at, bound, emit, emit_code, fail, fail_code, find_name,
    leaf_list, leaves_code, lookup_name, no_code, one, put, put_code,
};
use crate::layout::{dotted, flatten, lays_out, leaves, leaves_of, reaches, struct_fields};
use crate::linear::{bound_names, entry_exit_live, mut_param_names, mut_params, nothing};
use crate::liveness::{analyze_body, analyze_entry, marks, marks_block, no_marks};
use crate::lower::{
    builtin, compile_expr_multi, compile_expr_multi_code, emit_args, emit_args_code, extend, is_never,
    mut_param_copyout, mut_param_copyout_code, placeholders, placeholders_code, var_key,
};
use crate::pack::binding_leaves;
use crate::show::{beyond, is_nil, past};
use crate::text::{NameSet, code, decimal, decimal_of, joined, owned, same_text};
use crate::tokens::{Span, Spanned};
use crate::typed_ast::{TypedExpr, TypedExprKind};
use crate::types::{Defs, FieldView, StructDefs, Ty, Type, UnionDefs, UnionView, field_views};
use vstd::prelude::*;
use vstd::string::StringExecFns;

verus! {

// ── Parts of entries ─────────────────────────────────────────────────────

/// The name and the value of a statement that binds one.
pub open spec fn binding_of(s: Spanned<TypedExpr>) -> Option<(String, Spanned<TypedExpr>)> {
    match s.item.kind {
        TypedExprKind::Assign { name, value } => Some((name, *value)),
        _ => None,
    }
}

fn bound_value(s: &Spanned<TypedExpr>) -> (r: Option<(&String, &Spanned<TypedExpr>)>)
    ensures
        r is Some <==> binding_of(*s) is Some,
        r is Some ==> (*(r->0).0, *(r->0).1) == binding_of(*s)->0,
{
    match &s.item.kind {
        TypedExprKind::Assign { name, value } => Some((name, &**value)),
        _ => None,
    }
}

fn is_function(e: &Spanned<TypedExpr>) -> (r: bool)
    ensures
        r == e.item.kind is Function,
{
    match &e.item.kind {
        TypedExprKind::Function { params: _, return_type: _, body: _ } => true,
        _ => false,
    }
}

/// The type of a name from an earlier entry.
pub open spec fn env_type_of(env_types: Seq<FieldView>, name: Seq<char>, i: int) -> Ty
    decreases env_types.len() - i,
{
    if i < 0 || i >= env_types.len() {
        Ty::Int
    } else if env_types[i].0 == name {
        env_types[i].1
    } else {
        env_type_of(env_types, name, i + 1)
    }
}

fn env_type(env_types: &Vec<(String, Type)>, name: &str) -> (r: Type)
    ensures
        r@ == env_type_of(field_views(env_types@), name@, 0),
{
    let ghost v = field_views(env_types@);
    let mut i: usize = 0;
    while i < env_types.len()
        invariant
            i <= env_types.len() == v.len(),
            v == field_views(env_types@),
            env_type_of(v, name@, i as int) == env_type_of(v, name@, 0),
        decreases env_types.len() - i,
    {
        assert(v[i as int] == (env_types@[i as int].0@, env_types@[i as int].1@));
        if same_text(env_types[i].0.as_str(), name) {
            return env_types[i].1.dup();
        }
        i = i + 1;
    }
    Type::Int
}

pub open spec fn first_leaf_of(ls: Seq<FieldView>) -> Ty {
    if ls.len() > 0 {
        ls[0].1
    } else {
        Ty::Int
    }
}

fn first_leaf(ls: &Vec<(String, Type)>) -> (r: Type)
    ensures
        r@ == first_leaf_of(field_views(ls@)),
{
    if ls.len() > 0 {
        assert(field_views(ls@)[0].1 == ls@[0].1@);
        ls[0].1.dup()
    } else {
        Type::Int
    }
}

/// How far the statements of an entry have got: the first word and the type
/// of the last value, how many words have been written, and the bindings.
pub struct MainState {
    pub last: usize,
    pub ty: Type,
    pub cursor: usize,
    pub bindings: Vec<(String, Type)>,
}

pub ghost struct MainView {
    pub last: usize,
    pub ty: Ty,
    pub cursor: usize,
    pub bindings: Seq<FieldView>,
}

impl View for MainState {
    type V = MainView;

    open spec fn view(&self) -> MainView {
        MainView { last: self.last, ty: self.ty@, cursor: self.cursor, bindings: field_views(self.bindings@) }
    }
}

impl MainView {
    /// One more binding.
    pub open spec fn bind(self, last: usize, ty: Ty, words: usize, name: Seq<char>) -> MainView {
        MainView { last, ty, cursor: beyond(self.cursor, words), bindings: self.bindings.push((name, ty)) }
    }

    /// One more value.
    pub open spec fn result(self, last: usize, ty: Ty) -> MainView {
        MainView { last, ty, ..self }
    }
}

impl MainState {
    fn start(first: usize) -> (r: MainState)
        ensures
            r@ == (MainView { last: first, ty: Ty::Int, cursor: 0, bindings: Seq::empty() }),
    {
        let bindings: Vec<(String, Type)> = Vec::new();
        assert(field_views(bindings@) =~= Seq::<FieldView>::empty());
        MainState { last: first, ty: Type::Int, cursor: 0, bindings }
    }

    fn bind(self, last: usize, ty: &Type, words: usize, name: &str) -> (r: MainState)
        ensures
            r@ == self@.bind(last, ty@, words, name@),
    {
        let ghost before = self.bindings@;
        let mut bindings = self.bindings;
        bindings.push((owned(name), ty.dup()));
        assert(field_views(bindings@) =~= field_views(before).push((name@, ty@)));
        MainState { last, ty: ty.dup(), cursor: past(self.cursor, words), bindings }
    }

    fn result(self, last: usize, ty: &Type) -> (r: MainState)
        ensures
            r@ == self@.result(last, ty@),
    {
        MainState { last, ty: ty.dup(), cursor: self.cursor, bindings: self.bindings }
    }
}

// ── Code ─────────────────────────────────────────────────────────────────

pub open spec fn bind_entry_upto(c: Code, name: Seq<char>, ls: Seq<FieldView>, start: usize, n: nat) -> Code
    decreases n,
{
    if n == 0 {
        c
    } else {
        let c = bind_entry_upto(c, name, ls, start, (n - 1) as nat);
        let i = (n - 1) as usize;
        let (val, c) = put_code(c, Op::EntryParam { index: beyond(start, i) });
        let key = dotted(name, ls[i as int].0);
        let c = declare_and_def_var_code(c, key, ls[i as int].1, val);
        c
    }
}

/// Gives a parameter the words that the function is entered with.
pub open spec fn bind_entry_code(c: Code, name: Seq<char>, ls: Seq<FieldView>, start: usize) -> Code {
    bind_entry_upto(c, name, ls, start, ls.len())
}

pub(crate) fn bind_entry(b: &mut Builder, name: &str, ls: &Vec<(String, Type)>, start: usize)
    ensures
        final(b)@ == bind_entry_code(old(b)@, name@, field_views(ls@), start),
{
    let total: usize = ls.len();
    let mut i: usize = 0;
    while i < total
        invariant
            i <= total,
            total == field_views(ls@).len(),
            b@ == bind_entry_upto(old(b)@, name@, field_views(ls@), start, i as nat),
        decreases total - i,
    {
        let val: usize = put(b, Op::EntryParam { index: past(start, i) });
        let key = var_key(name, ls[i].0.as_str());
        declare_and_def_var(b, key.as_str(), &ls[i].1, val);
        i = i + 1;
    }
}

pub open spec fn bind_params_upto(c: Code, cx: Env, params: Seq<(String, Type, bool)>, n: nat) -> (usize, Code)
    decreases n,
{
    if n == 0 {
        (0usize, c)
    } else {
        let (cursor, c) = bind_params_upto(c, cx, params, (n - 1) as nat);
        let i = (n - 1) as usize;
        let (ls, c) = leaves_code(c, cx, params[i as int].1@);
        let c = bind_entry_code(c, params[i as int].0@, ls, cursor);
        let cursor = beyond(cursor, ls.len() as usize);
        (cursor, c)
    }
}

/// Gives every parameter its words, one after the other.
pub open spec fn bind_params_code(c: Code, cx: Env, params: Seq<(String, Type, bool)>) -> (usize, Code) {
    bind_params_upto(c, cx, params, params.len())
}

pub(crate) fn bind_params(b: &mut Builder, cx: &Ctx, params: &Vec<(String, Type, bool)>) -> (r: usize)
    ensures
        (r, final(b)@) == bind_params_code(old(b)@, cx@, params@),
{
    let total: usize = params.len();
    let mut cursor: usize = 0;
    let mut i: usize = 0;
    while i < total
        invariant
            i <= total,
            total == params@.len(),
            (cursor, b@) == bind_params_upto(old(b)@, cx@, params@, i as nat),
        decreases total - i,
    {
        let ls = leaf_list(b, cx, &params[i].1);
        bind_entry(b, params[i].0.as_str(), &ls, cursor);
        cursor = past(cursor, ls.len());
        i = i + 1;
    }
    cursor
}

pub open spec fn mut_placeholders_upto(c: Code, cx: Env, n: nat) -> (Seq<usize>, Code)
    decreases n,
{
    if n == 0 {
        (Seq::<usize>::empty(), c)
    } else {
        let (out, c) = mut_placeholders_upto(c, cx, (n - 1) as nat);
        let i = (n - 1) as usize;
        let (ls, c) = leaves_code(c, cx, cx.mut_params[i as int].1);
        let (more, c) = placeholders_code(c, ls);
        let out = out + more;
        (out, c)
    }
}

/// A zero for every word of the `mut` parameters.
pub open spec fn mut_placeholders_code(c: Code, cx: Env) -> (Seq<usize>, Code) {
    mut_placeholders_upto(c, cx, cx.mut_params.len())
}

pub(crate) fn mut_placeholders(b: &mut Builder, cx: &Ctx) -> (r: Vec<usize>)
    ensures
        (r@, final(b)@) == mut_placeholders_code(old(b)@, cx@),
{
    let total: usize = cx.mut_params.len();
    let mut out = Vec::new();
    let mut i: usize = 0;
    while i < total
        invariant
            i <= total,
            total == cx@.mut_params.len(),
            (out@, b@) == mut_placeholders_upto(old(b)@, cx@, i as nat),
        decreases total - i,
    {
        let ls = leaf_list(b, cx, &cx.mut_params[i].1);
        let more = placeholders(b, &ls);
        extend(&mut out, &more);
        i = i + 1;
    }
    out
}

/// The block that a function is entered at.
pub open spec fn enter_code(c: Code) -> Code {
    let (entry, c) = put_code(c, Op::Block);
    let c = emit_code(c, Op::Switch { block: entry });
    let c = emit_code(c, Op::Seal { block: entry });
    c
}

pub(crate) fn enter(b: &mut Builder)
    ensures
        final(b)@ == enter_code(old(b)@),
{
    let entry: usize = put(b, Op::Block);
    emit(b, Op::Switch { block: entry });
    emit(b, Op::Seal { block: entry });
}

/// The code of a function. A body that never ends is followed by a return of zeros that nothing reaches.
pub open spec fn build_func_body_code(
    c: Code,
    cx: Env,
    params: Seq<(String, Type, bool)>,
    return_type: Ty,
    body: Spanned<TypedExpr>,
) -> Code {
    let c = enter_code(c);
    let (_, c) = bind_params_code(c, cx, params);
    let (results, c) = compile_expr_multi_code(c, cx, body);
    let c = if return_type is Nil {
        let (more, c) = mut_param_copyout_code(c, cx);
        let c = emit_args_code(c, more);
        c
    } else if body.item.ty@ is Never {
        let (ls, c) = leaves_code(c, cx, return_type);
        let (none, c) = placeholders_code(c, ls);
        let (more, c) = mut_placeholders_code(c, cx);
        let c = emit_args_code(c, none);
        let c = emit_args_code(c, more);
        c
    } else {
        let (more, c) = mut_param_copyout_code(c, cx);
        let c = emit_args_code(c, results);
        let c = emit_args_code(c, more);
        c
    };
    let c = emit_code(c, Op::Return);
    c
}

pub(crate) fn build_func_body(
    b: &mut Builder,
    cx: &Ctx,
    params: &Vec<(String, Type, bool)>,
    return_type: &Type,
    body: &Spanned<TypedExpr>,
)
    ensures
        final(b)@ == build_func_body_code(old(b)@, cx@, params@, return_type@, *body),
{
    enter(b);
    let _ = bind_params(b, cx, params);
    let results = compile_expr_multi(b, cx, body);
    if is_nil(return_type) {
        let more = mut_param_copyout(b, cx);
        emit_args(b, &more);
    } else if is_never(&body.item.ty) {
        let ls = leaf_list(b, cx, return_type);
        let none = placeholders(b, &ls);
        let more = mut_placeholders(b, cx);
        emit_args(b, &none);
        emit_args(b, &more);
    } else {
        let more = mut_param_copyout(b, cx);
        emit_args(b, &results);
        emit_args(b, &more);
    }
    emit(b, Op::Return);
}

pub open spec fn seed_leaves_upto(c: Code, name: Seq<char>, ls: Seq<FieldView>, bits: Seq<i64>, n: nat) -> Code
    decreases n,
{
    if n == 0 {
        c
    } else {
        let c = seed_leaves_upto(c, name, ls, bits, (n - 1) as nat);
        let i = (n - 1) as usize;
        let (val, c) = match ls[i as int].1 {
            Ty::Float => {
                put_code(c, Op::F64const { bits: bits[i as int] as u64 })
            },
            Ty::Bool => {
                iconst_code(c, ClType::I8, bits[i as int])
            },
            _ => {
                iconst_code(c, ClType::I64, bits[i as int])
            },
        };
        let key = dotted(name, ls[i as int].0);
        let c = declare_and_def_var_code(c, key, ls[i as int].1, val);
        c
    }
}

/// Gives a name from an earlier entry its words, as constants.
pub open spec fn seed_leaves_code(c: Code, name: Seq<char>, ls: Seq<FieldView>, bits: Seq<i64>) -> Code {
    seed_leaves_upto(c, name, ls, bits, min_nat(ls.len(), bits.len()))
}

pub(crate) fn seed_leaves(b: &mut Builder, name: &str, ls: &Vec<(String, Type)>, bits: &Vec<i64>)
    ensures
        final(b)@ == seed_leaves_code(old(b)@, name@, field_views(ls@), bits@),
{
    let total: usize = min_len(ls.len(), bits.len());
    let mut i: usize = 0;
    while i < total
        invariant
            i <= total,
            total == min_nat(field_views(ls@).len(), bits@.len()),
            b@ == seed_leaves_upto(old(b)@, name@, field_views(ls@), bits@, i as nat),
        decreases total - i,
    {
        let val = match &ls[i].1 {
            Type::Float => {
                put(b, Op::F64const { bits: bits[i] as u64 })
            },
            Type::Bool => {
                iconst(b, ClType::I8, bits[i])
            },
            _ => {
                iconst(b, ClType::I64, bits[i])
            },
        };
        let key = var_key(name, ls[i].0.as_str());
        declare_and_def_var(b, key.as_str(), &ls[i].1, val);
        i = i + 1;
    }
}

pub open spec fn seed_upto(c: Code, cx: Env, pre: Seq<(String, Vec<i64>)>, env_types: Seq<FieldView>, n: nat) -> Code
    decreases n,
{
    if n == 0 {
        c
    } else {
        let c = seed_upto(c, cx, pre, env_types, (n - 1) as nat);
        let i = (n - 1) as usize;
        let ty = env_type_of(env_types, pre[i as int].0@, 0);
        let (ls, c) = leaves_code(c, cx, ty);
        let c = seed_leaves_code(c, pre[i as int].0@, ls, pre[i as int].1@);
        c
    }
}

/// Gives every name from earlier entries its words.
pub open spec fn seed_code(c: Code, cx: Env, pre: Seq<(String, Vec<i64>)>, env_types: Seq<FieldView>) -> Code {
    seed_upto(c, cx, pre, env_types, pre.len())
}

pub(crate) fn seed(b: &mut Builder, cx: &Ctx, pre: &Vec<(String, Vec<i64>)>, env_types: &Vec<(String, Type)>)
    ensures
        final(b)@ == seed_code(old(b)@, cx@, pre@, field_views(env_types@)),
{
    let total: usize = pre.len();
    let mut i: usize = 0;
    while i < total
        invariant
            i <= total,
            total == pre@.len(),
            b@ == seed_upto(old(b)@, cx@, pre@, field_views(env_types@), i as nat),
        decreases total - i,
    {
        let ty = env_type(env_types, pre[i].0.as_str());
        let ls = leaf_list(b, cx, &ty);
        seed_leaves(b, pre[i].0.as_str(), &ls, &pre[i].1);
        i = i + 1;
    }
}

pub open spec fn store_outs_upto(
    c: Code,
    out_ptr: usize,
    vals: Seq<usize>,
    ls: Seq<FieldView>,
    start: usize,
    n: nat,
) -> Code
    decreases n,
{
    if n == 0 {
        c
    } else {
        let c = store_outs_upto(c, out_ptr, vals, ls, start, (n - 1) as nat);
        let i = (n - 1) as usize;
        let (word, c) = to_i64_repr_code(c, ls[i as int].1, vals[i as int]);
        let c = emit_code(c, Op::Store { val: word, base: out_ptr, at: Field::Out(beyond(start, i)) });
        c
    }
}

/// Writes the words of a binding to the caller's buffer.
pub open spec fn store_outs_code(
    c: Code,
    out_ptr: usize,
    vals: Seq<usize>,
    ls: Seq<FieldView>,
    start: usize,
) -> Code {
    store_outs_upto(c, out_ptr, vals, ls, start, min_nat(vals.len(), ls.len()))
}

pub(crate) fn store_outs(b: &mut Builder, out_ptr: usize, vals: &Vec<usize>, ls: &Vec<(String, Type)>, start: usize)
    ensures
        final(b)@ == store_outs_code(old(b)@, out_ptr, vals@, field_views(ls@), start),
{
    let total: usize = min_len(vals.len(), ls.len());
    let mut i: usize = 0;
    while i < total
        invariant
            i <= total,
            total == min_nat(vals@.len(), field_views(ls@).len()),
            b@ == store_outs_upto(old(b)@, out_ptr, vals@, field_views(ls@), start, i as nat),
        decreases total - i,
    {
        let word: usize = to_i64_repr(b, &ls[i].1, vals[i]);
        emit(b, Op::Store { val: word, base: out_ptr, at: Field::Out(past(start, i)) });
        i = i + 1;
    }
}

pub open spec fn bind_zeros_upto(c: Code, name: Seq<char>, ls: Seq<FieldView>, n: nat) -> Code
    decreases n,
{
    if n == 0 {
        c
    } else {
        let c = bind_zeros_upto(c, name, ls, (n - 1) as nat);
        let i = (n - 1) as usize;
        let key = dotted(name, ls[i as int].0);
        let (var, c) = get_or_declare_var_code(c, key, ls[i as int].1);
        let (zero, c) = placeholder_value_code(c, machine(ls[i as int].1));
        let c = emit_code(c, Op::DefVar { var, val: zero });
        c
    }
}

/// Gives a name zeros, where nothing that reads it can run.
pub open spec fn bind_zeros_code(c: Code, name: Seq<char>, ls: Seq<FieldView>) -> Code {
    bind_zeros_upto(c, name, ls, ls.len())
}

pub(crate) fn bind_zeros(b: &mut Builder, name: &str, ls: &Vec<(String, Type)>)
    ensures
        final(b)@ == bind_zeros_code(old(b)@, name@, field_views(ls@)),
{
    let total: usize = ls.len();
    let mut i: usize = 0;
    while i < total
        invariant
            i <= total,
            total == field_views(ls@).len(),
            b@ == bind_zeros_upto(old(b)@, name@, field_views(ls@), i as nat),
        decreases total - i,
    {
        let key = var_key(name, ls[i].0.as_str());
        let var: usize = get_or_declare_var(b, key.as_str(), &ls[i].1);
        let zero: usize = placeholder_value(b, cl_type(&ls[i].1));
        emit(b, Op::DefVar { var, val: zero });
        i = i + 1;
    }
}

/// A value has as many words as its type has leaves.
pub open spec fn same_count_code(c: Code, vals: Seq<usize>, ls: Seq<FieldView>) -> Code {
    if vals.len() != ls.len() {
        let c = fail_code(c, Fault::Arity);
        c
    } else {
        c
    }
}

pub(crate) fn same_count(b: &mut Builder, vals: &Vec<usize>, ls: &Vec<(String, Type)>)
    ensures
        final(b)@ == same_count_code(old(b)@, vals@, field_views(ls@)),
{
    if vals.len() != ls.len() {
        fail(b, Fault::Arity);
    }
}

pub open spec fn main_stmts_upto(
    c: Code,
    cx: Env,
    stmts: Seq<Spanned<TypedExpr>>,
    out_ptr: usize,
    first: usize,
    n: nat,
) -> (MainView, Code)
    decreases n,
{
    if n == 0 {
        (MainView { last: first, ty: Ty::Int, cursor: 0usize, bindings: Seq::<FieldView>::empty() }, c)
    } else {
        let (acc, c) = main_stmts_upto(c, cx, stmts, out_ptr, first, (n - 1) as nat);
        let i = (n - 1) as usize;
        let (acc, c) = match binding_of(stmts[i as int]) {
            Some((name, value)) => {
                if value.item.kind is Function {
                    (acc, c)
                } else {
                    let (vals, c) = compile_expr_multi_code(c, cx, stmts[i as int]);
                    let (ls, c) = leaves_code(c, cx, value.item.ty@);
                    if vals.len() == 0 {
                        let c = bind_zeros_code(c, name@, ls);
                        (acc, c)
                    } else {
                        let c = same_count_code(c, vals, ls);
                        let c = store_outs_code(c, out_ptr, vals, ls, acc.cursor);
                        (acc.bind(vals[0], value.item.ty@, ls.len() as usize, name@), c)
                    }
                }
            },
            None => {
                let (vals, c) = compile_expr_multi_code(c, cx, stmts[i as int]);
                if vals.len() == 0 {
                    (acc, c)
                } else {
                    (acc.result(vals[0], stmts[i as int].item.ty@), c)
                }
            },
        };
        (acc, c)
    }
}

/// Top-level statements. Each binding is written to the caller's buffer; the last value is remembered.
pub open spec fn main_stmts_code(
    c: Code,
    cx: Env,
    stmts: Seq<Spanned<TypedExpr>>,
    out_ptr: usize,
    first: usize,
) -> (MainView, Code) {
    main_stmts_upto(c, cx, stmts, out_ptr, first, stmts.len())
}

pub(crate) fn main_stmts(
    b: &mut Builder,
    cx: &Ctx,
    stmts: &Vec<Spanned<TypedExpr>>,
    out_ptr: usize,
    first: usize,
) -> (r: MainState)
    ensures
        (r@, final(b)@) == main_stmts_code(old(b)@, cx@, stmts@, out_ptr, first),
{
    let total: usize = stmts.len();
    let mut acc = MainState::start(first);
    let mut i: usize = 0;
    while i < total
        invariant
            i <= total,
            total == stmts@.len(),
            (acc@, b@) == main_stmts_upto(old(b)@, cx@, stmts@, out_ptr, first, i as nat),
        decreases total - i,
    {
        acc = match bound_value(&stmts[i]) {
            Some((name, value)) => {
                if is_function(value) {
                    acc
                } else {
                    let vals = compile_expr_multi(b, cx, &stmts[i]);
                    let ls = leaf_list(b, cx, &value.item.ty);
                    if vals.len() == 0 {
                        bind_zeros(b, name.as_str(), &ls);
                        acc
                    } else {
                        same_count(b, &vals, &ls);
                        store_outs(b, out_ptr, &vals, &ls, acc.cursor);
                        acc.bind(vals[0], &value.item.ty, ls.len(), name.as_str())
                    }
                }
            },
            None => {
                let vals = compile_expr_multi(b, cx, &stmts[i]);
                if vals.len() == 0 {
                    acc
                } else {
                    acc.result(vals[0], &stmts[i].item.ty)
                }
            },
        };
        i = i + 1;
    }
    acc
}

/// The code of a run of top-level statements. It returns the first word of the
/// last value, and its bindings are what it writes to the caller's buffer, in
/// order.
pub open spec fn build_main_body_code(
    c: Code,
    cx: Env,
    stmts: Seq<Spanned<TypedExpr>>,
    pre: Seq<(String, Vec<i64>)>,
    env_types: Seq<FieldView>,
) -> (Seq<FieldView>, Code) {
    let c = enter_code(c);
    let (out_ptr, c) = put_code(c, Op::EntryParam { index: 0 });
    let c = seed_code(c, cx, pre, env_types);
    let (zero, c) = iconst_code(c, ClType::I64, 0);
    let (done, c) = main_stmts_code(c, cx, stmts, out_ptr, zero);
    let (ls, c) = leaves_code(c, cx, done.ty);
    let leaf = first_leaf_of(ls);
    let (word, c) = to_i64_repr_code(c, leaf, done.last);
    let c = emit_code(c, Op::Arg { val: word });
    let c = emit_code(c, Op::Return);
    (done.bindings, c)
}

pub(crate) fn build_main_body(
    b: &mut Builder,
    cx: &Ctx,
    stmts: &Vec<Spanned<TypedExpr>>,
    pre: &Vec<(String, Vec<i64>)>,
    env_types: &Vec<(String, Type)>,
) -> (r: Vec<(String, Type)>)
    ensures
        (field_views(r@), final(b)@) == build_main_body_code(old(b)@, cx@, stmts@, pre@, field_views(env_types@)),
{
    enter(b);
    let out_ptr: usize = put(b, Op::EntryParam { index: 0 });
    seed(b, cx, pre, env_types);
    let zero: usize = iconst(b, ClType::I64, 0);
    let done = main_stmts(b, cx, stmts, out_ptr, zero);
    let ls = leaf_list(b, cx, &done.ty);
    let leaf = first_leaf(&ls);
    let word: usize = to_i64_repr(b, &leaf, done.last);
    emit(b, Op::Arg { val: word });
    emit(b, Op::Return);
    done.bindings
}

/// The words of an entry's bindings stand one after the other in the caller's
/// buffer, in the order in which the bindings are handed back: after `n`
/// statements as many words are taken as the bindings so far have leaves, and
/// the next binding is written from there on.
pub proof fn bindings_stand_back_to_back(
    c: Code,
    cx: Env,
    stmts: Seq<Spanned<TypedExpr>>,
    out_ptr: usize,
    first: usize,
    n: nat,
)
    requires
        n <= stmts.len(),
        n <= usize::MAX,
        forall|k: int|
            0 <= k < n ==> (binding_of(#[trigger] stmts[k]) matches Some((_, value)) ==> lays_out(
                value.item.ty@,
                cx.defs,
            )),
        binding_leaves(main_stmts_upto(c, cx, stmts, out_ptr, first, n).0.bindings, cx.defs).len() <= usize::MAX,
    ensures
        ({
            let done = main_stmts_upto(c, cx, stmts, out_ptr, first, n).0;
            done.cursor == binding_leaves(done.bindings, cx.defs).len()
        }),
    decreases n,
{
    if n > 0 {
        let before = main_stmts_upto(c, cx, stmts, out_ptr, first, (n - 1) as nat).0;
        let done = main_stmts_upto(c, cx, stmts, out_ptr, first, n).0;
        let i = (n - 1) as usize;
        assert(stmts[i as int] == stmts[n - 1]);
        if done.bindings != before.bindings {
            let value = (binding_of(stmts[i as int])->0).1;
            assert(lays_out(value.item.ty@, cx.defs));
            assert(done.bindings.drop_last() =~= before.bindings);
            assert(done.bindings.last().1 == value.item.ty@);
        } else {
            assert(done.cursor == before.cursor) by {
                if let Some((name, value)) = binding_of(stmts[i as int]) {
                    assert(before.bindings.push((name@, value.item.ty@)).len() == before.bindings.len() + 1);
                }
            }
        }
        bindings_stand_back_to_back(c, cx, stmts, out_ptr, first, (n - 1) as nat);
    }
}

// ── Signatures ───────────────────────────────────────────────────────────

/// The machine types of a type's words.
pub open spec fn words_of(ty: Ty, defs: Defs) -> Seq<ClType> {
    leaves_of(ty, defs).map_values(|l: FieldView| machine(l.1))
}

/// The machine types of the words that parameters are passed in.
pub open spec fn params_words(ps: Seq<(String, Type, bool)>, defs: Defs) -> Seq<ClType>
    decreases ps.len(),
{
    if ps.len() == 0 {
        Seq::empty()
    } else {
        params_words(ps.drop_last(), defs) + words_of(ps.last().1@, defs)
    }
}

/// The machine types of the words that `mut` parameters are handed back in.
pub open spec fn mut_words(ps: Seq<(String, Type, bool)>, defs: Defs) -> Seq<ClType>
    decreases ps.len(),
{
    if ps.len() == 0 {
        Seq::empty()
    } else if ps.last().2 {
        mut_words(ps.drop_last(), defs) + words_of(ps.last().1@, defs)
    } else {
        mut_words(ps.drop_last(), defs)
    }
}

/// The machine types of the words that a function returns: those of its
/// value, and then those of its `mut` parameters.
pub open spec fn return_words(ps: Seq<(String, Type, bool)>, ret: Ty, defs: Defs) -> Seq<ClType> {
    if ret is Nil {
        mut_words(ps, defs)
    } else {
        words_of(ret, defs) + mut_words(ps, defs)
    }
}

/// Whether every type in a signature has a finite layout.
pub open spec fn has_sig(ps: Seq<(String, Type, bool)>, ret: Ty, defs: Defs) -> bool {
    &&& forall|i: int| 0 <= i < ps.len() ==> lays_out((#[trigger] ps[i]).1@, defs)
    &&& ret is Nil || lays_out(ret, defs)
}

/// A signature: the machine types of parameters and of returned words.
pub struct Sig {
    pub params: Vec<ClType>,
    pub results: Vec<ClType>,
}

fn push_leaves(out: &mut Vec<ClType>, ty: &Type, structs: &StructDefs)
    requires
        lays_out(ty@, structs@),
    ensures
        final(out)@ == old(out)@ + words_of(ty@, structs@),
{
    let ls = struct_fields(ty, structs);
    let ghost v = field_views(ls@);
    let ghost ws = words_of(ty@, structs@);
    let ghost before = out@;
    assert(out@ =~= before + ws.take(0));
    let mut i: usize = 0;
    while i < ls.len()
        invariant
            i <= ls.len() == v.len(),
            v == field_views(ls@),
            v == leaves_of(ty@, structs@),
            ws == words_of(ty@, structs@),
            out@ == before + ws.take(i as int),
        decreases ls.len() - i,
    {
        assert(v[i as int].1 == ls@[i as int].1@);
        out.push(cl_type(&ls[i].1));
        assert(ws[i as int] == machine(v[i as int].1));
        assert(out@ =~= before + ws.take(i + 1));
        i = i + 1;
    }
    assert(ws.take(i as int) =~= ws);
}

/// The signature of a function: one word for each leaf of each parameter, and
/// one for each leaf of its value and of each `mut` parameter.
pub fn make_sig(params: &Vec<(String, Type, bool)>, return_type: &Type, structs: &StructDefs) -> (r: Option<Sig>)
    ensures
        r is Some <==> has_sig(params@, return_type@, structs@),
        r is Some ==> r->0.params@ == params_words(params@, structs@),
        r is Some ==> r->0.results@ == return_words(params@, return_type@, structs@),
{
    let mut ins: Vec<ClType> = Vec::new();
    let mut muts: Vec<ClType> = Vec::new();
    let mut outs: Vec<ClType> = Vec::new();
    let mut i: usize = 0;
    while i < params.len()
        invariant
            i <= params.len(),
            forall|k: int| 0 <= k < i ==> lays_out((#[trigger] params@[k]).1@, structs@),
            ins@ == params_words(params@.take(i as int), structs@),
            muts@ == mut_words(params@.take(i as int), structs@),
        decreases params.len() - i,
    {
        if flatten(&params[i].1, structs).is_none() {
            return None;
        }
        assert(params@.take(i + 1).drop_last() =~= params@.take(i as int));
        push_leaves(&mut ins, &params[i].1, structs);
        if params[i].2 {
            push_leaves(&mut muts, &params[i].1, structs);
        }
        i = i + 1;
    }
    assert(params@.take(i as int) =~= params@);
    if !is_nil(return_type) {
        if flatten(return_type, structs).is_none() {
            return None;
        }
        push_leaves(&mut outs, return_type, structs);
    }
    let ghost value = outs@;
    let mut k: usize = 0;
    assert(outs@ =~= value + muts@.take(0));
    while k < muts.len()
        invariant
            k <= muts.len(),
            outs@ == value + muts@.take(k as int),
        decreases muts.len() - k,
    {
        outs.push(muts[k]);
        assert(outs@ =~= value + muts@.take(k + 1));
        k = k + 1;
    }
    assert(muts@.take(k as int) =~= muts@);
    if is_nil(return_type) {
        assert(value + muts@ =~= muts@);
    } else {
        assert(value =~= words_of(return_type@, structs@));
    }
    Some(Sig { params: ins, results: outs })
}

// ── The table of functions ───────────────────────────────────────────────

/// A function that code can call: its symbol, its signature, and whether it
/// is defined elsewhere.
pub struct Decl {
    pub symbol: String,
    pub sig: Sig,
    pub import: bool,
}

pub ghost struct DeclView {
    pub symbol: Seq<char>,
    pub params: Seq<ClType>,
    pub results: Seq<ClType>,
    pub import: bool,
}

impl View for Decl {
    type V = DeclView;

    open spec fn view(&self) -> DeclView {
        DeclView { symbol: self.symbol@, params: self.sig.params@, results: self.sig.results@, import: self.import }
    }
}

/// Where a function was declared: its name, its place in the source, and the
/// number of the entry.
#[derive(Debug)]
pub struct FnSourceInfo {
    pub name: String,
    pub span: Span,
    pub entry_id: usize,
}

pub ghost struct SourceView {
    pub name: Seq<char>,
    pub span: Span,
    pub entry_id: usize,
}

impl View for FnSourceInfo {
    type V = SourceView;

    open spec fn view(&self) -> SourceView {
        SourceView { name: self.name@, span: self.span, entry_id: self.entry_id }
    }
}

/// The functions known so far. A function is identified by its position, and
/// a name stands for the function that was declared under it last.
pub struct Codegen {
    funcs: Vec<String>,
    decls: Vec<Decl>,
    host_fns: NameSet,
    source_map: Vec<FnSourceInfo>,
}

/// The functions known so far, as a value.
pub ghost struct Table {
    pub funcs: Seq<Seq<char>>,
    pub decls: Seq<DeclView>,
    pub hosts: Set<Seq<char>>,
    pub sources: Seq<SourceView>,
}

impl View for Codegen {
    type V = Table;

    closed spec fn view(&self) -> Table {
        Table {
            funcs: self.funcs@.map_values(|s: String| s@),
            decls: self.decls@.map_values(|d: Decl| d@),
            hosts: self.host_fns.set(),
            sources: self.source_map@.map_values(|s: FnSourceInfo| s@),
        }
    }
}

/// `t` with one more function.
pub open spec fn declared(
    t: Table,
    name: Seq<char>,
    symbol: Seq<char>,
    params: Seq<ClType>,
    results: Seq<ClType>,
    import: bool,
) -> Table {
    Table {
        funcs: t.funcs.push(name),
        decls: t.decls.push(DeclView { symbol, params, results, import }),
        ..t
    }
}

/// That many integer words.
pub open spec fn words(n: nat) -> Seq<ClType> {
    Seq::new(n, |i: int| ClType::I64)
}

fn int_words(n: usize) -> (r: Vec<ClType>)
    ensures
        r@ == words(n as nat),
{
    let mut out: Vec<ClType> = Vec::new();
    let mut i: usize = 0;
    while i < n
        invariant
            i <= n,
            out@ =~= words(i as nat),
        decreases n - i,
    {
        out.push(ClType::I64);
        i = i + 1;
    }
    out
}

fn one_word(ty: ClType) -> (r: Vec<ClType>)
    ensures
        r@ == seq![ty],
{
    let mut out: Vec<ClType> = Vec::new();
    out.push(ty);
    assert(out@ =~= seq![ty]);
    out
}

/// No functions.
pub open spec fn no_functions() -> Table {
    Table { funcs: Seq::empty(), decls: Seq::empty(), hosts: Set::empty(), sources: Seq::empty() }
}

/// The functions of the runtime, each under the name that code calls it by.
pub open spec fn runtime() -> Table {
    let t = no_functions();
    let t = declared(t, "frog_alloc_str"@, "frog_alloc_str"@, words(2), words(1), true);
    let t = declared(t, "frog_str_len"@, "frog_str_len"@, words(1), words(1), true);
    let t = declared(t, "frog_str_concat"@, "frog_str_concat"@, words(2), words(1), true);
    let t = declared(t, "frog_str_eq"@, "frog_str_eq"@, words(2), words(1), true);
    let t = declared(t, "frog_str_cmp"@, "frog_str_cmp"@, words(2), words(1), true);
    let t = declared(t, "frog_str_contains"@, "frog_str_contains"@, words(2), words(1), true);
    let t = declared(t, "frog_str_print"@, "frog_str_print"@, words(1), words(0), true);
    let t = declared(t, "frog_str_repr_print"@, "frog_str_repr_print"@, words(1), words(0), true);
    let t = declared(t, "frog_bytes_print"@, "frog_bytes_print"@, words(2), words(0), true);
    let t = declared(t, "print"@, "frog_str_println"@, words(1), words(0), true);
    let t = declared(t, "panic"@, "frog_panic"@, words(1), words(0), true);
    let t = declared(t, "panic!builtin"@, "frog_panic"@, words(1), words(0), true);
    let t = declared(t, "frog_div_error"@, "frog_div_error"@, words(1), words(0), true);
    let t = declared(t, "frog_int_println"@, "frog_int_println"@, words(1), words(0), true);
    let t = declared(t, "frog_float_println"@, "frog_float_println"@, seq![ClType::F64], words(0), true);
    let t = declared(t, "frog_bool_println"@, "frog_bool_println"@, seq![ClType::I8], words(0), true);
    let t = declared(t, "frog_int_print"@, "frog_int_print"@, words(1), words(0), true);
    let t = declared(t, "frog_float_print"@, "frog_float_print"@, seq![ClType::F64], words(0), true);
    let t = declared(t, "frog_bool_print"@, "frog_bool_print"@, seq![ClType::I8], words(0), true);
    let t = declared(t, "frog_alloc_list"@, "frog_alloc_list"@, words(3), words(1), true);
    let t = declared(t, "frog_list_len"@, "frog_list_len"@, words(1), words(1), true);
    let t = declared(t, "frog_list_get"@, "frog_list_get"@, words(3), words(1), true);
    let t = declared(t, "frog_list_set"@, "frog_list_set"@, words(4), words(0), true);
    let t = declared(t, "frog_list_push"@, "frog_list_push"@, words(2), words(1), true);
    let t = declared(t, "frog_list_slice"@, "frog_list_slice"@, words(3), words(1), true);
    let t = declared(t, "frog_range"@, "frog_range"@, words(2), words(1), true);
    let t = declared(t, "gc_dump"@, "frog_gc_dump"@, words(0), words(0), true);
    let t = declared(t, "frog_alloc_variant"@, "frog_alloc_variant"@, words(3), words(1), true);
    let t = declared(t, "frog_variant_tag"@, "frog_variant_tag"@, words(1), words(1), true);
    let t = declared(t, "frog_variant_get"@, "frog_variant_get"@, words(2), words(1), true);
    let t = declared(t, "frog_variant_set"@, "frog_variant_set"@, words(3), words(0), true);
    let t = declared(t, "frog_cow_verify"@, "frog_cow_verify"@, words(2), words(0), true);
    let t = declared(t, "frog_clone"@, "frog_clone"@, words(1), words(1), true);
    let t = declared(t, "frog_ctx_current"@, "frog_ctx_current"@, words(0), words(1), true);
    t
}

/// `t` with the first `n` host functions, which all take a context, their
/// arguments and room for their result. A name that is taken already is the
/// error.
pub open spec fn with_hosts(t: Table, hosts: Seq<HostFn>, n: int) -> Result<Table, Seq<char>>
    decreases n,
{
    if n <= 0 || n > hosts.len() {
        Ok(t)
    } else {
        match with_hosts(t, hosts, n - 1) {
            Ok(t) => if t.funcs.contains(hosts[n - 1].name@) {
                Err(hosts[n - 1].name@)
            } else {
                let t = declared(t, hosts[n - 1].name@, hosts[n - 1].symbol@, words(3), words(0), true);
                Ok(Table { hosts: t.hosts.insert(hosts[n - 1].name@), ..t })
            },
            Err(name) => Err(name),
        }
    }
}

pub open spec fn collision_message(name: Seq<char>) -> Seq<char> {
    "host function '"@ + name + "' collides with a runtime primitive of the same name"@
}

proof fn found_is_contained(names: Seq<Seq<char>>, name: Seq<char>)
    ensures
        find_name(names, name) is Some <==> names.contains(name),
    decreases names.len(),
{
    if names.len() > 0 {
        found_is_contained(names.drop_last(), name);
        let l = names.drop_last();
        assert(names =~= l.push(names.last()));
        if l.contains(name) {
            let i = choose|i: int| 0 <= i < l.len() && l[i] == name;
            assert(names[i] == name);
        }
        if names.last() == name {
            assert(names[names.len() - 1] == name);
        }
        if names.contains(name) && names.last() != name {
            let i = choose|i: int| 0 <= i < names.len() && names[i] == name;
            assert(l[i] == name);
        }
    }
}

proof fn failed_host_stays(t: Table, hosts: Seq<HostFn>, k: int, n: int)
    requires
        k <= n <= hosts.len(),
        with_hosts(t, hosts, k) is Err,
    ensures
        with_hosts(t, hosts, n) == with_hosts(t, hosts, k),
    decreases n - k,
{
    if k < n {
        failed_host_stays(t, hosts, k, n - 1);
    }
}

impl Codegen {
    fn none() -> (r: Codegen)
        ensures
            r@ == no_functions(),
    {
        let r = Codegen { funcs: Vec::new(), decls: Vec::new(), host_fns: NameSet::empty(), source_map: Vec::new() };
        assert(r@.funcs =~= Seq::<Seq<char>>::empty());
        assert(r@.decls =~= Seq::<DeclView>::empty());
        assert(r@.sources =~= Seq::<SourceView>::empty());
        r
    }

    fn declare(&mut self, name: &str, symbol: &str, params: Vec<ClType>, results: Vec<ClType>, import: bool)
        ensures
            final(self)@ == declared(old(self)@, name@, symbol@, params@, results@, import),
    {
        let ghost before = self@;
        self.funcs.push(owned(name));
        self.decls.push(Decl { symbol: owned(symbol), sig: Sig { params, results }, import });
        assert(self@.funcs =~= before.funcs.push(name@));
        assert(self@.decls =~= before.decls.push(DeclView { symbol: symbol@, params: params@, results: results@, import }));
    }

    fn runtime() -> (r: Codegen)
        ensures
            r@ == runtime(),
    {
        let mut out = Codegen::none();
        out.declare("frog_alloc_str", "frog_alloc_str", int_words(2), int_words(1), true);
        out.declare("frog_str_len", "frog_str_len", int_words(1), int_words(1), true);
        out.declare("frog_str_concat", "frog_str_concat", int_words(2), int_words(1), true);
        out.declare("frog_str_eq", "frog_str_eq", int_words(2), int_words(1), true);
        out.declare("frog_str_cmp", "frog_str_cmp", int_words(2), int_words(1), true);
        out.declare("frog_str_contains", "frog_str_contains", int_words(2), int_words(1), true);
        out.declare("frog_str_print", "frog_str_print", int_words(1), int_words(0), true);
        out.declare("frog_str_repr_print", "frog_str_repr_print", int_words(1), int_words(0), true);
        out.declare("frog_bytes_print", "frog_bytes_print", int_words(2), int_words(0), true);
        out.declare("print", "frog_str_println", int_words(1), int_words(0), true);
        out.declare("panic", "frog_panic", int_words(1), int_words(0), true);
        out.declare("panic!builtin", "frog_panic", int_words(1), int_words(0), true);
        out.declare("frog_div_error", "frog_div_error", int_words(1), int_words(0), true);
        out.declare("frog_int_println", "frog_int_println", int_words(1), int_words(0), true);
        out.declare("frog_float_println", "frog_float_println", one_word(ClType::F64), int_words(0), true);
        out.declare("frog_bool_println", "frog_bool_println", one_word(ClType::I8), int_words(0), true);
        out.declare("frog_int_print", "frog_int_print", int_words(1), int_words(0), true);
        out.declare("frog_float_print", "frog_float_print", one_word(ClType::F64), int_words(0), true);
        out.declare("frog_bool_print", "frog_bool_print", one_word(ClType::I8), int_words(0), true);
        out.declare("frog_alloc_list", "frog_alloc_list", int_words(3), int_words(1), true);
        out.declare("frog_list_len", "frog_list_len", int_words(1), int_words(1), true);
        out.declare("frog_list_get", "frog_list_get", int_words(3), int_words(1), true);
        out.declare("frog_list_set", "frog_list_set", int_words(4), int_words(0), true);
        out.declare("frog_list_push", "frog_list_push", int_words(2), int_words(1), true);
        out.declare("frog_list_slice", "frog_list_slice", int_words(3), int_words(1), true);
        out.declare("frog_range", "frog_range", int_words(2), int_words(1), true);
        out.declare("gc_dump", "frog_gc_dump", int_words(0), int_words(0), true);
        out.declare("frog_alloc_variant", "frog_alloc_variant", int_words(3), int_words(1), true);
        out.declare("frog_variant_tag", "frog_variant_tag", int_words(1), int_words(1), true);
        out.declare("frog_variant_get", "frog_variant_get", int_words(2), int_words(1), true);
        out.declare("frog_variant_set", "frog_variant_set", int_words(3), int_words(0), true);
        out.declare("frog_cow_verify", "frog_cow_verify", int_words(2), int_words(0), true);
        out.declare("frog_clone", "frog_clone", int_words(1), int_words(1), true);
        out.declare("frog_ctx_current", "frog_ctx_current", int_words(0), int_words(1), true);
        out
    }

    /// The functions of the runtime.
    pub fn new() -> (r: Codegen)
        ensures
            r@ == runtime(),
    {
        Codegen::runtime()
    }

    /// The functions of the runtime and those of the host. A host function
    /// must not have the name of a function that is there already: code that
    /// calls that one would otherwise call the host function with the wrong
    /// arguments.
    pub fn new_with_hosts(hosts: &Vec<HostFn>) -> (r: Result<Codegen, String>)
        ensures
            match with_hosts(runtime(), hosts@, hosts@.len() as int) {
                Ok(t) => r is Ok && r->Ok_0@ == t,
                Err(name) => r is Err && r->Err_0@ == collision_message(name),
            },
    {
        let mut out = Codegen::runtime();
        let mut i: usize = 0;
        while i < hosts.len()
            invariant
                i <= hosts.len(),
                with_hosts(runtime(), hosts@, i as int) == Ok::<Table, Seq<char>>(out@),
            decreases hosts.len() - i,
        {
            proof {
                found_is_contained(out@.funcs, hosts@[i as int].name@);
            }
            if lookup_name(&out.funcs, hosts[i].name.as_str()).is_some() {
                proof {
                    failed_host_stays(runtime(), hosts@, i + 1, hosts@.len() as int);
                }
                let head = joined("host function '", hosts[i].name.as_str());
                return Err(joined(head.as_str(), "' collides with a runtime primitive of the same name"));
            }
            out.declare(hosts[i].name.as_str(), hosts[i].symbol.as_str(), int_words(3), int_words(0), true);
            let ghost before = out@;
            let more = out.host_fns.with(hosts[i].name.as_str());
            out.host_fns = more;
            assert(out@ =~= (Table { hosts: before.hosts.insert(hosts@[i as int].name@), ..before }));
            i = i + 1;
        }
        Ok(out)
    }

    /// How many functions there are. With this number, `restore_func_ids`
    /// forgets those that an entry which failed has declared.
    pub fn checkpoint_func_ids(&self) -> (r: usize)
        ensures
            r == self@.funcs.len(),
    {
        self.funcs.len()
    }

    /// Keeps the first `len` functions.
    pub fn restore_func_ids(&mut self, len: usize)
        ensures
            final(self)@ == kept_functions(old(self)@, len as int),
    {
        let ghost before = self@;
        if len < self.funcs.len() {
            self.funcs.truncate(len);
        }
        if len < self.decls.len() {
            self.decls.truncate(len);
        }
        assert(self@.funcs =~= kept_functions(before, len as int).funcs);
        assert(self@.decls =~= kept_functions(before, len as int).decls);
    }

    /// How many functions the source map lists.
    pub fn checkpoint_source_map(&self) -> (r: usize)
        ensures
            r == self@.sources.len(),
    {
        self.source_map.len()
    }

    /// Keeps the first `len` entries of the source map.
    pub fn restore_source_map(&mut self, len: usize)
        ensures
            final(self)@ == kept_sources(old(self)@, len as int),
    {
        let ghost before = self@;
        if len < self.source_map.len() {
            self.source_map.truncate(len);
        }
        assert(self@.sources =~= kept_sources(before, len as int).sources);
    }

    /// Every function declared so far, in the order of declaration.
    pub fn source_map(&self) -> (r: &Vec<FnSourceInfo>)
        ensures
            r@.map_values(|s: FnSourceInfo| s@) == self@.sources,
    {
        &self.source_map
    }

    /// Every function that code can call, each at the position that calls
    /// name it by.
    pub fn declarations(&self) -> (r: &Vec<Decl>)
        ensures
            r@.map_values(|d: Decl| d@) == self@.decls,
    {
        &self.decls
    }
}

/// `t` with its first `len` functions only.
pub open spec fn kept_functions(t: Table, len: int) -> Table {
    Table {
        funcs: if len < t.funcs.len() { t.funcs.take(len) } else { t.funcs },
        decls: if len < t.decls.len() { t.decls.take(len) } else { t.decls },
        ..t
    }
}

/// `t` with the first `len` entries of its source map only.
pub open spec fn kept_sources(t: Table, len: int) -> Table {
    Table { sources: if len < t.sources.len() { t.sources.take(len) } else { t.sources }, ..t }
}

// ── Entries ──────────────────────────────────────────────────────────────

/// The top-level statements of an entry.
pub open spec fn entry_stmts(typed: Spanned<TypedExpr>) -> Seq<Spanned<TypedExpr>> {
    match typed.item.kind {
        TypedExprKind::Block(stmts) => stmts@,
        _ => seq![typed],
    }
}

fn statements(typed: Spanned<TypedExpr>) -> (r: Vec<Spanned<TypedExpr>>)
    ensures
        r@ == entry_stmts(typed),
{
    let span = typed.span;
    let id: u32 = typed.item.id;
    let ty = typed.item.ty;
    match typed.item.kind {
        TypedExprKind::Block(stmts) => stmts,
        other => {
            let mut out: Vec<Spanned<TypedExpr>> = Vec::new();
            out.push(Spanned { span, item: TypedExpr { id, ty, kind: other } });
            assert(out@ =~= seq![typed]);
            out
        },
    }
}

/// The name, parameters, result type and body of a statement that binds a
/// function.
pub open spec fn function_of(s: Spanned<TypedExpr>) -> Option<
    (Seq<char>, Seq<(String, Type, bool)>, Ty, Spanned<TypedExpr>),
> {
    match s.item.kind {
        TypedExprKind::Assign { name, value } => match value.item.kind {
            TypedExprKind::Function { params, return_type, body } => Some((name@, params@, return_type@, *body)),
            _ => None,
        },
        _ => None,
    }
}

fn function_parts(s: &Spanned<TypedExpr>) -> (r: Option<
    (&String, &Vec<(String, Type, bool)>, &Type, &Spanned<TypedExpr>),
>)
    ensures
        r is Some <==> function_of(*s) is Some,
        r is Some ==> ((r->0).0@, (r->0).1@, (r->0).2@, *(r->0).3) == function_of(*s)->0,
{
    match &s.item.kind {
        TypedExprKind::Assign { name, value } => match &value.item.kind {
            TypedExprKind::Function { params, return_type, body } => Some((name, params, return_type, &**body)),
            _ => None,
        },
        _ => None,
    }
}

/// The symbol of a function: its name and the number of its entry, so that
/// one that is declared anew does not collide with the old one.
pub open spec fn symbol_of(name: Seq<char>, entry_id: usize) -> Seq<char> {
    name + "__frogfn"@ + decimal(entry_id as nat)
}

/// `t` with the functions that the first `n` statements declare, and whether
/// all of them have a signature. The first that has none ends it.
pub open spec fn declare_all(t: Table, stmts: Seq<Spanned<TypedExpr>>, entry_id: usize, defs: Defs, n: int) -> (
    Table,
    bool,
)
    decreases n,
{
    if n <= 0 || n > stmts.len() {
        (t, true)
    } else {
        let (t, ok) = declare_all(t, stmts, entry_id, defs, n - 1);
        if !ok {
            (t, false)
        } else {
            match function_of(stmts[n - 1]) {
                Some((name, params, ret, body)) => if has_sig(params, ret, defs) {
                    let t = declared(
                        t,
                        name,
                        symbol_of(name, entry_id),
                        params_words(params, defs),
                        return_words(params, ret, defs),
                        false,
                    );
                    (
                        Table {
                            sources: t.sources.push(SourceView { name, span: stmts[n - 1].span, entry_id }),
                            ..t
                        },
                        true,
                    )
                } else {
                    (t, false)
                },
                None => (t, true),
            }
        }
    }
}

/// What the program round an entry is.
pub ghost struct World {
    pub table: Table,
    pub defs: Defs,
    pub unions: Seq<UnionView>,
    pub verify: bool,
}

/// The `mut` parameters with their types.
pub open spec fn muts_of(ps: Seq<(String, Type, bool)>) -> Seq<FieldView>
    decreases ps.len(),
{
    if ps.len() == 0 {
        Seq::empty()
    } else if ps.last().2 {
        muts_of(ps.drop_last()).push((ps.last().0@, ps.last().1@))
    } else {
        muts_of(ps.drop_last())
    }
}

fn mut_fields(ps: &Vec<(String, Type, bool)>) -> (r: Vec<(String, Type)>)
    ensures
        field_views(r@) == muts_of(ps@),
{
    let mut out: Vec<(String, Type)> = Vec::new();
    let mut i: usize = 0;
    assert(field_views(out@) =~= muts_of(ps@.take(0)));
    while i < ps.len()
        invariant
            i <= ps.len(),
            field_views(out@) == muts_of(ps@.take(i as int)),
        decreases ps.len() - i,
    {
        assert(ps@.take(i + 1).drop_last() =~= ps@.take(i as int));
        let ghost before = out@;
        if ps[i].2 {
            out.push((ps[i].0.clone(), ps[i].1.dup()));
            assert(field_views(out@) =~= field_views(before).push((ps@[i as int].0@, ps@[i as int].1@)));
        }
        i = i + 1;
    }
    assert(ps@.take(i as int) =~= ps@);
    out
}

/// The code of a function of an entry.
#[verifier::opaque]
pub open spec fn function_code(
    w: World,
    params: Seq<(String, Type, bool)>,
    ret: Ty,
    body: Spanned<TypedExpr>,
) -> Code {
    let exit = mut_params(params);
    build_func_body_code(
        no_code(),
        Env {
            defs: w.defs,
            unions: w.unions,
            funcs: w.table.funcs,
            mut_params: muts_of(params),
            marks: marks(body, exit, exit, no_marks()),
            hosts: w.table.hosts,
            verify: w.verify,
        },
        params,
        ret,
        body,
    )
}

/// The bindings and the code of an entry itself.
#[verifier::opaque]
pub open spec fn main_code(
    w: World,
    stmts: Seq<Spanned<TypedExpr>>,
    pre_env: Seq<(String, Vec<i64>)>,
    env_types: Seq<FieldView>,
) -> (Seq<FieldView>, Code) {
    let exit = names_of(env_types).union(bound_names(stmts));
    build_main_body_code(
        no_code(),
        Env {
            defs: w.defs,
            unions: w.unions,
            funcs: w.table.funcs,
            mut_params: Seq::empty(),
            marks: marks_block(stmts, exit, exit, no_marks()),
            hosts: w.table.hosts,
            verify: w.verify,
        },
        stmts,
        pre_env,
        env_types,
    )
}

/// The names of fields.
pub open spec fn names_of(fs: Seq<FieldView>) -> Set<Seq<char>>
    decreases fs.len(),
{
    if fs.len() == 0 {
        Set::empty()
    } else {
        names_of(fs.drop_last()).insert(fs.last().0)
    }
}

fn field_names(fs: &Vec<(String, Type)>) -> (r: NameSet)
    ensures
        r.set() == names_of(field_views(fs@)),
{
    let ghost v = field_views(fs@);
    let mut out = NameSet::empty();
    let mut i: usize = 0;
    while i < fs.len()
        invariant
            i <= fs.len() == v.len(),
            v == field_views(fs@),
            out.set() == names_of(v.take(i as int)),
        decreases fs.len() - i,
    {
        assert(v.take(i + 1).drop_last() =~= v.take(i as int));
        assert(v.take(i + 1).last().0 == fs@[i as int].0@);
        out = out.with(fs[i].0.as_str());
        i = i + 1;
    }
    assert(v.take(i as int) =~= v);
    out
}

/// A function together with its code.
pub struct Lowered {
    pub name: String,
    /// Its position in the table of functions.
    pub func: usize,
    pub body: Builder,
}

pub ghost struct LoweredView {
    pub name: Seq<char>,
    pub func: usize,
    pub code: Code,
}

impl View for Lowered {
    type V = LoweredView;

    open spec fn view(&self) -> LoweredView {
        LoweredView { name: self.name@, func: self.func, code: self.body@ }
    }
}

/// The code of the functions of the first `n` statements, or the first fault.
pub open spec fn lower_all(w: World, stmts: Seq<Spanned<TypedExpr>>, n: int) -> Result<Seq<LoweredView>, Fault>
    decreases n,
{
    if n <= 0 || n > stmts.len() {
        Ok(Seq::empty())
    } else {
        match lower_all(w, stmts, n - 1) {
            Ok(done) => match function_of(stmts[n - 1]) {
                Some((name, params, ret, body)) => {
                    let code = function_code(w, params, ret, body);
                    match find_name(w.table.funcs, name) {
                        Some(func) => match code.fault {
                            Some(fault) => Err(fault),
                            None => Ok(done.push(LoweredView { name, func, code })),
                        },
                        None => Err(Fault::UnknownFunction),
                    }
                },
                None => Ok(done),
            },
            Err(fault) => Err(fault),
        }
    }
}

/// A compiled entry: its functions, its own code, which is called with the
/// address of a buffer, and the bindings that it writes to that buffer.
pub struct Entry {
    pub functions: Vec<Lowered>,
    pub symbol: String,
    pub main: Builder,
    pub bindings: Vec<(String, Type)>,
}

pub ghost struct EntryView {
    pub functions: Seq<LoweredView>,
    pub symbol: Seq<char>,
    pub main: Code,
    pub bindings: Seq<FieldView>,
}

impl View for Entry {
    type V = EntryView;

    open spec fn view(&self) -> EntryView {
        EntryView {
            functions: self.functions@.map_values(|f: Lowered| f@),
            symbol: self.symbol@,
            main: self.main@,
            bindings: field_views(self.bindings@),
        }
    }
}

/// What an entry comes to once its functions have been declared.
pub open spec fn entry_of(
    w: World,
    stmts: Seq<Spanned<TypedExpr>>,
    entry_id: usize,
    pre_env: Seq<(String, Vec<i64>)>,
    env_types: Seq<FieldView>,
) -> Result<EntryView, Fault> {
    match lower_all(w, stmts, stmts.len() as int) {
        Ok(functions) => {
            let (bindings, main) = main_code(w, stmts, pre_env, env_types);
            match main.fault {
                Some(fault) => Err(fault),
                None => Ok(EntryView { functions, symbol: "__frog_main_"@ + decimal(entry_id as nat), main, bindings }),
            }
        },
        Err(fault) => Err(fault),
    }
}

/// What an entry comes to, and the table after it.
pub open spec fn compiled(
    w: World,
    stmts: Seq<Spanned<TypedExpr>>,
    entry_id: usize,
    pre_env: Seq<(String, Vec<i64>)>,
    env_types: Seq<FieldView>,
) -> (Result<EntryView, Fault>, Table) {
    let (table, ok) = declare_all(w.table, stmts, entry_id, w.defs, stmts.len() as int);
    if ok {
        (entry_of(World { table, ..w }, stmts, entry_id, pre_env, env_types), table)
    } else {
        (Err(Fault::NoLayout), table)
    }
}

proof fn undeclared_stays(t: Table, stmts: Seq<Spanned<TypedExpr>>, entry_id: usize, defs: Defs, k: int, n: int)
    requires
        k <= n <= stmts.len(),
        !declare_all(t, stmts, entry_id, defs, k).1,
    ensures
        declare_all(t, stmts, entry_id, defs, n) == declare_all(t, stmts, entry_id, defs, k),
    decreases n - k,
{
    if k < n {
        undeclared_stays(t, stmts, entry_id, defs, k, n - 1);
    }
}

proof fn fault_stays(w: World, stmts: Seq<Spanned<TypedExpr>>, k: int, n: int)
    requires
        k <= n <= stmts.len(),
        lower_all(w, stmts, k) is Err,
    ensures
        lower_all(w, stmts, n) == lower_all(w, stmts, k),
    decreases n - k,
{
    if k < n {
        fault_stays(w, stmts, k, n - 1);
    }
}

/// Declaring functions adds to the table and changes nothing in it.
pub proof fn declaring_only_adds(t: Table, stmts: Seq<Spanned<TypedExpr>>, entry_id: usize, defs: Defs, n: int)
    ensures
        t.funcs.is_prefix_of(declare_all(t, stmts, entry_id, defs, n).0.funcs),
        t.decls.is_prefix_of(declare_all(t, stmts, entry_id, defs, n).0.decls),
        t.sources.is_prefix_of(declare_all(t, stmts, entry_id, defs, n).0.sources),
        declare_all(t, stmts, entry_id, defs, n).0.hosts == t.hosts,
        t.funcs.len() == t.decls.len() ==> declare_all(t, stmts, entry_id, defs, n).0.funcs.len() == declare_all(
            t,
            stmts,
            entry_id,
            defs,
            n,
        ).0.decls.len(),
    decreases n,
{
    if 0 < n <= stmts.len() {
        declaring_only_adds(t, stmts, entry_id, defs, n - 1);
        let before = declare_all(t, stmts, entry_id, defs, n - 1).0;
        let after = declare_all(t, stmts, entry_id, defs, n).0;
        if before != after {
            assert(after.funcs.drop_last() =~= before.funcs);
            assert(after.decls.drop_last() =~= before.decls);
            assert(after.sources.drop_last() =~= before.sources);
            assert(t.funcs =~= after.funcs.subrange(0, t.funcs.len() as int)) by {
                assert(before.funcs.subrange(0, t.funcs.len() as int) =~= after.funcs.subrange(0, t.funcs.len() as int));
            }
            assert(t.decls =~= after.decls.subrange(0, t.decls.len() as int)) by {
                assert(before.decls.subrange(0, t.decls.len() as int) =~= after.decls.subrange(0, t.decls.len() as int));
            }
            assert(t.sources =~= after.sources.subrange(0, t.sources.len() as int)) by {
                assert(before.sources.subrange(0, t.sources.len() as int) =~= after.sources.subrange(
                    0,
                    t.sources.len() as int,
                ));
            }
        }
    } else {
        assert(t.funcs =~= t.funcs.subrange(0, t.funcs.len() as int));
        assert(t.decls =~= t.decls.subrange(0, t.decls.len() as int));
        assert(t.sources =~= t.sources.subrange(0, t.sources.len() as int));
    }
}

/// Going back to the numbers taken before an entry forgets all that it
/// declared, whether it compiled or failed.
pub proof fn restoring_undoes_an_entry(
    w: World,
    stmts: Seq<Spanned<TypedExpr>>,
    entry_id: usize,
    pre_env: Seq<(String, Vec<i64>)>,
    env_types: Seq<FieldView>,
)
    requires
        w.table.funcs.len() == w.table.decls.len(),
    ensures
        kept_sources(
            kept_functions(compiled(w, stmts, entry_id, pre_env, env_types).1, w.table.funcs.len() as int),
            w.table.sources.len() as int,
        ) == w.table,
{
    let t = w.table;
    declaring_only_adds(t, stmts, entry_id, w.defs, stmts.len() as int);
    let after = compiled(w, stmts, entry_id, pre_env, env_types).1;
    let back = kept_sources(kept_functions(after, t.funcs.len() as int), t.sources.len() as int);
    assert(back.funcs =~= t.funcs) by {
        assert(t.funcs =~= after.funcs.subrange(0, t.funcs.len() as int));
    }
    assert(back.decls =~= t.decls) by {
        assert(t.decls =~= after.decls.subrange(0, t.decls.len() as int));
    }
    assert(back.sources =~= t.sources) by {
        assert(t.sources =~= after.sources.subrange(0, t.sources.len() as int));
    }
}

/// A call resolves to the newest function of a name: once an entry that
/// declares it has been compiled, the name stands for that declaration.
pub proof fn newest_declaration_wins(
    t: Table,
    name: Seq<char>,
    symbol: Seq<char>,
    params: Seq<ClType>,
    results: Seq<ClType>,
)
    ensures
        find_name(declared(t, name, symbol, params, results, false).funcs, name) == Some(t.funcs.len() as usize),
        forall|other: Seq<char>|
            other != name ==> #[trigger] find_name(declared(t, name, symbol, params, results, false).funcs, other)
                == find_name(t.funcs, other),
{
    assert(t.funcs.push(name).drop_last() =~= t.funcs);
}

impl Codegen {
    fn declare_entry(&mut self, stmts: &Vec<Spanned<TypedExpr>>, entry_id: usize, structs: &StructDefs) -> (ok: bool)
        ensures
            (final(self)@, ok) == declare_all(old(self)@, stmts@, entry_id, structs@, stmts@.len() as int),
    {
        let ghost start = self@;
        let mut i: usize = 0;
        while i < stmts.len()
            invariant
                i <= stmts.len(),
                start == old(self)@,
                declare_all(start, stmts@, entry_id, structs@, i as int) == (self@, true),
            decreases stmts.len() - i,
        {
            match function_parts(&stmts[i]) {
                Some((name, params, ret, _body)) => match make_sig(params, ret, structs) {
                    Some(sig) => {
                        let head = joined(name.as_str(), "__frogfn");
                        let number = decimal_of(entry_id);
                        let symbol = joined(head.as_str(), number.as_str());
                        self.declare(name.as_str(), symbol.as_str(), sig.params, sig.results, false);
                        let ghost before = self@;
                        let info = FnSourceInfo { name: name.clone(), span: stmts[i].span, entry_id };
                        self.source_map.push(info);
                        assert(self@.sources =~= before.sources.push(info@));
                    },
                    None => {
                        proof {
                            undeclared_stays(start, stmts@, entry_id, structs@, i + 1, stmts@.len() as int);
                        }
                        return false;
                    },
                },
                None => {},
            }
            i = i + 1;
        }
        true
    }

    fn lower_function(
        &self,
        params: &Vec<(String, Type, bool)>,
        ret: &Type,
        body: &Spanned<TypedExpr>,
        structs: &StructDefs,
        unions: &UnionDefs,
        cow_verify: bool,
    ) -> (r: Builder)
        ensures
            r@ == function_code(
                World { table: self@, defs: structs@, unions: unions@, verify: cow_verify },
                params@,
                ret@,
                *body,
            ),
    {
        let exit_live = mut_param_names(params);
        let liveness = analyze_body(body, &exit_live);
        let muts = mut_fields(params);
        let cx = Ctx {
            structs,
            unions,
            funcs: &self.funcs,
            mut_params: &muts,
            liveness: &liveness,
            host_fns: &self.host_fns,
            cow_verify,
        };
        let mut b = Builder::new();
        build_func_body(&mut b, &cx, params, ret, body);
        proof {
            reveal(function_code);
        }
        b
    }

    fn lower_functions(
        &self,
        stmts: &Vec<Spanned<TypedExpr>>,
        structs: &StructDefs,
        unions: &UnionDefs,
        cow_verify: bool,
    ) -> (r: Result<Vec<Lowered>, Fault>)
        ensures
            match lower_all(
                World { table: self@, defs: structs@, unions: unions@, verify: cow_verify },
                stmts@,
                stmts@.len() as int,
            ) {
                Ok(fs) => r is Ok && r->Ok_0@.map_values(|f: Lowered| f@) == fs,
                Err(fault) => r is Err && r->Err_0 == fault,
            },
    {
        let ghost w = World { table: self@, defs: structs@, unions: unions@, verify: cow_verify };
        let mut functions: Vec<Lowered> = Vec::new();
        let mut i: usize = 0;
        assert(functions@.map_values(|f: Lowered| f@) =~= Seq::<LoweredView>::empty());
        while i < stmts.len()
            invariant
                i <= stmts.len(),
                w == (World { table: self@, defs: structs@, unions: unions@, verify: cow_verify }),
                lower_all(w, stmts@, i as int) == Ok::<Seq<LoweredView>, Fault>(
                    functions@.map_values(|f: Lowered| f@),
                ),
            decreases stmts.len() - i,
        {
            match function_parts(&stmts[i]) {
                Some((name, params, ret, body)) => {
                    let code = self.lower_function(params, ret, body, structs, unions, cow_verify);
                    match lookup_name(&self.funcs, name.as_str()) {
                        Some(func) => match code.fault {
                            Some(fault) => {
                                proof {
                                    fault_stays(w, stmts@, i + 1, stmts@.len() as int);
                                }
                                return Err(fault);
                            },
                            None => {
                                let ghost before = functions@;
                                let done = Lowered { name: name.clone(), func, body: code };
                                functions.push(done);
                                assert(functions@.map_values(|f: Lowered| f@) =~= before.map_values(
                                    |f: Lowered| f@,
                                ).push(done@));
                            },
                        },
                        None => {
                            proof {
                                fault_stays(w, stmts@, i + 1, stmts@.len() as int);
                            }
                            return Err(Fault::UnknownFunction);
                        },
                    }
                },
                None => {},
            }
            i = i + 1;
        }
        Ok(functions)
    }

    fn lower_main(
        &self,
        stmts: &Vec<Spanned<TypedExpr>>,
        pre_env: &Vec<(String, Vec<i64>)>,
        env_types: &Vec<(String, Type)>,
        structs: &StructDefs,
        unions: &UnionDefs,
        cow_verify: bool,
    ) -> (r: (Vec<(String, Type)>, Builder))
        ensures
            (field_views(r.0@), r.1@) == main_code(
                World { table: self@, defs: structs@, unions: unions@, verify: cow_verify },
                stmts@,
                pre_env@,
                field_views(env_types@),
            ),
    {
        let prior = field_names(env_types);
        let exit_live = entry_exit_live(stmts, &prior);
        let liveness = analyze_entry(stmts, &exit_live);
        let muts: Vec<(String, Type)> = Vec::new();
        assert(field_views(muts@) =~= Seq::<FieldView>::empty());
        let cx = Ctx {
            structs,
            unions,
            funcs: &self.funcs,
            mut_params: &muts,
            liveness: &liveness,
            host_fns: &self.host_fns,
            cow_verify,
        };
        let mut b = Builder::new();
        let bindings = build_main_body(&mut b, &cx, stmts, pre_env, env_types);
        proof {
            reveal(main_code);
        }
        (bindings, b)
    }

    /// Compiles one program or one entry of a session: declares the functions
    /// that it binds, lowers their bodies, and lowers its statements.
    /// `pre_env` are the words of the names that earlier entries bound,
    /// `env_types` their types.
    pub fn compile_entry(
        &mut self,
        typed: Spanned<TypedExpr>,
        entry_id: usize,
        pre_env: &Vec<(String, Vec<i64>)>,
        env_types: &Vec<(String, Type)>,
        structs: &StructDefs,
        unions: &UnionDefs,
        cow_verify: bool,
    ) -> (r: Result<Entry, Fault>)
        ensures
            ({
                let (entry, table) = compiled(
                    World { table: old(self)@, defs: structs@, unions: unions@, verify: cow_verify },
                    entry_stmts(typed),
                    entry_id,
                    pre_env@,
                    field_views(env_types@),
                );
                &&& final(self)@ == table
                &&& match entry {
                    Ok(e) => r is Ok && r->Ok_0@ == e,
                    Err(fault) => r is Err && r->Err_0 == fault,
                }
            }),
    {
        let stmts = statements(typed);
        if !self.declare_entry(&stmts, entry_id, structs) {
            return Err(Fault::NoLayout);
        }
        let functions = match self.lower_functions(&stmts, structs, unions, cow_verify) {
            Ok(functions) => functions,
            Err(fault) => {
                return Err(fault);
            },
        };
        let (bindings, main) = self.lower_main(&stmts, pre_env, env_types, structs, unions, cow_verify);
        match main.fault {
            Some(fault) => Err(fault),
            None => {
                let number = decimal_of(entry_id);
                Ok(Entry { functions, symbol: joined("__frog_main_", number.as_str()), main, bindings })
            },
        }
    }
}

} // verus!
