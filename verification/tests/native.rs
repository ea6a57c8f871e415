use cranelift_codegen::ir::{Function, Signature, UserFuncName};
use cranelift_codegen::isa::CallConv;
use cranelift_codegen::settings;
use cranelift_codegen::verify_function;
use cranelift_frontend::{FunctionBuilder, FunctionBuilderContext};
use froglang_core::codegen::{Codegen, Decl, Sig};
use froglang_core::host::HostFn;
use froglang_core::ir::{BinOp, ClType, Conv, Field, Op, Test};
use froglang_core::native::{fill, idle_context, replay, Target};
use froglang_core::numbering::number_nodes;
use froglang_core::tokens::{Span, Spanned, Token};
use froglang_core::typed_ast::{Arg, Place, PlaceSeg, TypedExpr, TypedExprKind};
use froglang_core::types::{StructDefs, Type, UnionDef, UnionDefs};

type Node = Spanned<TypedExpr>;

fn target(strings: usize) -> Target {
    Target {
        none_word: 15,
        list_data: 0,
        list_stride: 8,
        list_len: 16,
        list_cap: 24,
        shared: -8,
        variant_tag: 0,
        variant_slots: 16,
        strings: (0..strings).map(|i| 0x1000 + 16 * i as i64).collect(),
    }
}

// The text of the function that operations make, after Cranelift has found
// nothing wrong with it.
fn listing(sig: &Sig, ops: &Vec<Op>, decls: &Vec<Decl>, strings: usize) -> Result<String, usize> {
    let mut func = Function::with_name_signature(UserFuncName::user(0, 0), Signature::new(CallConv::SystemV));
    let mut ctx = idle_context();
    let ids: Vec<u32> = (0..decls.len() as u32).collect();
    let (mut b, rows) = fill(&mut func, &mut ctx, sig, ops, decls, &ids, &target(strings))?;
    assert_eq!(rows.len(), ops.len());
    b.seal_all_blocks();
    let isa = cranelift_native::builder().unwrap().finish(settings::Flags::new(settings::builder())).unwrap();
    b.finalize(isa.frontend_config());
    let text = func.display().to_string();
    let flags = settings::Flags::new(settings::builder());
    if let Err(e) = verify_function(&func, &flags) {
        panic!("{}\n{}", e, text);
    }
    Ok(text)
}

fn plain(params: Vec<ClType>, results: Vec<ClType>) -> Sig {
    Sig { params, results }
}

fn main_sig() -> Sig {
    plain(vec![ClType::I64], vec![ClType::I64])
}

fn typed(ty: Type, kind: TypedExprKind) -> Node {
    Spanned { span: Span::new((0, 0), (0, 1)), item: TypedExpr { id: 0, ty, kind } }
}

fn num(n: i64) -> Node {
    typed(Type::Int, TypedExprKind::IntLit(n))
}

fn text(s: &str) -> Node {
    typed(Type::Str, TypedExprKind::StrLit(s.to_string()))
}

fn var(name: &str, ty: Type) -> Node {
    typed(ty, TypedExprKind::Var(name.to_string()))
}

fn bin(op: Token, a: Node, b: Node, ty: Type) -> Node {
    typed(ty, TypedExprKind::Binary { op, left: Box::new(a), right: Box::new(b) })
}

fn assign(name: &str, v: Node) -> Node {
    let ty = v.item.ty.dup();
    typed(ty, TypedExprKind::Assign { name: name.to_string(), value: Box::new(v) })
}

fn block(stmts: Vec<Node>, ty: Type) -> Node {
    typed(ty, TypedExprKind::Block(stmts))
}

fn call(name: &str, args: Vec<Arg>, ty: Type) -> Node {
    let params = args.iter().map(|a| a.value().map(|v| v.item.ty.dup()).unwrap_or(Type::Int)).collect();
    let callee = Type::Function { params, result: Box::new(ty.dup()) };
    typed(ty, TypedExprKind::Call { callable: Box::new(var(name, callee)), args })
}

fn func(name: &str, params: Vec<(String, Type, bool)>, ret: Type, body: Node) -> Node {
    let f = typed(Type::Never, TypedExprKind::Function { params, return_type: ret, body: Box::new(body) });
    assign(name, f)
}

fn cond(c: Node, a: Node, b: Option<Node>, ty: Type) -> Node {
    typed(
        ty,
        TypedExprKind::Conditional { cond: Box::new(c), true_branch: Box::new(a), false_branch: b.map(Box::new) },
    )
}

fn list(elems: Vec<Node>) -> Node {
    typed(Type::list(Type::Int), TypedExprKind::List(elems))
}

fn range(a: Node, b: Node) -> Node {
    typed(
        Type::Named { name: "Range".to_string(), args: vec![Type::Int] },
        TypedExprKind::Range { start: Box::new(a), end: Box::new(b) },
    )
}

fn for_loop(name: &str, iterable: Node, guard: Option<Node>, body: Node) -> Node {
    typed(
        Type::Nil,
        TypedExprKind::ForLoop {
            var: name.to_string(),
            iterable: Box::new(iterable),
            cond: guard.map(Box::new),
            body: Box::new(body),
            iter_via: None,
        },
    )
}

// Lowers a program and makes all its functions; the text of the last.
fn compile(stmts: Vec<Node>, structs: &StructDefs, unions: &UnionDefs, hosts: &Vec<HostFn>, verify: bool) -> String {
    let mut cg = match Codegen::new_with_hosts(hosts) {
        Ok(cg) => cg,
        Err(e) => panic!("{}", e),
    };
    let mut e = block(stmts, Type::Nil);
    number_nodes(&mut e);
    let entry = match cg.compile_entry(e, 0, &vec![], &vec![], structs, unions, verify) {
        Ok(entry) => entry,
        Err(f) => panic!("{:?}", f),
    };
    let decls = cg.declarations();
    for f in &entry.functions {
        match listing(&decls[f.func].sig, &f.body.ops, decls, f.body.strings.len()) {
            Ok(_) => {}
            Err(i) => panic!("{}: operation {} of {:?}", f.name, i, f.body.ops),
        }
    }
    match listing(&main_sig(), &entry.main.ops, decls, entry.main.strings.len()) {
        Ok(t) => t,
        Err(i) => panic!("operation {} of {:?}", i, entry.main.ops),
    }
}

fn run(stmts: Vec<Node>) -> String {
    compile(stmts, &StructDefs::new(), &UnionDefs::new(), &vec![], false)
}

#[test]
fn a_sum_becomes_instructions() {
    let out = run(vec![assign("x", num(40)), bin(Token::Plus, var("x", Type::Int), num(2), Type::Int)]);
    assert!(out.contains("iconst.i64 40"), "{}", out);
    assert!(out.contains("iadd"), "{}", out);
    assert!(out.contains("return"), "{}", out);
}

#[test]
fn arithmetic_of_all_kinds() {
    let i = |op: Token| bin(op, num(7), num(2), Type::Int);
    let f = |op: Token| {
        bin(
            op,
            typed(Type::Float, TypedExprKind::FloatLit(0x3ff8000000000000)),
            typed(Type::Float, TypedExprKind::FloatLit(0x4000000000000000)),
            Type::Float,
        )
    };
    let out = run(vec![
        i(Token::Plus),
        i(Token::Minus),
        i(Token::Star),
        i(Token::Slash),
        f(Token::Plus),
        f(Token::Minus),
        f(Token::Star),
        f(Token::Slash),
        bin(Token::Lt, num(1), num(2), Type::Bool),
        bin(Token::GtEq, num(1), num(2), Type::Bool),
        typed(Type::Int, TypedExprKind::Unary { op: Token::Minus, expr: Box::new(num(3)) }),
        num(0),
    ]);
    for word in ["isub", "imul", "sdiv", "fadd", "fsub", "fmul", "fdiv", "icmp"] {
        assert!(out.contains(word), "{}: {}", word, out);
    }
}

#[test]
fn conditionals_join() {
    let c = bin(Token::Lt, num(1), num(2), Type::Bool);
    let out = run(vec![cond(c, num(1), Some(num(2)), Type::Int)]);
    assert!(out.contains("brif"), "{}", out);
    assert!(out.contains("jump"), "{}", out);
}

#[test]
fn strings_are_made_and_compared() {
    let out = run(vec![
        assign("s", text("hi")),
        bin(Token::Plus, var("s", Type::Str), text("!"), Type::Str),
        bin(Token::EqEq, var("s", Type::Str), text("x"), Type::Bool),
        call("print", vec![Arg::Value(var("s", Type::Str))], Type::Nil),
    ]);
    assert!(out.contains("call"), "{}", out);
    assert!(out.contains("4096"), "{}", out);
}

#[test]
fn loops_run_over_ranges_and_lists() {
    let add = |name: &str| {
        block(
            vec![assign("acc", bin(Token::Plus, var("acc", Type::Int), var(name, Type::Int), Type::Int))],
            Type::Nil,
        )
    };
    let guard = bin(Token::Gt, var("i", Type::Int), num(1), Type::Bool);
    let out = run(vec![
        assign("acc", num(0)),
        for_loop("i", range(num(0), num(5)), Some(guard), add("i")),
        assign("xs", list(vec![num(1), num(2)])),
        for_loop("x", var("xs", Type::list(Type::Int)), None, add("x")),
        var("acc", Type::Int),
    ]);
    assert!(out.contains("brif"), "{}", out);
    assert!(out.contains("load"), "{}", out);
}

#[test]
fn comprehensions_collect() {
    let body = bin(Token::Star, var("x", Type::Int), num(2), Type::Int);
    let c = typed(
        Type::list(Type::Int),
        TypedExprKind::Comprehension {
            var: "x".to_string(),
            iterable: Box::new(range(num(0), num(3))),
            cond: None,
            body: Box::new(body),
            iter_via: None,
        },
    );
    run(vec![assign("ys", c), num(0)]);
}

#[test]
fn lists_are_indexed_sliced_and_written() {
    let xs = || var("xs", Type::list(Type::Int));
    let at = typed(Type::Int, TypedExprKind::Index { target: Box::new(xs()), index: Box::new(num(0)) });
    let cut = typed(
        Type::list(Type::Int),
        TypedExprKind::Slice { target: Box::new(xs()), start: Some(Box::new(num(1))), end: None },
    );
    let write = typed(
        Type::Int,
        TypedExprKind::PlaceAssign {
            place: Place {
                root: "xs".to_string(),
                path: vec![PlaceSeg::Index { index: Box::new(num(0)), elem_ty: Type::Int }],
            },
            value: Box::new(num(9)),
        },
    );
    for verify in [false, true] {
        let stmts = vec![
            assign("xs", list(vec![num(1), num(2), num(3)])),
            assign("ys", xs()),
            typed(Type::Int, TypedExprKind::Index { target: Box::new(xs()), index: Box::new(num(1)) }),
            num(0),
        ];
        compile(stmts, &StructDefs::new(), &UnionDefs::new(), &vec![], verify);
    }
    compile(
        vec![assign("xs", list(vec![num(1), num(2)])), at, cut, write, num(0)],
        &StructDefs::new(),
        &UnionDefs::new(),
        &vec![],
        true,
    );
}

#[test]
fn functions_take_and_write_back() {
    let body = block(
        vec![
            assign("p", bin(Token::Plus, var("p", Type::Int), var("q", Type::Int), Type::Int)),
            typed(Type::Nil, TypedExprKind::NoneLit),
        ],
        Type::Nil,
    );
    let out = run(vec![
        func("bump", vec![("p".to_string(), Type::Int, true), ("q".to_string(), Type::Int, false)], Type::Nil, body),
        assign("a", num(1)),
        call(
            "bump",
            vec![Arg::Mut(Place { root: "a".to_string(), path: vec![] }), Arg::Value(num(2))],
            Type::Nil,
        ),
        var("a", Type::Int),
    ]);
    assert!(out.contains("call"), "{}", out);
}

#[test]
fn an_early_return_leaves_a_dead_block() {
    let early = typed(Type::Never, TypedExprKind::Return(Some(Box::new(num(1)))));
    let c = bin(Token::Lt, var("x", Type::Int), num(0), Type::Bool);
    let body = block(vec![cond(c, early, None, Type::Nil), var("x", Type::Int)], Type::Int);
    run(vec![
        func("f", vec![("x".to_string(), Type::Int, false)], Type::Int, body),
        call("f", vec![Arg::Value(num(3))], Type::Int),
    ]);
}

#[test]
fn structs_are_their_fields() {
    let ty = || Type::strukt("Point".to_string());
    let mut defs = StructDefs::new();
    defs.define(ty(), vec![("x".to_string(), Type::Int), ("name".to_string(), Type::Str)]);
    let init = typed(
        ty(),
        TypedExprKind::StructInit {
            name: "Point".to_string(),
            fields: vec![("x".to_string(), Box::new(num(1))), ("name".to_string(), Box::new(text("a")))],
        },
    );
    let write = typed(
        Type::Int,
        TypedExprKind::PlaceAssign {
            place: Place { root: "p".to_string(), path: vec![PlaceSeg::Field("x".to_string())] },
            value: Box::new(num(5)),
        },
    );
    let read = typed(
        Type::Int,
        TypedExprKind::FieldAccess { target: Box::new(var("p", ty())), field: "x".to_string(), enum_name: None },
    );
    let show = call("print", vec![Arg::Value(var("p", ty()))], Type::Nil);
    let out = compile(vec![assign("p", init), write, show, read], &defs, &UnionDefs::new(), &vec![], false);
    assert!(out.contains("store"), "{}", out);
}

#[test]
fn unions_are_widened_tested_and_narrowed() {
    let u = || Type::Union(vec![Type::Int, Type::Nil]);
    let some = typed(u(), TypedExprKind::Widen { value: Box::new(num(4)), tag: 0 });
    let test = typed(Type::Bool, TypedExprKind::TypeTag { target: Box::new(var("o", u())), tag: 0 });
    let value = typed(Type::Int, TypedExprKind::Narrow { value: Box::new(var("o", u())), tag: 0 });
    let truth = typed(Type::Bool, TypedExprKind::Truthy(Box::new(num(4))));
    let show = call("print", vec![Arg::Value(var("o", u()))], Type::Nil);
    run(vec![assign("o", some), truth, show, cond(test, value, Some(num(0)), Type::Int)]);
}

#[test]
fn variants_are_told_apart() {
    let circle = || Type::Named { name: "Shape.Circle".to_string(), args: vec![] };
    let square = || Type::Named { name: "Shape.Square".to_string(), args: vec![] };
    let shape = || Type::Union(vec![circle(), square()]);
    let mut structs = StructDefs::new();
    structs.define(circle(), vec![("r".to_string(), Type::Int)]);
    structs.define(square(), vec![("s".to_string(), Type::Int)]);
    let mut unions = UnionDefs::new();
    unions.define(UnionDef {
        name: "Shape".to_string(),
        ty: shape(),
        common: vec![],
        variants: vec![
            ("Circle".to_string(), vec![("r".to_string(), Type::Int)]),
            ("Square".to_string(), vec![("s".to_string(), Type::Int)]),
        ],
    });
    let init = typed(
        shape(),
        TypedExprKind::VariantInit {
            enum_name: "Shape".to_string(),
            variant: "Circle".to_string(),
            tag: 0,
            fields: vec![("r".to_string(), Box::new(num(2)))],
        },
    );
    let test = typed(
        Type::Bool,
        TypedExprKind::IsVariant {
            target: Box::new(var("sh", shape())),
            enum_name: "Shape".to_string(),
            variant: "Circle".to_string(),
            tag: 0,
        },
    );
    let read = typed(
        Type::Int,
        TypedExprKind::VariantField {
            target: Box::new(var("sh", shape())),
            enum_name: "Shape".to_string(),
            variant: "Circle".to_string(),
            field: "r".to_string(),
        },
    );
    compile(
        vec![assign("sh", init), cond(test, read, Some(num(0)), Type::Int)],
        &structs,
        &unions,
        &vec![],
        false,
    );
}

#[test]
fn host_functions_get_buffers() {
    let host = HostFn {
        name: "twice".to_string(),
        symbol: "host_twice".to_string(),
        params: vec![Type::Int],
        ret: Type::Int,
        param_leaves: vec![vec![Type::Int]],
        ret_leaves: vec![Type::Int],
    };
    let out = compile(
        vec![call("twice", vec![Arg::Value(num(21))], Type::Int)],
        &StructDefs::new(),
        &UnionDefs::new(),
        &vec![host],
        false,
    );
    assert!(out.contains("stack_addr"), "{}", out);
}

#[test]
fn every_operation_is_put_in() {
    let sig = plain(vec![ClType::I64, ClType::F64], vec![ClType::I64]);
    let decls = vec![Decl {
        symbol: "f".to_string(),
        sig: plain(vec![ClType::I64], vec![ClType::I64, ClType::I8]),
        import: true,
    }];
    let ops = vec![
        Op::Block,
        Op::Switch { block: 0 },
        Op::Seal { block: 0 },
        Op::EntryParam { index: 0 },
        Op::EntryParam { index: 1 },
        Op::BinaryImm { op: BinOp::Iadd, a: 3, imm: 5 },
        Op::Convert { op: Conv::Low8, a: 5 },
        Op::Convert { op: Conv::Low32, a: 5 },
        Op::Convert { op: Conv::Widen, a: 6 },
        Op::Convert { op: Conv::FloatBits, a: 4 },
        Op::Convert { op: Conv::BitsFloat, a: 9 },
        Op::Convert { op: Conv::IntFloat, a: 3 },
        Op::Convert { op: Conv::FloatNeg, a: 10 },
        Op::FloatCompare { test: Test::Less, a: 11, b: 12 },
        Op::CompareImm { test: Test::UnsignedLessEqual, a: 8, imm: 7 },
        Op::Select { cond: 13, a: 3, b: 8 },
        Op::Load { ty: ClType::I8, base: 3, at: Field::Shared },
        Op::Store { val: 15, base: 3, at: Field::VariantSlot(2) },
        Op::StackSlot { words: 2 },
        Op::StackStore { val: 3, slot: 18, word: 1 },
        Op::StackLoad { slot: 18, word: 1 },
        Op::StackAddr { slot: 18 },
        Op::Var { ty: ClType::I64 },
        Op::GcVar { var: 22 },
        Op::DefVar { var: 22, val: 20 },
        Op::UseVar { var: 22 },
        Op::GcValue { val: 21 },
        Op::NoneWord,
        Op::StrAddr { index: 0 },
        Op::F64const { bits: 0 },
        Op::Arg { val: 25 },
        Op::Call { func: 0 },
        Op::Result { index: 0 },
        Op::Result { index: 1 },
        Op::Block,
        Op::BlockParam { block: 34, ty: ClType::I64 },
        Op::Block,
        Op::Arg { val: 32 },
        Op::Brif { cond: 33, yes: 34, no: 36 },
        Op::Switch { block: 36 },
        Op::Trap { code: 3 },
        Op::Switch { block: 34 },
        Op::Binary { op: BinOp::Bxor, a: 35, b: 27 },
        Op::Compare { test: Test::Equal, a: 35, b: 42 },
        Op::Iconst { ty: ClType::I64, imm: -1 },
        Op::Arg { val: 44 },
        Op::Return,
    ];
    let out = listing(&sig, &ops, &decls, 1).unwrap();
    for word in [
        "ireduce.i8", "ireduce.i32", "uextend.i64", "bitcast.i64", "bitcast.f64", "fcvt_from_sint.f64", "fneg", "fcmp lt",
        "icmp ule", "select", "load.i8", "store", "stack_addr", "call fn0", "brif", "trap user3", "bxor", "iconst.i64 -1",
        "iconst.i64 15", "iconst.i64 4096", "f64const", "return",
    ] {
        assert!(out.contains(word), "{}: {}", word, out);
    }
}

#[test]
fn what_does_not_fit_is_refused_where_it_stands() {
    let sig = plain(vec![ClType::I64], vec![]);
    let refused = |ops: Vec<Op>| listing(&sig, &ops, &vec![], 0).unwrap_err();
    assert_eq!(refused(vec![Op::Return]), 0);
    assert_eq!(refused(vec![Op::Block, Op::Iconst { ty: ClType::I64, imm: 0 }]), 1);
    let start = || vec![Op::Block, Op::Switch { block: 0 }, Op::EntryParam { index: 0 }];
    let with = |op: Op| {
        let mut ops = start();
        ops.push(op);
        ops
    };
    assert_eq!(refused(with(Op::EntryParam { index: 1 })), 3);
    assert_eq!(refused(with(Op::Binary { op: BinOp::Fadd, a: 2, b: 2 })), 3);
    assert_eq!(refused(with(Op::Binary { op: BinOp::Iadd, a: 2, b: 9 })), 3);
    assert_eq!(refused(with(Op::Jump { block: 2 })), 3);
    assert_eq!(refused(with(Op::Call { func: 0 })), 3);
    assert_eq!(refused(with(Op::Result { index: 0 })), 3);
    assert_eq!(refused(with(Op::Trap { code: 0 })), 3);
    assert_eq!(refused(with(Op::StrAddr { index: 0 })), 3);
    assert_eq!(refused(with(Op::Iconst { ty: ClType::F64, imm: 0 })), 3);
    let mut twice = start();
    twice.push(Op::Seal { block: 0 });
    twice.push(Op::Seal { block: 0 });
    assert_eq!(refused(twice), 4);
    let mut after = start();
    after.push(Op::Return);
    after.push(Op::Return);
    assert_eq!(refused(after), 4);
}

#[test]
fn a_builder_of_ones_own_can_be_filled() {
    let mut func = Function::new();
    let mut ctx = FunctionBuilderContext::new();
    let mut b = FunctionBuilder::new(&mut func, &mut ctx);
    let ops = vec![Op::Block, Op::Switch { block: 0 }, Op::Trap { code: 1 }];
    let rows = replay(&mut b, &plain(vec![], vec![]), &ops, &vec![], &vec![], &target(0)).unwrap();
    assert_eq!(rows.len(), 3);
    b.seal_all_blocks();
    let isa = cranelift_native::builder().unwrap().finish(settings::Flags::new(settings::builder())).unwrap();
    b.finalize(isa.frontend_config());
    assert!(func.display().to_string().contains("trap user1"));
}

#[test]
fn arguments_have_the_types_of_where_they_go() {
    let sig = plain(vec![ClType::I64], vec![]);
    let given = |params: Vec<ClType>| {
        vec![Decl { symbol: "f".to_string(), sig: plain(params, vec![]), import: true }]
    };
    let refused = |rest: Vec<Op>, params: Vec<ClType>| {
        let mut ops = vec![Op::Block, Op::Switch { block: 0 }, Op::EntryParam { index: 0 }];
        ops.extend(rest);
        listing(&sig, &ops, &given(params), 0).unwrap_err()
    };
    let param = |ty: ClType| Op::BlockParam { block: 3, ty };
    let jump = Op::Jump { block: 3 };
    assert_eq!(refused(vec![Op::Block, param(ClType::F64), Op::Arg { val: 2 }, jump], vec![]), 6);
    assert_eq!(refused(vec![Op::Block, param(ClType::I64), jump], vec![]), 5);
    assert_eq!(refused(vec![Op::Block, Op::Arg { val: 2 }, jump], vec![]), 5);
    assert_eq!(refused(vec![Op::Block, jump, param(ClType::I64)], vec![]), 5);
    let fork = Op::Brif { cond: 2, yes: 3, no: 4 };
    assert_eq!(refused(vec![Op::Block, Op::Block, Op::ElseArg { val: 2 }, fork], vec![]), 6);
    assert_eq!(refused(vec![Op::Arg { val: 2 }, Op::Return], vec![]), 4);
    assert_eq!(refused(vec![Op::Arg { val: 2 }, Op::Call { func: 0 }], vec![ClType::F64]), 4);
    assert_eq!(refused(vec![Op::Call { func: 0 }], vec![ClType::I64]), 3);
}

#[test]
fn variables_and_parameters_of_a_block_can_be_counted() {
    let sig = plain(vec![ClType::I64], vec![]);
    let with = |vars: usize| {
        let mut ops = vec![Op::Block, Op::Switch { block: 0 }, Op::EntryParam { index: 0 }];
        for _ in 0..vars {
            ops.push(Op::Var { ty: ClType::I64 });
        }
        ops
    };
    let mut full = with(65535);
    full.push(Op::Return);
    assert!(listing(&sig, &full, &vec![], 0).is_ok());
    assert_eq!(listing(&sig, &with(65536), &vec![], 0).unwrap_err(), 3 + 65535);
    let mut beside = with(65535);
    beside.push(Op::Block);
    beside.push(Op::BlockParam { block: 65538, ty: ClType::I64 });
    beside.push(Op::BlockParam { block: 65538, ty: ClType::I64 });
    assert_eq!(listing(&sig, &beside, &vec![], 0).unwrap_err(), 65540);
}

#[test]
fn a_struct_is_returned_as_its_leaves() {
    let ty = || Type::strukt("Point".to_string());
    let mut defs = StructDefs::new();
    defs.define(ty(), vec![("x".to_string(), Type::Int), ("on".to_string(), Type::Bool)]);
    let on = typed(Type::Bool, TypedExprKind::BoolLit(true));
    let init = typed(
        ty(),
        TypedExprKind::StructInit {
            name: "Point".to_string(),
            fields: vec![("x".to_string(), Box::new(num(1))), ("on".to_string(), Box::new(on))],
        },
    );
    let mut cg = match Codegen::new_with_hosts(&vec![]) {
        Ok(cg) => cg,
        Err(e) => panic!("{}", e),
    };
    let mut e = block(vec![func("f", vec![], ty(), init)], Type::Nil);
    number_nodes(&mut e);
    let entry = cg.compile_entry(e, 0, &vec![], &vec![], &defs, &UnionDefs::new(), false).unwrap();
    let ops = &entry.functions[0].body.ops;
    let end = ops.iter().position(|op| *op == Op::Return).unwrap();
    let args = ops[..end].iter().filter(|op| matches!(op, Op::Arg { .. })).count();
    assert_eq!(args, 2);
}
