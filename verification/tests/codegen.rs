use froglang_core::codegen::{make_sig, Codegen};
use froglang_core::host::HostFn;
use froglang_core::ir::{BinOp, ClType, Fault, Op};
use froglang_core::layout::{is_heap_ty, member_tag, overlay_safe, struct_fields, union_is_inline, union_layout};
use froglang_core::lower::var_key;
use froglang_core::numbering::number_nodes;
use froglang_core::pack::{
    gc_mask, gc_slots_of_bindings, heap_roots_in_leaves, pack_union_member_runtime, unpack_union_member_runtime,
};
use froglang_core::show::is_positional_fields;
use froglang_core::tokens::{Span, Spanned, Token};
use froglang_core::typed_ast::{TypedExpr, TypedExprKind};
use froglang_core::types::{StructDefs, Type, UnionDefs};

type Node = Spanned<TypedExpr>;

fn typed(ty: Type, kind: TypedExprKind) -> Node {
    Spanned { span: Span::new((0, 0), (0, 1)), item: TypedExpr { id: 0, ty, kind } }
}

fn num(n: i64) -> Node {
    typed(Type::Int, TypedExprKind::IntLit(n))
}

fn var(name: &str) -> Node {
    typed(Type::Int, TypedExprKind::Var(name.to_string()))
}

fn plus(a: Node, b: Node) -> Node {
    typed(Type::Int, TypedExprKind::Binary { op: Token::Plus, left: Box::new(a), right: Box::new(b) })
}

fn block(mut stmts: Vec<Node>) -> Node {
    let ty = stmts.last_mut().map(|s| s.item.ty.dup()).unwrap_or(Type::Nil);
    typed(ty, TypedExprKind::Block(stmts))
}

fn assign(name: &str, v: Node) -> Node {
    let ty = v.item.ty.dup();
    typed(ty, TypedExprKind::Assign { name: name.to_string(), value: Box::new(v) })
}

fn host(name: &str) -> HostFn {
    HostFn {
        name: name.to_string(),
        symbol: format!("host_{}", name),
        params: vec![Type::Int],
        ret: Type::Int,
        param_leaves: vec![vec![Type::Int]],
        ret_leaves: vec![Type::Int],
    }
}

fn point() -> (Type, StructDefs) {
    let ty = Type::strukt("Point".to_string());
    let mut defs = StructDefs::new();
    defs.define(ty.dup(), vec![("x".to_string(), Type::Int), ("name".to_string(), Type::Str)]);
    (ty, defs)
}

#[test]
fn the_runtime_is_declared_first() {
    let cg = Codegen::new();
    let decls = cg.declarations();
    assert_eq!(decls.len(), 34);
    assert_eq!(decls[0].symbol, "frog_alloc_str");
    assert!(decls.iter().all(|d| d.import));
    assert_eq!(cg.checkpoint_func_ids(), 34);
    assert!(cg.source_map().is_empty());
}

#[test]
fn a_host_function_must_not_hide_the_runtime() {
    let cg = Codegen::new_with_hosts(&vec![host("twice")]).unwrap();
    assert_eq!(cg.declarations().len(), 35);
    match Codegen::new_with_hosts(&vec![host("print")]) {
        Ok(_) => panic!("accepted"),
        Err(e) => {
            assert_eq!(e, "host function 'print' collides with a runtime primitive of the same name");
        }
    }
}

#[test]
fn signatures_follow_the_leaves() {
    let (ty, defs) = point();
    let sig = make_sig(
        &vec![("p".to_string(), ty.dup(), true), ("b".to_string(), Type::Bool, false)],
        &Type::Float,
        &defs,
    )
    .unwrap();
    assert_eq!(sig.params, vec![ClType::I64, ClType::I64, ClType::I8]);
    assert_eq!(sig.results, vec![ClType::F64, ClType::I64, ClType::I64]);
}

#[test]
fn a_type_that_holds_itself_has_no_signature() {
    let ty = Type::strukt("Loop".to_string());
    let mut defs = StructDefs::new();
    defs.define(ty.dup(), vec![("again".to_string(), ty.dup())]);
    assert!(make_sig(&vec![("l".to_string(), ty, false)], &Type::Nil, &defs).is_none());
}

#[test]
fn a_sum_is_lowered() {
    let mut cg = Codegen::new();
    let mut e = block(vec![assign("x", num(1)), plus(var("x"), num(2))]);
    number_nodes(&mut e);
    let entry =
        cg.compile_entry(e, 0, &vec![], &vec![], &StructDefs::new(), &UnionDefs::new(), false).unwrap();
    assert!(entry.functions.is_empty());
    assert_eq!(entry.bindings.len(), 1);
    assert_eq!(entry.bindings[0].0, "x");
    let ops = &entry.main.ops;
    assert!(ops.iter().any(|o| matches!(o, Op::Iconst { ty: ClType::I64, imm: 1 })));
    assert!(ops.iter().any(|o| matches!(o, Op::Binary { op: BinOp::Iadd, .. })));
    assert!(ops.iter().any(|o| matches!(o, Op::Return)));
}

#[test]
fn a_function_is_declared_and_lowered() {
    let mut cg = Codegen::new();
    let before = cg.checkpoint_func_ids();
    let f = typed(
        Type::Never,
        TypedExprKind::Function {
            params: vec![("x".to_string(), Type::Int, false)],
            return_type: Type::Int,
            body: Box::new(plus(var("x"), num(1))),
        },
    );
    let mut e = block(vec![assign("inc", f), num(0)]);
    number_nodes(&mut e);
    let entry =
        cg.compile_entry(e, 3, &vec![], &vec![], &StructDefs::new(), &UnionDefs::new(), false).unwrap();
    assert_eq!(entry.functions.len(), 1);
    assert_eq!(entry.functions[0].name, "inc");
    assert!(cg.checkpoint_func_ids() > before);
    cg.restore_func_ids(before);
    cg.restore_source_map(0);
    assert_eq!(cg.checkpoint_func_ids(), before);
}

#[test]
fn an_unbound_name_is_a_fault() {
    let mut cg = Codegen::new();
    let mut e = block(vec![var("nowhere")]);
    number_nodes(&mut e);
    match cg.compile_entry(e, 0, &vec![], &vec![], &StructDefs::new(), &UnionDefs::new(), false) {
        Ok(_) => panic!("lowered"),
        Err(f) => assert_eq!(f, Fault::UnboundVariable),
    }
}

#[test]
fn leaves_of_a_struct_are_its_fields() {
    let (ty, defs) = point();
    let ls = struct_fields(&ty, &defs);
    assert_eq!(ls[0].0, "x");
    assert_eq!(ls[1], ("name".to_string(), Type::Str));
    assert_eq!(var_key("p", "x"), "p.x");
    assert_eq!(var_key("p", ""), "p");
}

#[test]
fn pointers_are_marked() {
    assert!(is_heap_ty(&Type::Str));
    assert!(!is_heap_ty(&Type::Int));
    assert!(overlay_safe(&Type::Str));
    assert_eq!(gc_mask(&vec![Type::Int, Type::Str, Type::Bool, Type::list(Type::Int)]), 0b1010);
    let (ty, defs) = point();
    assert_eq!(gc_slots_of_bindings(&[("a".to_string(), Type::Int), ("p".to_string(), ty)], &defs), vec![2]);
    assert_eq!(
        heap_roots_in_leaves(&[7, 8], &[("x".to_string(), Type::Int), ("s".to_string(), Type::Str)]),
        vec![8]
    );
}

#[test]
fn a_packed_member_is_read_back() {
    let (ty, defs) = point();
    let members = vec![Type::Int, ty.dup(), Type::Str];
    assert!(union_is_inline(&members, &defs));
    let layout = union_layout(&members, &defs);
    let packed = pack_union_member_runtime(&members, &ty, member_tag(1), &vec![5, 0x1000], &defs);
    assert_eq!(packed.len(), layout.width());
    assert_eq!(packed[0] & 7, 2);
    assert_eq!(unpack_union_member_runtime(&members, &ty, &packed, &defs), vec![5, 0x1000]);
}

#[test]
fn fields_without_names_are_positional() {
    assert!(is_positional_fields(&vec![("0".to_string(), Type::Int), ("1".to_string(), Type::Int)]));
    assert!(!is_positional_fields(&vec![("x".to_string(), Type::Int)]));
}

#[test]
fn unions_are_found_by_their_members() {
    let defs = UnionDefs::new();
    assert!(defs.get("Shape").is_none());
    assert!(defs.resolve(&vec![Type::Int]).is_none());
}
