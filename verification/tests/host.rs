use froglang_core::host::{
    dict_mask, element_stride, flat_words, option_of, option_words, pair_leaves, result_of, result_words,
    two_member_union, FromFrog, PairFault, ToFrog,
};
use froglang_core::types::Type;

#[test]
fn plain_values_take_one_word() {
    assert_eq!(5i64.to_frog(), vec![5]);
    assert_eq!(<i64 as FromFrog>::from_frog(&[-7]), -7);
    assert_eq!(true.to_frog(), vec![1]);
    assert_eq!(false.to_frog(), vec![0]);
    assert!(<bool as FromFrog>::from_frog(&[2]));
    assert_eq!(().to_frog(), vec![0]);
    assert_eq!(<() as ToFrog>::slots(), 1);
    assert_eq!(<i64 as FromFrog>::frog_type(), Type::Int);
    assert_eq!(<bool as ToFrog>::leaves(), vec![Type::Bool]);
}

#[test]
fn an_optional_value_comes_back() {
    let union = Type::Union(vec![Type::Int, Type::Nil]);
    let p = two_member_union(&Type::Int, &vec![Type::Int], &Type::Nil, &vec![], &union).unwrap();
    assert_eq!(pair_leaves(&p).len(), 2);
    let some = option_words(Some(41i64), &p);
    assert_eq!(some, vec![1, 41]);
    assert_eq!(option_of::<i64>(&some, &p), Some(41));
    let none = option_words::<i64>(None, &p);
    assert_eq!(none, vec![2, 0]);
    assert_eq!(option_of::<i64>(&none, &p), None);
}

#[test]
fn a_result_comes_back() {
    let union = Type::Union(vec![Type::Bool, Type::Int]);
    let p = two_member_union(&Type::Int, &vec![Type::Int], &Type::Bool, &vec![Type::Bool], &union).unwrap();
    let good = result_words::<i64, bool>(Ok(3), &p);
    assert_eq!(good, vec![2, 3]);
    assert_eq!(result_of::<i64, bool>(&good, &p), Ok(3));
    let bad = result_words::<i64, bool>(Err(true), &p);
    assert_eq!(bad, vec![1, 1]);
    assert_eq!(result_of::<i64, bool>(&bad, &p), Err(true));
}

#[test]
fn two_types_that_are_no_pair() {
    let one = vec![Type::Int];
    let fault = |a: &Type, b: &Type, u: &Type| two_member_union(a, &one, b, &one, u).unwrap_err();
    assert_eq!(fault(&Type::Int, &Type::Int, &Type::Int), PairFault::Collapsed);
    let three = Type::Union(vec![Type::Bool, Type::Int, Type::Nil]);
    assert_eq!(fault(&Type::Int, &Type::Union(vec![Type::Bool, Type::Nil]), &three), PairFault::Expanded(3));
    let other = Type::Union(vec![Type::Bool, Type::Str]);
    assert_eq!(fault(&Type::Int, &Type::Bool, &other), PairFault::Rewritten);
}

#[test]
fn rows_of_a_list() {
    let rows = vec![vec![1, 2], vec![3, 4], vec![5, 6]];
    let flat = flat_words(&rows);
    assert_eq!(flat, vec![1, 2, 3, 4, 5, 6]);
    assert_eq!(&flat[2..4], &rows[1][..]);
    assert_eq!(element_stride(&vec![]), 1);
    assert_eq!(element_stride(&vec![Type::Int, Type::Str]), 2);
}

#[test]
fn pointers_of_a_dictionary() {
    assert_eq!(dict_mask(&vec![Type::Str], &vec![Type::Int, Type::Str]), 0b101);
    assert_eq!(dict_mask(&vec![Type::Int], &vec![Type::Int]), 0);
}

#[test]
fn the_order_of_the_two_does_not_matter() {
    let union = Type::Union(vec![Type::Bool, Type::Int]);
    let ints = vec![Type::Int];
    let bools = vec![Type::Bool];
    let p = two_member_union(&Type::Int, &ints, &Type::Bool, &bools, &union).unwrap();
    let q = two_member_union(&Type::Bool, &bools, &Type::Int, &ints, &union).unwrap();
    assert_eq!(pair_leaves(&p), pair_leaves(&q));
    assert_eq!(result_words::<i64, bool>(Ok(3), &p), result_words::<bool, i64>(Err(3), &q));
    assert_eq!(result_words::<i64, bool>(Err(true), &p), result_words::<bool, i64>(Ok(true), &q));
}
