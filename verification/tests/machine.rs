//! The machine's value operations: storing literals, deep equality, and
//! the total order on values.

use oftb::interpreter::store::Store;
use oftb::interpreter::value::{ValOrder, Value};
use oftb::Literal;

#[test]
fn values_display_like_literals() {
    let mut store = Store::new();
    let v = store.store_literal(&Literal::Cons(
        Box::new(Literal::Symbol("a".to_string())),
        Box::new(Literal::Cons(
            Box::new(Literal::String("x\n".to_string())),
            Box::new(Literal::Nil),
        )),
    ));
    assert_eq!(v.display(&store, false, 64), Some("(a \"x\\n\")".to_string()));
    let s = store.store_literal(&Literal::String("raw".to_string()));
    assert_eq!(s.display(&store, true, 64), Some("raw".to_string()));
    assert_eq!(s.display(&store, false, 64), Some("\"raw\"".to_string()));
    let vec = store.store_literal(&Literal::Vector(vec![
        Literal::Fixnum(-3),
        Literal::Byte(7),
    ]));
    assert_eq!(vec.display(&store, false, 64), Some("[-3 7]".to_string()));
    assert_eq!(v.display(&store, false, 0), None);
}

#[test]
fn stored_literals_compare_deeply() {
    let mut store = Store::new();
    let a = store.store_literal(&Literal::Cons(
        Box::new(Literal::Fixnum(1)),
        Box::new(Literal::String("hi".to_string())),
    ));
    let b = store.store_literal(&Literal::Cons(
        Box::new(Literal::Fixnum(1)),
        Box::new(Literal::String("hi".to_string())),
    ));
    // Different handles, equal structure.
    assert_eq!(a.equals(&b, &store, 64), Some(true));
    let c = store.store_literal(&Literal::Cons(
        Box::new(Literal::Fixnum(2)),
        Box::new(Literal::String("hi".to_string())),
    ));
    assert_eq!(a.equals(&c, &store, 64), Some(false));
}

#[test]
fn value_order_is_by_kind_then_content() {
    let mut store = Store::new();
    let byte = store.store_literal(&Literal::Byte(9));
    let fixnum = store.store_literal(&Literal::Fixnum(0));
    let nil = store.store_literal(&Literal::Nil);
    let sym_a = store.store_literal(&Literal::Symbol("a".to_string()));
    let sym_b = store.store_literal(&Literal::Symbol("b".to_string()));
    // Byte < Fixnum < Nil < Symbol in the kind order.
    assert_eq!(byte.compare(&fixnum, &store, 8), Some(ValOrder::Lt));
    assert_eq!(fixnum.compare(&nil, &store, 8), Some(ValOrder::Lt));
    assert_eq!(nil.compare(&sym_a, &store, 8), Some(ValOrder::Lt));
    assert_eq!(sym_a.compare(&sym_b, &store, 8), Some(ValOrder::Lt));
    assert_eq!(sym_b.compare(&sym_a, &store, 8), Some(ValOrder::Gt));
    assert_eq!(sym_a.compare(&sym_a, &store, 8), Some(ValOrder::Eq));
}

#[test]
fn vectors_compare_elementwise_with_length_tiebreak() {
    let mut store = Store::new();
    let short = store.store_literal(&Literal::Vector(vec![Literal::Fixnum(1)]));
    let long = store.store_literal(&Literal::Vector(vec![
        Literal::Fixnum(1),
        Literal::Fixnum(2),
    ]));
    assert_eq!(short.compare(&long, &store, 16), Some(ValOrder::Lt));
    assert_eq!(long.compare(&short, &store, 16), Some(ValOrder::Gt));
    assert_eq!(short.equals(&long, &store, 16), Some(false));
}
