use fcomm::store::{Kind, Store};

#[test]
fn interning_symbols_is_content_addressed() {
    let mut s = Store::new();
    let a = s.intern_symbol(b"apple".to_vec());
    let b = s.intern_symbol(b"banana".to_vec());
    let a2 = s.intern_symbol(b"apple".to_vec());
    assert_eq!(a, a2);
    assert_ne!(a, b);
}

#[test]
fn interning_numbers_is_content_addressed() {
    let mut s = Store::new();
    let five = s.intern_number(5);
    let six = s.intern_number(6);
    let five2 = s.intern_number(5);
    assert_eq!(five, five2);
    assert_ne!(five, six);
}

#[test]
fn interning_pairs_is_content_addressed() {
    let mut s = Store::new();
    let one = s.intern_number(1);
    let two = s.intern_number(2);
    let p1 = s.cons(one, two);
    let p2 = s.cons(one, two);
    let p3 = s.cons(two, one);
    assert_eq!(p1, p2);
    assert_ne!(p1, p3);
    // Structurally identical terms built along different paths share one
    // address.
    let one_b = s.intern_number(1);
    let two_b = s.intern_number(2);
    let p4 = s.cons(one_b, two_b);
    assert_eq!(p1, p4);
}

#[test]
fn car_cdr_decompose_pairs() {
    let mut s = Store::new();
    let one = s.intern_number(1);
    let two = s.intern_number(2);
    let p = s.cons(one, two);
    assert_eq!(s.car(p), Ok(one));
    assert_eq!(s.cdr(p), Ok(two));
    assert_eq!(s.car(one), Err(fcomm::fcomm::Error::TypeError));
    assert_eq!(s.cdr(one), Err(fcomm::fcomm::Error::TypeError));
}

#[test]
fn hashes_are_distinct_per_term() {
    let mut s = Store::new();
    let one = s.intern_number(1);
    let two = s.intern_number(2);
    let h1 = s.hash_ptr(one);
    let h2 = s.hash_ptr(two);
    assert_ne!(h1.repr(), h2.repr());
    let one2 = s.intern_number(1);
    assert_eq!(s.hash_ptr(one2).repr(), h1.repr());
}

#[test]
fn kinds_reflect_entries() {
    let mut s = Store::new();
    let n = s.intern_number(7);
    assert_eq!(s.kind(n), Kind::KNum(7));
    let nil = s.intern_nil();
    assert_eq!(s.kind(nil), Kind::KNil);
}
