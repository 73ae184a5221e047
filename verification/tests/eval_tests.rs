use fcomm::eval::{done_check, evaluate, terminal_check};
use fcomm::store::{Kind, Ptr, Store};

fn list(s: &mut Store, items: &[Ptr]) -> Ptr {
    let mut tail = s.intern_nil();
    for p in items.iter().rev() {
        tail = s.cons(*p, tail);
    }
    tail
}

fn num_of(s: &Store, p: Ptr) -> u64 {
    match s.kind(p) {
        Kind::KNum(v) => v,
        _ => panic!("not a number"),
    }
}

fn plus_1_2(s: &mut Store) -> Ptr {
    let plus = s.intern_symbol(b"+".to_vec());
    let one = s.intern_number(1);
    let two = s.intern_number(2);
    list(s, &[plus, one, two])
}

#[test]
fn one_plus_two_within_ten_steps() {
    let mut s = Store::new();
    let e = plus_1_2(&mut s);
    let (io, steps) = evaluate(&mut s, e, 10);
    assert!(done_check(&s, io));
    assert_eq!(num_of(&s, io.expr), 3);
    assert!(steps <= 10);
}

#[test]
fn one_plus_two_with_limit_one_is_incomplete() {
    let mut s = Store::new();
    let e = plus_1_2(&mut s);
    let (io, steps) = evaluate(&mut s, e, 1);
    assert!(!terminal_check(&s, io));
    assert_eq!(steps, 1);
}

#[test]
fn evaluation_is_deterministic() {
    // Two runs on the same store yield the identical record and count.
    let mut s = Store::new();
    let e = plus_1_2(&mut s);
    let (io1, k1) = evaluate(&mut s, e, 10);
    let (io2, k2) = evaluate(&mut s, e, 10);
    assert_eq!(io1, io2);
    assert_eq!(k1, k2);
    // And so do runs on separately built stores.
    let mut t = Store::new();
    let e2 = plus_1_2(&mut t);
    let (io3, k3) = evaluate(&mut t, e2, 10);
    assert_eq!(k1, k3);
    assert_eq!(num_of(&t, io3.expr), num_of(&s, io1.expr));
}

#[test]
fn evaluation_is_monotonic_in_the_limit() {
    let mut s = Store::new();
    let e = plus_1_2(&mut s);
    let (io, k) = evaluate(&mut s, e, 50);
    assert!(done_check(&s, io));
    // Any limit at least k yields the same state and count.
    let mut t = Store::new();
    let e2 = plus_1_2(&mut t);
    let (io_k, used_k) = evaluate(&mut t, e2, k);
    assert!(done_check(&t, io_k));
    assert_eq!(used_k, k);
    assert_eq!(num_of(&t, io_k.expr), 3);
    let mut u = Store::new();
    let e3 = plus_1_2(&mut u);
    let (io_big, used_big) = evaluate(&mut u, e3, 1000);
    assert_eq!(used_big, k);
    assert_eq!(num_of(&u, io_big.expr), 3);
}

#[test]
fn quote_returns_its_argument() {
    let mut s = Store::new();
    let quote = s.intern_symbol(b"quote".to_vec());
    let one = s.intern_number(1);
    let two = s.intern_number(2);
    let pair = s.cons(one, two);
    let e = list(&mut s, &[quote, pair]);
    let (io, _) = evaluate(&mut s, e, 10);
    assert!(done_check(&s, io));
    assert_eq!(io.expr, pair);
}

#[test]
fn conditionals_branch_on_nil() {
    let mut s = Store::new();
    let if_s = s.intern_symbol(b"if".to_vec());
    let nil_s = s.intern_symbol(b"nil".to_vec());
    let one = s.intern_number(1);
    let two = s.intern_number(2);
    let e_false = list(&mut s, &[if_s, nil_s, one, two]);
    let (io_f, _) = evaluate(&mut s, e_false, 20);
    assert!(done_check(&s, io_f));
    assert_eq!(num_of(&s, io_f.expr), 2);
    let seven = s.intern_number(7);
    let e_true = list(&mut s, &[if_s, seven, one, two]);
    let (io_t, _) = evaluate(&mut s, e_true, 20);
    assert!(done_check(&s, io_t));
    assert_eq!(num_of(&s, io_t.expr), 1);
}

#[test]
fn car_of_quoted_list() {
    let mut s = Store::new();
    let car_s = s.intern_symbol(b"car".to_vec());
    let quote = s.intern_symbol(b"quote".to_vec());
    let one = s.intern_number(1);
    let two = s.intern_number(2);
    let l = list(&mut s, &[one, two]);
    let q = list(&mut s, &[quote, l]);
    let e = list(&mut s, &[car_s, q]);
    let (io, _) = evaluate(&mut s, e, 20);
    assert!(done_check(&s, io));
    assert_eq!(num_of(&s, io.expr), 1);
}

#[test]
fn lambda_application() {
    // ((lambda (x) (* x 3)) 5) => 15
    let mut s = Store::new();
    let lam = s.intern_symbol(b"lambda".to_vec());
    let x = s.intern_symbol(b"x".to_vec());
    let star = s.intern_symbol(b"*".to_vec());
    let three = s.intern_number(3);
    let five = s.intern_number(5);
    let params = list(&mut s, &[x]);
    let body = list(&mut s, &[star, x, three]);
    let f = list(&mut s, &[lam, params, body]);
    let e = list(&mut s, &[f, five]);
    let (io, _) = evaluate(&mut s, e, 50);
    assert!(done_check(&s, io));
    assert_eq!(num_of(&s, io.expr), 15);
}

#[test]
fn numeric_equality_yields_t_or_nil() {
    let mut s = Store::new();
    let eq = s.intern_symbol(b"=".to_vec());
    let one_a = s.intern_number(1);
    let one_b = s.intern_number(1);
    let e = list(&mut s, &[eq, one_a, one_b]);
    let (io, _) = evaluate(&mut s, e, 20);
    assert!(done_check(&s, io));
    let t_sym = s.intern_symbol(b"t".to_vec());
    assert_eq!(io.expr, t_sym);
    let two = s.intern_number(2);
    let e2 = list(&mut s, &[eq, one_a, two]);
    let (io2, _) = evaluate(&mut s, e2, 20);
    assert!(done_check(&s, io2));
    assert_eq!(s.kind(io2.expr), Kind::KNil);
}

#[test]
fn program_errors_reach_the_error_continuation() {
    // Applying car to a number is a program-level error, not a host fault.
    let mut s = Store::new();
    let car_s = s.intern_symbol(b"car".to_vec());
    let five = s.intern_number(5);
    let e = list(&mut s, &[car_s, five]);
    let (io, _) = evaluate(&mut s, e, 20);
    assert!(terminal_check(&s, io));
    assert!(!done_check(&s, io));
    // So is an unbound variable.
    let y = s.intern_symbol(b"y".to_vec());
    let (io2, _) = evaluate(&mut s, y, 20);
    assert!(terminal_check(&s, io2));
    assert!(!done_check(&s, io2));
}

#[test]
fn arithmetic_is_modular() {
    let mut s = Store::new();
    let minus = s.intern_symbol(b"-".to_vec());
    let one = s.intern_number(1);
    let two = s.intern_number(2);
    let e = list(&mut s, &[minus, one, two]);
    let (io, _) = evaluate(&mut s, e, 20);
    assert!(done_check(&s, io));
    assert_eq!(num_of(&s, io.expr), fcomm::field::FIELD_MODULUS - 1);
}
