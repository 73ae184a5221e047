use fcomm::eval::{done_check, evaluate};
use fcomm::fcomm::{commit, open, prepare_input, verify_opening, Error};
use fcomm::field::Fe;
use fcomm::store::{Kind, Ptr, Store};
use fcomm::trace::{prove, verify, PublicInputs, Status};

fn list(s: &mut Store, items: &[Ptr]) -> Ptr {
    let mut tail = s.intern_nil();
    for p in items.iter().rev() {
        tail = s.cons(*p, tail);
    }
    tail
}

fn num_of(s: &Store, p: Ptr) -> u64 {
    match s.kind(p) {
        Kind::KNum(v) => v,
        _ => panic!("not a number"),
    }
}

/// Evaluate `(lambda (x) (+ x 1))` to a function value.
fn add_one_fn(s: &mut Store) -> Ptr {
    let lam = s.intern_symbol(b"lambda".to_vec());
    let x = s.intern_symbol(b"x".to_vec());
    let plus = s.intern_symbol(b"+".to_vec());
    let one = s.intern_number(1);
    let params = list(s, &[x]);
    let body = list(s, &[plus, x, one]);
    let fexpr = list(s, &[lam, params, body]);
    let (io, _) = evaluate(s, fexpr, 50);
    assert!(done_check(s, io));
    io.expr
}

#[test]
fn commitments_are_deterministic_and_hiding() {
    let mut s = Store::new();
    let f = add_one_fn(&mut s);
    let s1 = Fe::new(41);
    let s2 = Fe::new(42);
    let c1a = commit(&s, f, Some(s1));
    let c1b = commit(&s, f, Some(s1));
    let c2 = commit(&s, f, Some(s2));
    assert_eq!(c1a, c1b);
    assert_ne!(c1a, c2);
    let t1 = commit(&s, f, None);
    let t2 = commit(&s, f, None);
    assert_eq!(t1, t2);
}

#[test]
fn bare_prove_then_verify() {
    let mut s = Store::new();
    let plus = s.intern_symbol(b"+".to_vec());
    let one = s.intern_number(1);
    let two = s.intern_number(2);
    let e = list(&mut s, &[plus, one, two]);
    let (pf, io, steps) = prove(&mut s, e, 10);
    assert!(steps <= 10);
    assert_eq!(num_of(&s, io.expr), 3);
    assert_eq!(pf.frames.len(), 11);
    let pb = PublicInputs {
        input: s.hash_ptr(e),
        output: s.hash_ptr(io.expr),
        limit: 10,
        status: Status::Complete,
    };
    assert!(verify(&mut s, &pf, &pb));
}

#[test]
fn verify_rejects_a_flipped_output_bit() {
    let mut s = Store::new();
    let plus = s.intern_symbol(b"+".to_vec());
    let one = s.intern_number(1);
    let two = s.intern_number(2);
    let e = list(&mut s, &[plus, one, two]);
    let (pf, io, _) = prove(&mut s, e, 10);
    let out = s.hash_ptr(io.expr);
    let pb_good = PublicInputs {
        input: s.hash_ptr(e),
        output: out,
        limit: 10,
        status: Status::Complete,
    };
    assert!(verify(&mut s, &pf, &pb_good));
    for k in 0..8 {
        let flipped = out.repr() ^ (1u64 << k);
        if flipped < fcomm::field::FIELD_MODULUS {
            let pb_bad = PublicInputs { output: Fe::new(flipped), ..pb_good };
            assert!(!verify(&mut s, &pf, &pb_bad));
        }
    }
}

#[test]
fn proving_does_not_require_termination() {
    let mut s = Store::new();
    let plus = s.intern_symbol(b"+".to_vec());
    let one = s.intern_number(1);
    let two = s.intern_number(2);
    let e = list(&mut s, &[plus, one, two]);
    let (pf, _io, steps) = prove(&mut s, e, 2);
    assert_eq!(steps, 2);
    let f0 = pf.frames[0];
    let pb = PublicInputs {
        input: s.hash_ptr(f0.expr),
        output: s.hash_ptr(pf.frames[2].expr),
        limit: 2,
        status: Status::Incomplete,
    };
    assert!(verify(&mut s, &pf, &pb));
    let pb_wrong = PublicInputs { status: Status::Complete, ..pb };
    assert!(!verify(&mut s, &pf, &pb_wrong));
}

#[test]
fn open_add_one_to_five_end_to_end() {
    let mut s = Store::new();
    let f = add_one_fn(&mut s);
    let sec = Fe::new(977);
    let c = commit(&s, f, Some(sec));
    let input = s.intern_number(5);
    let o = open(&mut s, c, f, Some(sec), input, 100, false).expect("opening");
    assert_eq!(num_of(&s, o.output), 6);
    assert_eq!(o.commitment, c);
    // Hiding commitment: the input is not disclosed.
    assert_eq!(o.input, None);
    let v = verify_opening(&mut s, &o).expect("report");
    assert!(v.verified);
}

#[test]
fn open_discloses_input_for_transparent_commitments() {
    let mut s = Store::new();
    let f = add_one_fn(&mut s);
    let c = commit(&s, f, None);
    let input = s.intern_number(9);
    let o = open(&mut s, c, f, None, input, 100, false).expect("opening");
    assert_eq!(o.input, Some(input));
    assert_eq!(num_of(&s, o.output), 10);
}

#[test]
fn open_with_wrong_secret_is_a_commitment_mismatch() {
    let mut s = Store::new();
    let f = add_one_fn(&mut s);
    let sec = Fe::new(977);
    let c = commit(&s, f, Some(sec));
    let input = s.intern_number(5);
    let wrong = Fe::new(978);
    let r = open(&mut s, c, f, Some(wrong), input, 100, false);
    assert_eq!(r.err(), Some(Error::CommitmentMismatch));
}

#[test]
fn open_with_wrong_function_is_a_commitment_mismatch() {
    let mut s = Store::new();
    let f = add_one_fn(&mut s);
    let sec = Fe::new(977);
    let c = commit(&s, f, Some(sec));
    // A different function value.
    let lam = s.intern_symbol(b"lambda".to_vec());
    let y = s.intern_symbol(b"y".to_vec());
    let params = list(&mut s, &[y]);
    let gexpr = list(&mut s, &[lam, params, y]);
    let (gio, _) = evaluate(&mut s, gexpr, 50);
    assert!(done_check(&s, gio));
    let input = s.intern_number(5);
    let r = open(&mut s, c, gio.expr, Some(sec), input, 100, false);
    assert_eq!(r.err(), Some(Error::CommitmentMismatch));
}

#[test]
fn open_fails_when_the_limit_is_too_small() {
    let mut s = Store::new();
    let f = add_one_fn(&mut s);
    let c = commit(&s, f, None);
    let input = s.intern_number(5);
    let r = open(&mut s, c, f, None, input, 3, false);
    assert_eq!(r.err(), Some(Error::EvaluationIncomplete));
}

#[test]
fn tampered_opening_fails_verification() {
    let mut s = Store::new();
    let f = add_one_fn(&mut s);
    let sec = Fe::new(12);
    let c = commit(&s, f, Some(sec));
    let input = s.intern_number(5);
    let o = open(&mut s, c, f, Some(sec), input, 100, false).expect("opening");
    // Perturb the disclosed output term.
    let mut o2 = o;
    o2.output = s.intern_number(7);
    let v = verify_opening(&mut s, &o2).expect("report");
    assert!(!v.verified);
}

#[test]
fn chained_openings_link_through_the_successor_commitment() {
    let mut s = Store::new();
    // (lambda (x) (cons (+ x 1) (cons (lambda (y) (* y 2)) 7)))
    let lam = s.intern_symbol(b"lambda".to_vec());
    let x = s.intern_symbol(b"x".to_vec());
    let y = s.intern_symbol(b"y".to_vec());
    let plus = s.intern_symbol(b"+".to_vec());
    let star = s.intern_symbol(b"*".to_vec());
    let cons_s = s.intern_symbol(b"cons".to_vec());
    let one = s.intern_number(1);
    let two = s.intern_number(2);
    let seven = s.intern_number(7);
    let py = list(&mut s, &[y]);
    let inner_body = list(&mut s, &[star, y, two]);
    let inner = list(&mut s, &[lam, py, inner_body]);
    let second = list(&mut s, &[cons_s, inner, seven]);
    let first = list(&mut s, &[plus, x, one]);
    let body = list(&mut s, &[cons_s, first, second]);
    let px = list(&mut s, &[x]);
    let fexpr = list(&mut s, &[lam, px, body]);
    let (fio, _) = evaluate(&mut s, fexpr, 100);
    assert!(done_check(&s, fio));
    let f = fio.expr;
    let sec = Fe::new(31);
    let c1 = commit(&s, f, Some(sec));
    let input = s.intern_number(5);
    let o = open(&mut s, c1, f, Some(sec), input, 200, true).expect("chained opening");
    let c2 = o.new_commitment.expect("successor commitment");
    // The output carries (result . (successor . secret)).
    let result = s.car(o.output).unwrap();
    assert_eq!(num_of(&s, result), 6);
    let rest = s.cdr(o.output).unwrap();
    let f2 = s.car(rest).unwrap();
    let s2p = s.cdr(rest).unwrap();
    let s2 = Fe::new(num_of(&s, s2p));
    // A correct follow-up opening succeeds against the published successor
    // commitment.
    let input2 = s.intern_number(10);
    let o2 = open(&mut s, c2, f2, Some(s2), input2, 200, false).expect("follow-up");
    assert_eq!(num_of(&s, o2.output), 20);
    let v = verify_opening(&mut s, &o2).expect("report");
    assert!(v.verified);
    // A follow-up with the wrong function fails the commitment check.
    let r_bad = open(&mut s, c2, f, Some(s2), input2, 200, false);
    assert_eq!(r_bad.err(), Some(Error::CommitmentMismatch));
}

#[test]
fn transparent_commitment_is_the_structural_hash() {
    let mut s = Store::new();
    let f = add_one_fn(&mut s);
    let c = commit(&s, f, None);
    assert_eq!(c.comm.repr(), s.hash_ptr(f).repr());
}

#[test]
fn chaining_a_function_without_successor_output_is_a_type_error() {
    let mut s = Store::new();
    let f = add_one_fn(&mut s);
    let c = commit(&s, f, None);
    let input = s.intern_number(5);
    // The output (a number) does not carry a successor function.
    let r = open(&mut s, c, f, None, input, 100, true);
    assert_eq!(r.err(), Some(Error::TypeError));
}

#[test]
fn prepare_input_quotes_or_evaluates() {
    let mut s = Store::new();
    let plus = s.intern_symbol(b"+".to_vec());
    let one = s.intern_number(1);
    let two = s.intern_number(2);
    let e = list(&mut s, &[plus, one, two]);
    let evaluated = prepare_input(&mut s, e, false, 10);
    assert_eq!(num_of(&s, evaluated), 3);
    let quoted = prepare_input(&mut s, e, true, 10);
    let quote = s.intern_symbol(b"quote".to_vec());
    assert_eq!(s.car(quoted).unwrap(), quote);
}
