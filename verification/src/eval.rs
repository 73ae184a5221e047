//! Deterministic, step-bounded evaluator.
//!
//! A machine state is an IO record: an expression, an environment and a
//! continuation, all addresses into one store.  `step` is a total function
//! over well-formed states: program-level errors transition to the
//! `ErrorCont` continuation instead of raising a host fault, and terminal
//! states step to themselves, which is what lets traces be padded to a
//! fixed length.  The executable machine is verified against the
//! mathematical machine `spec_step`/`spec_run`, a pure function of the
//! store content and the state: evaluation has no hidden inputs.

use vstd::prelude::*;
use crate::field::FIELD_MODULUS;
use crate::store::{
    Entry, EntryV, Kind, Op1, Op2, Ptr, Store, SymKind, name_t, ptr_ok, spec_classify,
    spec_intern, spec_kind, store_wf, STORE_CAP,
};

verus! {

/// A machine-state snapshot: expression, environment, continuation.
#[derive(Clone, Copy, PartialEq, Eq, Structural, Debug)]
pub struct IO {
    pub expr: Ptr,
    pub env: Ptr,
    pub cont: Ptr,
}

/// All three addresses of the record exist in the store.
pub open spec fn io_ok(sv: Seq<EntryV>, io: IO) -> bool {
    &&& ptr_ok(sv, io.expr)
    &&& ptr_ok(sv, io.env)
    &&& ptr_ok(sv, io.cont)
}

/// The state is finished: its continuation is Terminal or ErrorCont.
pub open spec fn is_terminal(sv: Seq<EntryV>, io: IO) -> bool {
    match sv[io.cont.idx as int] {
        EntryV::Terminal => true,
        EntryV::ErrorCont => true,
        _ => false,
    }
}

/// The state finished without a program-level error.
pub open spec fn is_done(sv: Seq<EntryV>, io: IO) -> bool {
    match sv[io.cont.idx as int] {
        EntryV::Terminal => true,
        _ => false,
    }
}

/// Binary arithmetic on reduced field elements.
pub open spec fn spec_op2(op: Op2, x: u64, y: u64) -> u64 {
    match op {
        Op2::Sum => ((x as int + y as int) % (FIELD_MODULUS as int)) as u64,
        Op2::Diff => ((x as int + FIELD_MODULUS as int - y as int) % (FIELD_MODULUS as int)) as u64,
        Op2::Product => ((x as int * y as int) % (FIELD_MODULUS as int)) as u64,
        _ => 0u64,
    }
}

/// Transition into the error continuation, keeping the offending state.
pub open spec fn spec_error(sv: Seq<EntryV>, io: IO) -> (Seq<EntryV>, IO) {
    let (sv1, ek) = spec_intern(sv, EntryV::ErrorCont);
    (sv1, IO { expr: io.expr, env: io.env, cont: ek })
}

/// Hand the value `v` to the continuation `cont` on the next step, by
/// wrapping it in a thunk.
pub open spec fn spec_deliver(sv: Seq<EntryV>, v: Ptr, env: Ptr, cont: Ptr) -> (Seq<EntryV>, IO) {
    let (sv1, t) = spec_intern(sv, EntryV::Thunk(v, cont));
    (sv1, IO { expr: t, env, cont })
}

/// Look a symbol up in a lexical environment: a chain of
/// `((symbol . value) . parent)` pairs ending in Nil.
pub open spec fn spec_lookup(sv: Seq<EntryV>, target: Ptr, env: Ptr) -> Option<Ptr>
    decreases env.idx,
    when store_wf(sv) && ptr_ok(sv, env)
{
    match sv[env.idx as int] {
        EntryV::Pair(b, parent) => match sv[b.idx as int] {
            EntryV::Pair(sy, v) => if sy == target {
                Option::Some(v)
            } else {
                spec_lookup(sv, target, parent)
            },
            _ => Option::None,
        },
        _ => Option::None,
    }
}

/// Apply the continuation `cont` to the value `v`.
pub open spec fn spec_apply(sv: Seq<EntryV>, v: Ptr, env: Ptr, cont: Ptr) -> (Seq<EntryV>, IO) {
    let io_here = IO { expr: v, env, cont };
    match sv[cont.idx as int] {
        EntryV::Outermost => {
            let (sv1, t) = spec_intern(sv, EntryV::Terminal);
            (sv1, IO { expr: v, env, cont: t })
        },
        EntryV::CallK(arg, cenv, next) => match sv[v.idx as int] {
            EntryV::Fun(_, _, _) => {
                let (sv1, k2) = spec_intern(sv, EntryV::Call2K(v, next));
                (sv1, IO { expr: arg, env: cenv, cont: k2 })
            },
            _ => spec_error(sv, io_here),
        },
        EntryV::Call2K(f, next) => match sv[f.idx as int] {
            EntryV::Fun(param, body, fenv) => {
                let (sv1, b1) = spec_intern(sv, EntryV::Pair(param, v));
                let (sv2, e2) = spec_intern(sv1, EntryV::Pair(b1, fenv));
                (sv2, IO { expr: body, env: e2, cont: next })
            },
            _ => spec_error(sv, io_here),
        },
        EntryV::IfK(tb, eb, ienv, next) => match sv[v.idx as int] {
            EntryV::Nil => (sv, IO { expr: eb, env: ienv, cont: next }),
            _ => (sv, IO { expr: tb, env: ienv, cont: next }),
        },
        EntryV::Binop1K(op, b, benv, next) => {
            let (sv1, k2) = spec_intern(sv, EntryV::Binop2K(op, v, next));
            (sv1, IO { expr: b, env: benv, cont: k2 })
        },
        EntryV::Binop2K(op, a, next) => {
            if op == Op2::MakeCons {
                let (sv1, p) = spec_intern(sv, EntryV::Pair(a, v));
                spec_deliver(sv1, p, env, next)
            } else {
                match (sv[a.idx as int], sv[v.idx as int]) {
                    (EntryV::Num(x), EntryV::Num(y)) => {
                        if op == Op2::NumEqual {
                            if x == y {
                                let (sv1, tv) = spec_intern(sv, EntryV::Sym(name_t()));
                                spec_deliver(sv1, tv, env, next)
                            } else {
                                let (sv1, nv) = spec_intern(sv, EntryV::Nil);
                                spec_deliver(sv1, nv, env, next)
                            }
                        } else {
                            let (sv1, np) = spec_intern(sv, EntryV::Num(spec_op2(op, x, y)));
                            spec_deliver(sv1, np, env, next)
                        }
                    },
                    _ => spec_error(sv, io_here),
                }
            }
        },
        EntryV::Unop1K(op, next) => match sv[v.idx as int] {
            EntryV::Pair(x, y) => {
                if op == Op1::Car {
                    spec_deliver(sv, x, env, next)
                } else {
                    spec_deliver(sv, y, env, next)
                }
            },
            _ => spec_error(sv, io_here),
        },
        _ => (sv, io_here),
    }
}

/// Reduce a compound expression `(h . rest)`.
pub open spec fn spec_eval_pair(sv: Seq<EntryV>, io: IO, h: Ptr, rest: Ptr) -> (Seq<EntryV>, IO) {
    let head_sym = match sv[h.idx as int] {
        EntryV::Sym(n) => spec_classify(n),
        _ => SymKind::Other,
    };
    let is_special = match sv[h.idx as int] {
        EntryV::Sym(_) => head_sym != SymKind::NilName && head_sym != SymKind::TName && head_sym
            != SymKind::Other,
        _ => false,
    };
    if is_special {
        match head_sym {
            SymKind::Quote => match sv[rest.idx as int] {
                EntryV::Pair(x, r2) => match sv[r2.idx as int] {
                    EntryV::Nil => spec_deliver(sv, x, io.env, io.cont),
                    _ => spec_error(sv, io),
                },
                _ => spec_error(sv, io),
            },
            SymKind::Lambda => match sv[rest.idx as int] {
                EntryV::Pair(params, r2) => match sv[r2.idx as int] {
                    EntryV::Pair(body, r3) => match (sv[r3.idx as int], sv[params.idx as int]) {
                        (EntryV::Nil, EntryV::Pair(p, r4)) => match (
                            sv[r4.idx as int],
                            sv[p.idx as int],
                        ) {
                            (EntryV::Nil, EntryV::Sym(_)) => {
                                let (sv1, f) = spec_intern(sv, EntryV::Fun(p, body, io.env));
                                spec_deliver(sv1, f, io.env, io.cont)
                            },
                            _ => spec_error(sv, io),
                        },
                        _ => spec_error(sv, io),
                    },
                    _ => spec_error(sv, io),
                },
                _ => spec_error(sv, io),
            },
            SymKind::If => match sv[rest.idx as int] {
                EntryV::Pair(c, r2) => match sv[r2.idx as int] {
                    EntryV::Pair(tb, r3) => match sv[r3.idx as int] {
                        EntryV::Pair(eb, r4) => match sv[r4.idx as int] {
                            EntryV::Nil => {
                                let (sv1, k) = spec_intern(
                                    sv,
                                    EntryV::IfK(tb, eb, io.env, io.cont),
                                );
                                (sv1, IO { expr: c, env: io.env, cont: k })
                            },
                            _ => spec_error(sv, io),
                        },
                        _ => spec_error(sv, io),
                    },
                    _ => spec_error(sv, io),
                },
                _ => spec_error(sv, io),
            },
            SymKind::OpCar | SymKind::OpCdr => {
                let op = if head_sym == SymKind::OpCar {
                    Op1::Car
                } else {
                    Op1::Cdr
                };
                match sv[rest.idx as int] {
                    EntryV::Pair(a, r2) => match sv[r2.idx as int] {
                        EntryV::Nil => {
                            let (sv1, k) = spec_intern(sv, EntryV::Unop1K(op, io.cont));
                            (sv1, IO { expr: a, env: io.env, cont: k })
                        },
                        _ => spec_error(sv, io),
                    },
                    _ => spec_error(sv, io),
                }
            },
            _ => {
                let op = if head_sym == SymKind::OpSum {
                    Op2::Sum
                } else if head_sym == SymKind::OpDiff {
                    Op2::Diff
                } else if head_sym == SymKind::OpProd {
                    Op2::Product
                } else if head_sym == SymKind::OpNumEq {
                    Op2::NumEqual
                } else {
                    Op2::MakeCons
                };
                match sv[rest.idx as int] {
                    EntryV::Pair(a, r2) => match sv[r2.idx as int] {
                        EntryV::Pair(b, r3) => match sv[r3.idx as int] {
                            EntryV::Nil => {
                                let (sv1, k) = spec_intern(
                                    sv,
                                    EntryV::Binop1K(op, b, io.env, io.cont),
                                );
                                (sv1, IO { expr: a, env: io.env, cont: k })
                            },
                            _ => spec_error(sv, io),
                        },
                        _ => spec_error(sv, io),
                    },
                    _ => spec_error(sv, io),
                }
            },
        }
    } else {
        // Application of an evaluated operator to one argument.
        match sv[rest.idx as int] {
            EntryV::Pair(arg, r2) => match sv[r2.idx as int] {
                EntryV::Nil => {
                    let (sv1, k) = spec_intern(sv, EntryV::CallK(arg, io.env, io.cont));
                    (sv1, IO { expr: h, env: io.env, cont: k })
                },
                _ => spec_error(sv, io),
            },
            _ => spec_error(sv, io),
        }
    }
}

/// One transition of the machine.  Total: terminal states are fixed
/// points, and every program-level fault lands in the error continuation.
pub open spec fn spec_step(sv: Seq<EntryV>, io: IO) -> (Seq<EntryV>, IO) {
    if is_terminal(sv, io) {
        (sv, io)
    } else {
        match sv[io.expr.idx as int] {
            EntryV::Thunk(v, c) => spec_apply(sv, v, io.env, c),
            EntryV::Nil => spec_deliver(sv, io.expr, io.env, io.cont),
            EntryV::Num(_) => spec_deliver(sv, io.expr, io.env, io.cont),
            EntryV::Fun(_, _, _) => spec_deliver(sv, io.expr, io.env, io.cont),
            EntryV::Sym(n) => {
                let k = spec_classify(n);
                if k == SymKind::NilName {
                    let (sv1, nil) = spec_intern(sv, EntryV::Nil);
                    spec_deliver(sv1, nil, io.env, io.cont)
                } else if k == SymKind::TName {
                    spec_deliver(sv, io.expr, io.env, io.cont)
                } else if k == SymKind::Other {
                    match spec_lookup(sv, io.expr, io.env) {
                        Option::Some(v) => spec_deliver(sv, v, io.env, io.cont),
                        Option::None => spec_error(sv, io),
                    }
                } else {
                    spec_error(sv, io)
                }
            },
            EntryV::Pair(h, rest) => spec_eval_pair(sv, io, h, rest),
            _ => spec_error(sv, io),
        }
    }
}

/// Run the machine for at most `fuel` transitions, stopping early at a
/// terminal state; the third component counts the steps actually used.
pub open spec fn spec_run(sv: Seq<EntryV>, io: IO, fuel: nat) -> (Seq<EntryV>, IO, nat)
    decreases fuel,
{
    if fuel == 0 || is_terminal(sv, io) {
        (sv, io, 0)
    } else {
        let (sv1, io1) = spec_step(sv, io);
        let r = spec_run(sv1, io1, (fuel - 1) as nat);
        (r.0, r.1, (r.2 + 1) as nat)
    }
}

/// The initial machine state for an expression: the empty environment
/// under the outermost continuation.
pub open spec fn spec_init(sv: Seq<EntryV>, expr: Ptr) -> (Seq<EntryV>, IO) {
    let (sv1, nil) = spec_intern(sv, EntryV::Nil);
    let (sv2, outer) = spec_intern(sv1, EntryV::Outermost);
    (sv2, IO { expr, env: nil, cont: outer })
}

/// Evaluation from scratch: the expression in the empty environment under
/// the outermost continuation.
pub open spec fn spec_evaluate(sv: Seq<EntryV>, expr: Ptr, limit: nat) -> (Seq<EntryV>, IO, nat) {
    let (sv2, io0) = spec_init(sv, expr);
    spec_run(sv2, io0, limit)
}

fn error_state(s: &mut Store, io: IO) -> (r: IO)
    requires
        store_wf(old(s).sview()),
        io_ok(old(s).sview(), io),
        old(s).sview().len() < STORE_CAP,
    ensures
        store_wf(final(s).sview()),
        (final(s).sview(), r) == spec_error(old(s).sview(), io),
        io_ok(final(s).sview(), r),
        old(s).sview().is_prefix_of(final(s).sview()),
        final(s).sview().len() <= old(s).sview().len() + 1,
{
    let ek = s.intern(Entry::ErrorCont);
    IO { expr: io.expr, env: io.env, cont: ek }
}

fn deliver(s: &mut Store, v: Ptr, env: Ptr, cont: Ptr) -> (r: IO)
    requires
        store_wf(old(s).sview()),
        ptr_ok(old(s).sview(), v),
        ptr_ok(old(s).sview(), env),
        ptr_ok(old(s).sview(), cont),
        old(s).sview().len() < STORE_CAP,
    ensures
        store_wf(final(s).sview()),
        (final(s).sview(), r) == spec_deliver(old(s).sview(), v, env, cont),
        io_ok(final(s).sview(), r),
        old(s).sview().is_prefix_of(final(s).sview()),
        final(s).sview().len() <= old(s).sview().len() + 1,
{
    let t = s.intern(Entry::Thunk(v, cont));
    IO { expr: t, env, cont }
}

/// Look a symbol up in an environment at run time.
pub fn lookup(s: &Store, target: Ptr, env: Ptr) -> (r: Option<Ptr>)
    requires
        store_wf(s.sview()),
        ptr_ok(s.sview(), env),
    ensures
        r == spec_lookup(s.sview(), target, env),
        match r {
            Option::Some(v) => ptr_ok(s.sview(), v),
            Option::None => true,
        },
    decreases env.idx,
{
    match s.kind(env) {
        Kind::KPair(b, parent) => {
            match s.kind(b) {
                Kind::KPair(sy, v) => {
                    if sy == target {
                        Some(v)
                    } else {
                        lookup(s, target, parent)
                    }
                },
                _ => None,
            }
        },
        _ => None,
    }
}

fn apply_cont(s: &mut Store, v: Ptr, env: Ptr, cont: Ptr) -> (r: IO)
    requires
        store_wf(old(s).sview()),
        ptr_ok(old(s).sview(), v),
        ptr_ok(old(s).sview(), env),
        ptr_ok(old(s).sview(), cont),
        old(s).sview().len() + 2 <= STORE_CAP,
    ensures
        store_wf(final(s).sview()),
        (final(s).sview(), r) == spec_apply(old(s).sview(), v, env, cont),
        io_ok(final(s).sview(), r),
        old(s).sview().is_prefix_of(final(s).sview()),
        final(s).sview().len() <= old(s).sview().len() + 2,
{
    let io_here = IO { expr: v, env, cont };
    match s.kind(cont) {
        Kind::KOuter => {
            let t = s.intern(Entry::Terminal);
            IO { expr: v, env, cont: t }
        },
        Kind::KCall(arg, cenv, next) => {
            match s.kind(v) {
                Kind::KFun(_, _, _) => {
                    let k2 = s.intern(Entry::Call2K(v, next));
                    IO { expr: arg, env: cenv, cont: k2 }
                },
                _ => error_state(s, io_here),
            }
        },
        Kind::KCall2(f, next) => {
            match s.kind(f) {
                Kind::KFun(param, body, fenv) => {
                    let b1 = s.intern(Entry::Pair(param, v));
                    let e2 = s.intern(Entry::Pair(b1, fenv));
                    IO { expr: body, env: e2, cont: next }
                },
                _ => error_state(s, io_here),
            }
        },
        Kind::KIf(tb, eb, ienv, next) => {
            match s.kind(v) {
                Kind::KNil => IO { expr: eb, env: ienv, cont: next },
                _ => IO { expr: tb, env: ienv, cont: next },
            }
        },
        Kind::KBinop1(op, b, benv, next) => {
            let k2 = s.intern(Entry::Binop2K(op, v, next));
            IO { expr: b, env: benv, cont: k2 }
        },
        Kind::KBinop2(op, a, next) => {
            if op == Op2::MakeCons {
                let p = s.intern(Entry::Pair(a, v));
                deliver(s, p, env, next)
            } else {
                match (s.kind(a), s.kind(v)) {
                    (Kind::KNum(x), Kind::KNum(y)) => {
                        if op == Op2::NumEqual {
                            if x == y {
                                let mut tn: Vec<u8> = Vec::new();
                                tn.push(116);
                                proof {
                                    assert(tn@ =~= name_t());
                                }
                                let tv = s.intern(Entry::Sym(tn));
                                deliver(s, tv, env, next)
                            } else {
                                let nv = s.intern(Entry::Nil);
                                deliver(s, nv, env, next)
                            }
                        } else {
                            proof {
                                assert(x < FIELD_MODULUS);
                                assert(y < FIELD_MODULUS);
                            }
                            let fx = crate::field::Fe::new(x);
                            let fy = crate::field::Fe::new(y);
                            let rz = if op == Op2::Sum {
                                fx.add(fy)
                            } else if op == Op2::Diff {
                                fx.sub(fy)
                            } else {
                                fx.mul(fy)
                            };
                            let rv = rz.repr();
                            proof {
                                assert(rv == spec_op2(op, x, y));
                            }
                            let np = s.intern(Entry::Num(rv));
                            deliver(s, np, env, next)
                        }
                    },
                    _ => error_state(s, io_here),
                }
            }
        },
        Kind::KUnop(op, next) => {
            match s.kind(v) {
                Kind::KPair(x, y) => {
                    if op == Op1::Car {
                        deliver(s, x, env, next)
                    } else {
                        deliver(s, y, env, next)
                    }
                },
                _ => error_state(s, io_here),
            }
        },
        _ => io_here,
    }
}

fn eval_pair(s: &mut Store, io: IO, h: Ptr, rest: Ptr) -> (r: IO)
    requires
        store_wf(old(s).sview()),
        io_ok(old(s).sview(), io),
        ptr_ok(old(s).sview(), h),
        ptr_ok(old(s).sview(), rest),
        old(s).sview().len() + 2 <= STORE_CAP,
    ensures
        store_wf(final(s).sview()),
        (final(s).sview(), r) == spec_eval_pair(old(s).sview(), io, h, rest),
        io_ok(final(s).sview(), r),
        old(s).sview().is_prefix_of(final(s).sview()),
        final(s).sview().len() <= old(s).sview().len() + 2,
{
    let hk = s.kind(h);
    match hk {
        Kind::KSym(sk) if sk != SymKind::NilName && sk != SymKind::TName && sk
            != SymKind::Other => {
            match sk {
                SymKind::Quote => {
                    match s.kind(rest) {
                        Kind::KPair(x, r2) => {
                            match s.kind(r2) {
                                Kind::KNil => deliver(s, x, io.env, io.cont),
                                _ => error_state(s, io),
                            }
                        },
                        _ => error_state(s, io),
                    }
                },
                SymKind::Lambda => {
                    match s.kind(rest) {
                        Kind::KPair(params, r2) => {
                            match s.kind(r2) {
                                Kind::KPair(body, r3) => {
                                    match (s.kind(r3), s.kind(params)) {
                                        (Kind::KNil, Kind::KPair(p, r4)) => {
                                            match (s.kind(r4), s.kind(p)) {
                                                (Kind::KNil, Kind::KSym(_)) => {
                                                    let f = s.intern(
                                                        Entry::Fun(p, body, io.env),
                                                    );
                                                    deliver(s, f, io.env, io.cont)
                                                },
                                                _ => error_state(s, io),
                                            }
                                        },
                                        _ => error_state(s, io),
                                    }
                                },
                                _ => error_state(s, io),
                            }
                        },
                        _ => error_state(s, io),
                    }
                },
                SymKind::If => {
                    match s.kind(rest) {
                        Kind::KPair(c, r2) => {
                            match s.kind(r2) {
                                Kind::KPair(tb, r3) => {
                                    match s.kind(r3) {
                                        Kind::KPair(eb, r4) => {
                                            match s.kind(r4) {
                                                Kind::KNil => {
                                                    let k = s.intern(
                                                        Entry::IfK(tb, eb, io.env, io.cont),
                                                    );
                                                    IO { expr: c, env: io.env, cont: k }
                                                },
                                                _ => error_state(s, io),
                                            }
                                        },
                                        _ => error_state(s, io),
                                    }
                                },
                                _ => error_state(s, io),
                            }
                        },
                        _ => error_state(s, io),
                    }
                },
                SymKind::OpCar | SymKind::OpCdr => {
                    let op = if sk == SymKind::OpCar {
                        Op1::Car
                    } else {
                        Op1::Cdr
                    };
                    match s.kind(rest) {
                        Kind::KPair(a, r2) => {
                            match s.kind(r2) {
                                Kind::KNil => {
                                    let k = s.intern(Entry::Unop1K(op, io.cont));
                                    IO { expr: a, env: io.env, cont: k }
                                },
                                _ => error_state(s, io),
                            }
                        },
                        _ => error_state(s, io),
                    }
                },
                _ => {
                    let op = if sk == SymKind::OpSum {
                        Op2::Sum
                    } else if sk == SymKind::OpDiff {
                        Op2::Diff
                    } else if sk == SymKind::OpProd {
                        Op2::Product
                    } else if sk == SymKind::OpNumEq {
                        Op2::NumEqual
                    } else {
                        Op2::MakeCons
                    };
                    match s.kind(rest) {
                        Kind::KPair(a, r2) => {
                            match s.kind(r2) {
                                Kind::KPair(b, r3) => {
                                    match s.kind(r3) {
                                        Kind::KNil => {
                                            let k = s.intern(
                                                Entry::Binop1K(op, b, io.env, io.cont),
                                            );
                                            IO { expr: a, env: io.env, cont: k }
                                        },
                                        _ => error_state(s, io),
                                    }
                                },
                                _ => error_state(s, io),
                            }
                        },
                        _ => error_state(s, io),
                    }
                },
            }
        },
        _ => {
            match s.kind(rest) {
                Kind::KPair(arg, r2) => {
                    match s.kind(r2) {
                        Kind::KNil => {
                            let k = s.intern(Entry::CallK(arg, io.env, io.cont));
                            IO { expr: h, env: io.env, cont: k }
                        },
                        _ => error_state(s, io),
                    }
                },
                _ => error_state(s, io),
            }
        },
    }
}

/// One verified transition of the machine.
pub fn step(s: &mut Store, io: IO) -> (r: IO)
    requires
        store_wf(old(s).sview()),
        io_ok(old(s).sview(), io),
        old(s).sview().len() + 2 <= STORE_CAP,
    ensures
        store_wf(final(s).sview()),
        (final(s).sview(), r) == spec_step(old(s).sview(), io),
        io_ok(final(s).sview(), r),
        old(s).sview().is_prefix_of(final(s).sview()),
        final(s).sview().len() <= old(s).sview().len() + 2,
{
    let ck = s.kind(io.cont);
    match ck {
        Kind::KTerminal => {
            return io;
        },
        Kind::KErr => {
            return io;
        },
        _ => {},
    }
    let ek = s.kind(io.expr);
    match ek {
        Kind::KThunk(v, c) => apply_cont(s, v, io.env, c),
        Kind::KNil => deliver(s, io.expr, io.env, io.cont),
        Kind::KNum(_) => deliver(s, io.expr, io.env, io.cont),
        Kind::KFun(_, _, _) => deliver(s, io.expr, io.env, io.cont),
        Kind::KSym(sk) => {
            if sk == SymKind::NilName {
                let nil = s.intern(Entry::Nil);
                deliver(s, nil, io.env, io.cont)
            } else if sk == SymKind::TName {
                deliver(s, io.expr, io.env, io.cont)
            } else if sk == SymKind::Other {
                match lookup(s, io.expr, io.env) {
                    Some(v) => deliver(s, v, io.env, io.cont),
                    None => error_state(s, io),
                }
            } else {
                error_state(s, io)
            }
        },
        Kind::KPair(h, rest) => eval_pair(s, io, h, rest),
        _ => error_state(s, io),
    }
}

/// Whether the state is finished (Terminal or ErrorCont).
pub fn terminal_check(s: &Store, io: IO) -> (b: bool)
    requires
        ptr_ok(s.sview(), io.cont),
    ensures
        b == is_terminal(s.sview(), io),
{
    match s.kind(io.cont) {
        Kind::KTerminal => true,
        Kind::KErr => true,
        _ => false,
    }
}

/// Whether the state finished without a program-level error.
pub fn done_check(s: &Store, io: IO) -> (b: bool)
    requires
        ptr_ok(s.sview(), io.cont),
    ensures
        b == is_done(s.sview(), io),
{
    match s.kind(io.cont) {
        Kind::KTerminal => true,
        _ => false,
    }
}

/// Evaluate an expression: from the empty environment under the outermost
/// continuation, apply `step` until the continuation is terminal or
/// `limit` steps have been used, whichever comes first.  Returns the state
/// reached either way — callers must inspect the continuation to know
/// whether evaluation completed — together with the steps actually used.
pub fn evaluate(s: &mut Store, expr: Ptr, limit: usize) -> (r: (IO, usize))
    requires
        store_wf(old(s).sview()),
        ptr_ok(old(s).sview(), expr),
        old(s).sview().len() + 2 * (limit as int) + 2 <= STORE_CAP,
    ensures
        store_wf(final(s).sview()),
        (final(s).sview(), r.0, r.1 as nat) == spec_evaluate(
            old(s).sview(),
            expr,
            limit as nat,
        ),
        io_ok(final(s).sview(), r.0),
        old(s).sview().is_prefix_of(final(s).sview()),
        r.1 <= limit,
        is_terminal(final(s).sview(), r.0) || r.1 == limit,
{
    let envp = s.intern(Entry::Nil);
    let outer = s.intern(Entry::Outermost);
    let ghost sv2 = s.sview();
    let io0 = IO { expr, env: envp, cont: outer };
    let mut io = io0;
    let mut steps: usize = 0;
    let mut fin = terminal_check(s, io);
    while steps < limit && !fin
        invariant
            store_wf(s.sview()),
            io_ok(s.sview(), io),
            steps <= limit,
            fin == is_terminal(s.sview(), io),
            sv2.is_prefix_of(s.sview()),
            s.sview().len() + 2 * ((limit - steps) as int) <= STORE_CAP,
            spec_run(sv2, io0, limit as nat).0 == spec_run(
                s.sview(),
                io,
                (limit - steps) as nat,
            ).0,
            spec_run(sv2, io0, limit as nat).1 == spec_run(
                s.sview(),
                io,
                (limit - steps) as nat,
            ).1,
            spec_run(sv2, io0, limit as nat).2 == steps + spec_run(
                s.sview(),
                io,
                (limit - steps) as nat,
            ).2,
        decreases limit - steps,
    {
        io = step(s, io);
        steps += 1;
        fin = terminal_check(s, io);
    }
    (io, steps)
}

/// Monotonicity of bounded running: once the machine reaches a terminal
/// state in `k` steps, any fuel of at least `k` gives the identical result.
pub proof fn lemma_run_monotonic(sv: Seq<EntryV>, io: IO, l1: nat, l2: nat)
    requires
        is_terminal(spec_run(sv, io, l1).0, spec_run(sv, io, l1).1),
        spec_run(sv, io, l1).2 <= l2,
    ensures
        spec_run(sv, io, l2) == spec_run(sv, io, l1),
    decreases l1,
{
    if is_terminal(sv, io) {
    } else if l1 == 0 {
        assert(false);
    } else {
        let svx = spec_step(sv, io).0;
        let iox = spec_step(sv, io).1;
        lemma_run_monotonic(svx, iox, (l1 - 1) as nat, (l2 - 1) as nat);
    }
}

/// Monotonicity of evaluation: if evaluating `expr` with limit `l1`
/// terminates after `k` steps, then evaluating with any limit of at least
/// `k` yields the identical store, IO record and step count.
pub proof fn lemma_evaluate_monotonic(sv: Seq<EntryV>, expr: Ptr, l1: nat, l2: nat)
    requires
        is_terminal(spec_evaluate(sv, expr, l1).0, spec_evaluate(sv, expr, l1).1),
        spec_evaluate(sv, expr, l1).2 <= l2,
    ensures
        spec_evaluate(sv, expr, l2) == spec_evaluate(sv, expr, l1),
{
    let (sv1, nil) = spec_intern(sv, EntryV::Nil);
    let (sv2, outer) = spec_intern(sv1, EntryV::Outermost);
    lemma_run_monotonic(sv2, IO { expr, env: nil, cont: outer }, l1, l2);
}

/// Iterate the machine unconditionally: terminal states are fixed points,
/// so this is bounded running with identity padding after the end.
pub open spec fn spec_iter(sv: Seq<EntryV>, io: IO, n: nat) -> (Seq<EntryV>, IO)
    decreases n,
{
    if n == 0 {
        (sv, io)
    } else {
        let (sv1, io1) = spec_step(sv, io);
        spec_iter(sv1, io1, (n - 1) as nat)
    }
}

/// Iteration unfolds from the back as well.
pub proof fn lemma_iter_snoc(sv: Seq<EntryV>, io: IO, n: nat)
    ensures
        spec_iter(sv, io, n + 1) == spec_step(spec_iter(sv, io, n).0, spec_iter(sv, io, n).1),
    decreases n,
{
    let sv1 = spec_step(sv, io).0;
    let io1 = spec_step(sv, io).1;
    assert(spec_iter(sv, io, n + 1) == spec_iter(sv1, io1, n));
    assert(spec_iter(sv, io, n) == if n == 0 {
        (sv, io)
    } else {
        spec_iter(sv1, io1, (n - 1) as nat)
    });
    if n == 0 {
        assert(spec_iter(sv1, io1, 0) == (sv1, io1));
    } else {
        lemma_iter_snoc(sv1, io1, (n - 1) as nat);
    }
}

/// Iteration composes additively.
pub proof fn lemma_iter_add(sv: Seq<EntryV>, io: IO, m: nat, k: nat)
    ensures
        spec_iter(sv, io, m + k) == spec_iter(spec_iter(sv, io, m).0, spec_iter(sv, io, m).1, k),
    decreases m,
{
    if m == 0 {
    } else {
        lemma_iter_add(spec_step(sv, io).0, spec_step(sv, io).1, (m - 1) as nat, k);
    }
}

/// Bounded running agrees with unconditional iteration on store and state.
pub proof fn lemma_run_iter(sv: Seq<EntryV>, io: IO, fuel: nat)
    ensures
        spec_run(sv, io, fuel).0 == spec_iter(sv, io, fuel).0,
        spec_run(sv, io, fuel).1 == spec_iter(sv, io, fuel).1,
    decreases fuel,
{
    if fuel == 0 {
    } else if is_terminal(sv, io) {
        lemma_run_iter(sv, io, (fuel - 1) as nat);
    } else {
        lemma_run_iter(spec_step(sv, io).0, spec_step(sv, io).1, (fuel - 1) as nat);
    }
}

/// Iteration preserves well-formedness and only appends to the store.
pub proof fn lemma_iter_props(sv: Seq<EntryV>, io: IO, n: nat)
    requires
        store_wf(sv),
        io_ok(sv, io),
        sv.len() + 2 * n <= STORE_CAP,
    ensures
        store_wf(spec_iter(sv, io, n).0),
        io_ok(spec_iter(sv, io, n).0, spec_iter(sv, io, n).1),
        sv.is_prefix_of(spec_iter(sv, io, n).0),
        spec_iter(sv, io, n).0.len() <= sv.len() + 2 * n,
    decreases n,
{
    crate::store::lemma_prefix_refl(sv);
    if n == 0 {
    } else {
        lemma_step_props(sv, io);
        lemma_iter_props(spec_step(sv, io).0, spec_step(sv, io).1, (n - 1) as nat);
        crate::store::lemma_prefix_trans(sv, spec_step(sv, io).0, spec_iter(sv, io, n).0);
    }
}

/// Bounded running preserves well-formedness, only appends, and uses at
/// most `fuel` steps.
pub proof fn lemma_run_props(sv: Seq<EntryV>, io: IO, fuel: nat)
    requires
        store_wf(sv),
        io_ok(sv, io),
        sv.len() + 2 * fuel <= STORE_CAP,
    ensures
        store_wf(spec_run(sv, io, fuel).0),
        io_ok(spec_run(sv, io, fuel).0, spec_run(sv, io, fuel).1),
        sv.is_prefix_of(spec_run(sv, io, fuel).0),
        spec_run(sv, io, fuel).0.len() <= sv.len() + 2 * fuel,
        spec_run(sv, io, fuel).2 <= fuel,
    decreases fuel,
{
    crate::store::lemma_prefix_refl(sv);
    if fuel == 0 || is_terminal(sv, io) {
    } else {
        lemma_step_props(sv, io);
        lemma_run_props(spec_step(sv, io).0, spec_step(sv, io).1, (fuel - 1) as nat);
        crate::store::lemma_prefix_trans(sv, spec_step(sv, io).0, spec_run(sv, io, fuel).0);
    }
}

/// Bounded running is stable under store growth: in any well-formed
/// extension holding everything the run interned, the run yields the same
/// state and step count and allocates nothing.
pub proof fn lemma_run_stable(sv: Seq<EntryV>, svbig: Seq<EntryV>, io: IO, fuel: nat)
    requires
        store_wf(sv),
        io_ok(sv, io),
        sv.len() + 2 * fuel <= STORE_CAP,
        store_wf(svbig),
        spec_run(sv, io, fuel).0.is_prefix_of(svbig),
    ensures
        spec_run(svbig, io, fuel) == (svbig, spec_run(sv, io, fuel).1, spec_run(sv, io, fuel).2),
    decreases fuel,
{
    lemma_run_props(sv, io, fuel);
    crate::store::lemma_prefix_trans(sv, spec_run(sv, io, fuel).0, svbig);
    crate::store::lemma_prefix_index(sv, svbig, io.cont.idx as int);
    if fuel == 0 || is_terminal(sv, io) {
    } else {
        lemma_step_props(sv, io);
        lemma_run_props(spec_step(sv, io).0, spec_step(sv, io).1, (fuel - 1) as nat);
        lemma_step_stable(sv, svbig, io);
        lemma_run_stable(spec_step(sv, io).0, svbig, spec_step(sv, io).1, (fuel - 1) as nat);
    }
}

/// Determinism: evaluating the same expression with the same limit twice,
/// the second run from the store the first one left behind, yields the
/// identical IO record and step count, and adds nothing to the store.
pub proof fn lemma_evaluate_deterministic(sv: Seq<EntryV>, expr: Ptr, limit: nat)
    requires
        store_wf(sv),
        ptr_ok(sv, expr),
        sv.len() + 2 * limit + 2 <= STORE_CAP,
    ensures
        spec_evaluate(spec_evaluate(sv, expr, limit).0, expr, limit) == spec_evaluate(
            sv,
            expr,
            limit,
        ),
{
    let sv1 = spec_intern(sv, EntryV::Nil).0;
    let nil = spec_intern(sv, EntryV::Nil).1;
    crate::store::lemma_intern_props(sv, EntryV::Nil);
    let sv2 = spec_intern(sv1, EntryV::Outermost).0;
    let outer = spec_intern(sv1, EntryV::Outermost).1;
    crate::store::lemma_intern_props(sv1, EntryV::Outermost);
    let io0 = IO { expr, env: nil, cont: outer };
    let rr = spec_run(sv2, io0, limit);
    lemma_run_props(sv2, io0, limit);
    crate::store::lemma_prefix_trans(sv1, sv2, rr.0);
    crate::store::lemma_intern_stable(sv, rr.0, EntryV::Nil);
    crate::store::lemma_intern_stable(sv1, rr.0, EntryV::Outermost);
    crate::store::lemma_prefix_refl(rr.0);
    lemma_run_stable(sv2, rr.0, io0, limit);
}

/// A successful lookup returns an existing address.
pub proof fn lemma_lookup_ok(sv: Seq<EntryV>, target: Ptr, env: Ptr)
    requires
        store_wf(sv),
        ptr_ok(sv, env),
    ensures
        match spec_lookup(sv, target, env) {
            Option::Some(v) => ptr_ok(sv, v),
            Option::None => true,
        },
    decreases env.idx,
{
    match sv[env.idx as int] {
        EntryV::Pair(b, parent) => {
            match sv[b.idx as int] {
                EntryV::Pair(sy, v) => {
                    if sy != target {
                        lemma_lookup_ok(sv, target, parent);
                    }
                },
                _ => {},
            }
        },
        _ => {},
    }
}

/// Lookup reads only existing entries, so it is stable under store growth.
pub proof fn lemma_lookup_stable(sv: Seq<EntryV>, svbig: Seq<EntryV>, target: Ptr, env: Ptr)
    requires
        store_wf(sv),
        store_wf(svbig),
        sv.is_prefix_of(svbig),
        ptr_ok(sv, env),
    ensures
        spec_lookup(svbig, target, env) == spec_lookup(sv, target, env),
    decreases env.idx,
{
    crate::store::lemma_prefix_index(sv, svbig, env.idx as int);
    match sv[env.idx as int] {
        EntryV::Pair(b, parent) => {
            crate::store::lemma_prefix_index(sv, svbig, b.idx as int);
            match sv[b.idx as int] {
                EntryV::Pair(sy, v) => {
                    if sy != target {
                        lemma_lookup_stable(sv, svbig, target, parent);
                    }
                },
                _ => {},
            }
        },
        _ => {},
    }
}

/// `spec_step` preserves well-formedness, keeps the state's addresses
/// valid, only appends to the store, and appends at most two entries.
pub proof fn lemma_step_props(sv: Seq<EntryV>, io: IO)
    requires
        store_wf(sv),
        io_ok(sv, io),
        sv.len() + 2 <= STORE_CAP,
    ensures
        store_wf(spec_step(sv, io).0),
        io_ok(spec_step(sv, io).0, spec_step(sv, io).1),
        sv.is_prefix_of(spec_step(sv, io).0),
        sv.len() <= spec_step(sv, io).0.len() <= sv.len() + 2,
{
    crate::store::lemma_prefix_refl(sv);
    if is_terminal(sv, io) {
    } else {
        match sv[io.expr.idx as int] {
            EntryV::Thunk(v, c) => {
                lemma_apply_props(sv, v, io.env, c);
            },
            EntryV::Nil => {
                crate::store::lemma_intern_props(sv, EntryV::Thunk(io.expr, io.cont));
            },
            EntryV::Num(_) => {
                crate::store::lemma_intern_props(sv, EntryV::Thunk(io.expr, io.cont));
            },
            EntryV::Fun(_, _, _) => {
                crate::store::lemma_intern_props(sv, EntryV::Thunk(io.expr, io.cont));
            },
            EntryV::Sym(n) => {
                let k = spec_classify(n);
                if k == SymKind::NilName {
                    crate::store::lemma_intern_props(sv, EntryV::Nil);
                    let sv1 = spec_intern(sv, EntryV::Nil).0;
                    let nil = spec_intern(sv, EntryV::Nil).1;
                    crate::store::lemma_intern_props(sv1, EntryV::Thunk(nil, io.cont));
                    crate::store::lemma_prefix_trans(
                        sv,
                        sv1,
                        spec_intern(sv1, EntryV::Thunk(nil, io.cont)).0,
                    );
                } else if k == SymKind::TName {
                    crate::store::lemma_intern_props(sv, EntryV::Thunk(io.expr, io.cont));
                } else if k == SymKind::Other {
                    lemma_lookup_ok(sv, io.expr, io.env);
                    match spec_lookup(sv, io.expr, io.env) {
                        Option::Some(v) => {
                            crate::store::lemma_intern_props(sv, EntryV::Thunk(v, io.cont));
                        },
                        Option::None => {
                            crate::store::lemma_intern_props(sv, EntryV::ErrorCont);
                        },
                    }
                } else {
                    crate::store::lemma_intern_props(sv, EntryV::ErrorCont);
                }
            },
            EntryV::Pair(h, rest) => {
                lemma_eval_pair_props(sv, io, h, rest);
            },
            _ => {
                crate::store::lemma_intern_props(sv, EntryV::ErrorCont);
            },
        }
    }
}

proof fn lemma_apply_props(sv: Seq<EntryV>, v: Ptr, env: Ptr, cont: Ptr)
    requires
        store_wf(sv),
        ptr_ok(sv, v),
        ptr_ok(sv, env),
        ptr_ok(sv, cont),
        sv.len() + 2 <= STORE_CAP,
    ensures
        store_wf(spec_apply(sv, v, env, cont).0),
        io_ok(spec_apply(sv, v, env, cont).0, spec_apply(sv, v, env, cont).1),
        sv.is_prefix_of(spec_apply(sv, v, env, cont).0),
        sv.len() <= spec_apply(sv, v, env, cont).0.len() <= sv.len() + 2,
{
    crate::store::lemma_prefix_refl(sv);
    match sv[cont.idx as int] {
        EntryV::Outermost => {
            crate::store::lemma_intern_props(sv, EntryV::Terminal);
        },
        EntryV::CallK(arg, cenv, next) => {
            match sv[v.idx as int] {
                EntryV::Fun(_, _, _) => {
                    crate::store::lemma_intern_props(sv, EntryV::Call2K(v, next));
                },
                _ => {
                    crate::store::lemma_intern_props(sv, EntryV::ErrorCont);
                },
            }
        },
        EntryV::Call2K(f, next) => {
            match sv[f.idx as int] {
                EntryV::Fun(param, body, fenv) => {
                    crate::store::lemma_intern_props(sv, EntryV::Pair(param, v));
                    let sv1 = spec_intern(sv, EntryV::Pair(param, v)).0;
                    let b1 = spec_intern(sv, EntryV::Pair(param, v)).1;
                    crate::store::lemma_intern_props(sv1, EntryV::Pair(b1, fenv));
                    crate::store::lemma_prefix_trans(
                        sv,
                        sv1,
                        spec_intern(sv1, EntryV::Pair(b1, fenv)).0,
                    );
                },
                _ => {
                    crate::store::lemma_intern_props(sv, EntryV::ErrorCont);
                },
            }
        },
        EntryV::IfK(tb, eb, ienv, next) => {},
        EntryV::Binop1K(op, b, benv, next) => {
            crate::store::lemma_intern_props(sv, EntryV::Binop2K(op, v, next));
        },
        EntryV::Binop2K(op, a, next) => {
            if op == Op2::MakeCons {
                crate::store::lemma_intern_props(sv, EntryV::Pair(a, v));
                let sv1 = spec_intern(sv, EntryV::Pair(a, v)).0;
                let p = spec_intern(sv, EntryV::Pair(a, v)).1;
                crate::store::lemma_intern_props(sv1, EntryV::Thunk(p, next));
                crate::store::lemma_prefix_trans(
                    sv,
                    sv1,
                    spec_intern(sv1, EntryV::Thunk(p, next)).0,
                );
            } else {
                match (sv[a.idx as int], sv[v.idx as int]) {
                    (EntryV::Num(x), EntryV::Num(y)) => {
                        if op == Op2::NumEqual {
                            if x == y {
                                crate::store::lemma_intern_props(sv, EntryV::Sym(name_t()));
                                let sv1 = spec_intern(sv, EntryV::Sym(name_t())).0;
                                let tv = spec_intern(sv, EntryV::Sym(name_t())).1;
                                crate::store::lemma_intern_props(sv1, EntryV::Thunk(tv, next));
                                crate::store::lemma_prefix_trans(
                                    sv,
                                    sv1,
                                    spec_intern(sv1, EntryV::Thunk(tv, next)).0,
                                );
                            } else {
                                crate::store::lemma_intern_props(sv, EntryV::Nil);
                                let sv1 = spec_intern(sv, EntryV::Nil).0;
                                let nv = spec_intern(sv, EntryV::Nil).1;
                                crate::store::lemma_intern_props(sv1, EntryV::Thunk(nv, next));
                                crate::store::lemma_prefix_trans(
                                    sv,
                                    sv1,
                                    spec_intern(sv1, EntryV::Thunk(nv, next)).0,
                                );
                            }
                        } else {
                            crate::store::lemma_intern_props(
                                sv,
                                EntryV::Num(spec_op2(op, x, y)),
                            );
                            let sv1 = spec_intern(sv, EntryV::Num(spec_op2(op, x, y))).0;
                            let np = spec_intern(sv, EntryV::Num(spec_op2(op, x, y))).1;
                            crate::store::lemma_intern_props(sv1, EntryV::Thunk(np, next));
                            crate::store::lemma_prefix_trans(
                                sv,
                                sv1,
                                spec_intern(sv1, EntryV::Thunk(np, next)).0,
                            );
                        }
                    },
                    _ => {
                        crate::store::lemma_intern_props(sv, EntryV::ErrorCont);
                    },
                }
            }
        },
        EntryV::Unop1K(op, next) => {
            match sv[v.idx as int] {
                EntryV::Pair(x, y) => {
                    if op == Op1::Car {
                        crate::store::lemma_intern_props(sv, EntryV::Thunk(x, next));
                    } else {
                        crate::store::lemma_intern_props(sv, EntryV::Thunk(y, next));
                    }
                },
                _ => {
                    crate::store::lemma_intern_props(sv, EntryV::ErrorCont);
                },
            }
        },
        _ => {},
    }
}

/// One machine transition is stable under store growth: in any well-formed
/// extension that already holds everything the transition interned, the
/// transition reads the same entries, allocates nothing, and yields the
/// same state.
pub proof fn lemma_step_stable(sv: Seq<EntryV>, svbig: Seq<EntryV>, io: IO)
    requires
        store_wf(sv),
        io_ok(sv, io),
        sv.len() + 2 <= STORE_CAP,
        store_wf(svbig),
        spec_step(sv, io).0.is_prefix_of(svbig),
    ensures
        spec_step(svbig, io) == (svbig, spec_step(sv, io).1),
{
    lemma_step_props(sv, io);
    crate::store::lemma_prefix_trans(sv, spec_step(sv, io).0, svbig);
    crate::store::lemma_prefix_index(sv, svbig, io.cont.idx as int);
    crate::store::lemma_prefix_index(sv, svbig, io.expr.idx as int);
    if is_terminal(sv, io) {
    } else {
        match sv[io.expr.idx as int] {
            EntryV::Thunk(v, c) => {
                lemma_apply_stable(sv, svbig, v, io.env, c);
            },
            EntryV::Nil => {
                crate::store::lemma_intern_stable(sv, svbig, EntryV::Thunk(io.expr, io.cont));
            },
            EntryV::Num(_) => {
                crate::store::lemma_intern_stable(sv, svbig, EntryV::Thunk(io.expr, io.cont));
            },
            EntryV::Fun(_, _, _) => {
                crate::store::lemma_intern_stable(sv, svbig, EntryV::Thunk(io.expr, io.cont));
            },
            EntryV::Sym(n) => {
                let k = spec_classify(n);
                if k == SymKind::NilName {
                    let sv1 = spec_intern(sv, EntryV::Nil).0;
                    let nil = spec_intern(sv, EntryV::Nil).1;
                    crate::store::lemma_intern_props(sv, EntryV::Nil);
                    crate::store::lemma_intern_props(sv1, EntryV::Thunk(nil, io.cont));
                    crate::store::lemma_prefix_trans(
                        sv1,
                        spec_intern(sv1, EntryV::Thunk(nil, io.cont)).0,
                        svbig,
                    );
                    crate::store::lemma_intern_stable(sv, svbig, EntryV::Nil);
                    crate::store::lemma_intern_stable(sv1, svbig, EntryV::Thunk(nil, io.cont));
                } else if k == SymKind::TName {
                    crate::store::lemma_intern_stable(
                        sv,
                        svbig,
                        EntryV::Thunk(io.expr, io.cont),
                    );
                } else if k == SymKind::Other {
                    lemma_lookup_stable(sv, svbig, io.expr, io.env);
                    match spec_lookup(sv, io.expr, io.env) {
                        Option::Some(v) => {
                            crate::store::lemma_intern_stable(
                                sv,
                                svbig,
                                EntryV::Thunk(v, io.cont),
                            );
                        },
                        Option::None => {
                            crate::store::lemma_intern_stable(sv, svbig, EntryV::ErrorCont);
                        },
                    }
                } else {
                    crate::store::lemma_intern_stable(sv, svbig, EntryV::ErrorCont);
                }
            },
            EntryV::Pair(h, rest) => {
                lemma_eval_pair_stable(sv, svbig, io, h, rest);
            },
            _ => {
                crate::store::lemma_intern_stable(sv, svbig, EntryV::ErrorCont);
            },
        }
    }
}

proof fn lemma_apply_stable(sv: Seq<EntryV>, svbig: Seq<EntryV>, v: Ptr, env: Ptr, cont: Ptr)
    requires
        store_wf(sv),
        ptr_ok(sv, v),
        ptr_ok(sv, env),
        ptr_ok(sv, cont),
        sv.len() + 2 <= STORE_CAP,
        store_wf(svbig),
        spec_apply(sv, v, env, cont).0.is_prefix_of(svbig),
    ensures
        spec_apply(svbig, v, env, cont) == (svbig, spec_apply(sv, v, env, cont).1),
{
    lemma_apply_props(sv, v, env, cont);
    crate::store::lemma_prefix_trans(sv, spec_apply(sv, v, env, cont).0, svbig);
    crate::store::lemma_prefix_index(sv, svbig, cont.idx as int);
    crate::store::lemma_prefix_index(sv, svbig, v.idx as int);
    match sv[cont.idx as int] {
        EntryV::Outermost => {
            crate::store::lemma_intern_stable(sv, svbig, EntryV::Terminal);
        },
        EntryV::CallK(arg, cenv, next) => {
            match sv[v.idx as int] {
                EntryV::Fun(_, _, _) => {
                    crate::store::lemma_intern_stable(sv, svbig, EntryV::Call2K(v, next));
                },
                _ => {
                    crate::store::lemma_intern_stable(sv, svbig, EntryV::ErrorCont);
                },
            }
        },
        EntryV::Call2K(f, next) => {
            crate::store::lemma_prefix_index(sv, svbig, f.idx as int);
            match sv[f.idx as int] {
                EntryV::Fun(param, body, fenv) => {
                    let sv1 = spec_intern(sv, EntryV::Pair(param, v)).0;
                    let b1 = spec_intern(sv, EntryV::Pair(param, v)).1;
                    crate::store::lemma_intern_props(sv, EntryV::Pair(param, v));
                    crate::store::lemma_intern_props(sv1, EntryV::Pair(b1, fenv));
                    crate::store::lemma_prefix_trans(
                        sv1,
                        spec_intern(sv1, EntryV::Pair(b1, fenv)).0,
                        svbig,
                    );
                    crate::store::lemma_intern_stable(sv, svbig, EntryV::Pair(param, v));
                    crate::store::lemma_intern_stable(sv1, svbig, EntryV::Pair(b1, fenv));
                },
                _ => {
                    crate::store::lemma_intern_stable(sv, svbig, EntryV::ErrorCont);
                },
            }
        },
        EntryV::IfK(tb, eb, ienv, next) => {},
        EntryV::Binop1K(op, b, benv, next) => {
            crate::store::lemma_intern_stable(sv, svbig, EntryV::Binop2K(op, v, next));
        },
        EntryV::Binop2K(op, a, next) => {
            crate::store::lemma_prefix_index(sv, svbig, a.idx as int);
            if op == Op2::MakeCons {
                let sv1 = spec_intern(sv, EntryV::Pair(a, v)).0;
                let p = spec_intern(sv, EntryV::Pair(a, v)).1;
                crate::store::lemma_intern_props(sv, EntryV::Pair(a, v));
                crate::store::lemma_intern_props(sv1, EntryV::Thunk(p, next));
                crate::store::lemma_prefix_trans(
                    sv1,
                    spec_intern(sv1, EntryV::Thunk(p, next)).0,
                    svbig,
                );
                crate::store::lemma_intern_stable(sv, svbig, EntryV::Pair(a, v));
                crate::store::lemma_intern_stable(sv1, svbig, EntryV::Thunk(p, next));
            } else {
                match (sv[a.idx as int], sv[v.idx as int]) {
                    (EntryV::Num(x), EntryV::Num(y)) => {
                        if op == Op2::NumEqual {
                            if x == y {
                                let sv1 = spec_intern(sv, EntryV::Sym(name_t())).0;
                                let tv = spec_intern(sv, EntryV::Sym(name_t())).1;
                                crate::store::lemma_intern_props(sv, EntryV::Sym(name_t()));
                                crate::store::lemma_intern_props(sv1, EntryV::Thunk(tv, next));
                                crate::store::lemma_prefix_trans(
                                    sv1,
                                    spec_intern(sv1, EntryV::Thunk(tv, next)).0,
                                    svbig,
                                );
                                crate::store::lemma_intern_stable(sv, svbig, EntryV::Sym(name_t()));
                                crate::store::lemma_intern_stable(
                                    sv1,
                                    svbig,
                                    EntryV::Thunk(tv, next),
                                );
                            } else {
                                let sv1 = spec_intern(sv, EntryV::Nil).0;
                                let nv = spec_intern(sv, EntryV::Nil).1;
                                crate::store::lemma_intern_props(sv, EntryV::Nil);
                                crate::store::lemma_intern_props(sv1, EntryV::Thunk(nv, next));
                                crate::store::lemma_prefix_trans(
                                    sv1,
                                    spec_intern(sv1, EntryV::Thunk(nv, next)).0,
                                    svbig,
                                );
                                crate::store::lemma_intern_stable(sv, svbig, EntryV::Nil);
                                crate::store::lemma_intern_stable(
                                    sv1,
                                    svbig,
                                    EntryV::Thunk(nv, next),
                                );
                            }
                        } else {
                            let e1 = EntryV::Num(spec_op2(op, x, y));
                            let sv1 = spec_intern(sv, e1).0;
                            let np = spec_intern(sv, e1).1;
                            crate::store::lemma_intern_props(sv, e1);
                            crate::store::lemma_intern_props(sv1, EntryV::Thunk(np, next));
                            crate::store::lemma_prefix_trans(
                                sv1,
                                spec_intern(sv1, EntryV::Thunk(np, next)).0,
                                svbig,
                            );
                            crate::store::lemma_intern_stable(sv, svbig, e1);
                            crate::store::lemma_intern_stable(sv1, svbig, EntryV::Thunk(np, next));
                        }
                    },
                    _ => {
                        crate::store::lemma_intern_stable(sv, svbig, EntryV::ErrorCont);
                    },
                }
            }
        },
        EntryV::Unop1K(op, next) => {
            match sv[v.idx as int] {
                EntryV::Pair(x, y) => {
                    if op == Op1::Car {
                        crate::store::lemma_intern_stable(sv, svbig, EntryV::Thunk(x, next));
                    } else {
                        crate::store::lemma_intern_stable(sv, svbig, EntryV::Thunk(y, next));
                    }
                },
                _ => {
                    crate::store::lemma_intern_stable(sv, svbig, EntryV::ErrorCont);
                },
            }
        },
        _ => {},
    }
}

proof fn lemma_eval_pair_stable(sv: Seq<EntryV>, svbig: Seq<EntryV>, io: IO, h: Ptr, rest: Ptr)
    requires
        store_wf(sv),
        io_ok(sv, io),
        ptr_ok(sv, h),
        ptr_ok(sv, rest),
        sv.len() + 2 <= STORE_CAP,
        store_wf(svbig),
        spec_eval_pair(sv, io, h, rest).0.is_prefix_of(svbig),
    ensures
        spec_eval_pair(svbig, io, h, rest) == (svbig, spec_eval_pair(sv, io, h, rest).1),
{
    lemma_eval_pair_props(sv, io, h, rest);
    crate::store::lemma_prefix_trans(sv, spec_eval_pair(sv, io, h, rest).0, svbig);
    crate::store::lemma_prefix_index(sv, svbig, h.idx as int);
    crate::store::lemma_prefix_index(sv, svbig, rest.idx as int);
    let head_sym = match sv[h.idx as int] {
        EntryV::Sym(n) => spec_classify(n),
        _ => SymKind::Other,
    };
    let is_special = match sv[h.idx as int] {
        EntryV::Sym(_) => head_sym != SymKind::NilName && head_sym != SymKind::TName && head_sym
            != SymKind::Other,
        _ => false,
    };
    if is_special {
        match head_sym {
            SymKind::Quote => {
                match sv[rest.idx as int] {
                    EntryV::Pair(x, r2) => {
                        crate::store::lemma_prefix_index(sv, svbig, r2.idx as int);
                        match sv[r2.idx as int] {
                            EntryV::Nil => {
                                crate::store::lemma_intern_stable(
                                    sv,
                                    svbig,
                                    EntryV::Thunk(x, io.cont),
                                );
                            },
                            _ => {
                                crate::store::lemma_intern_stable(sv, svbig, EntryV::ErrorCont);
                            },
                        }
                    },
                    _ => {
                        crate::store::lemma_intern_stable(sv, svbig, EntryV::ErrorCont);
                    },
                }
            },
            SymKind::Lambda => {
                match sv[rest.idx as int] {
                    EntryV::Pair(params, r2) => {
                        crate::store::lemma_prefix_index(sv, svbig, r2.idx as int);
                        crate::store::lemma_prefix_index(sv, svbig, params.idx as int);
                        match sv[r2.idx as int] {
                            EntryV::Pair(body, r3) => {
                                crate::store::lemma_prefix_index(sv, svbig, r3.idx as int);
                                match (sv[r3.idx as int], sv[params.idx as int]) {
                                    (EntryV::Nil, EntryV::Pair(p, r4)) => {
                                        crate::store::lemma_prefix_index(sv, svbig, r4.idx as int);
                                        crate::store::lemma_prefix_index(sv, svbig, p.idx as int);
                                        match (sv[r4.idx as int], sv[p.idx as int]) {
                                            (EntryV::Nil, EntryV::Sym(_)) => {
                                                let e1 = EntryV::Fun(p, body, io.env);
                                                let sv1 = spec_intern(sv, e1).0;
                                                let f = spec_intern(sv, e1).1;
                                                crate::store::lemma_intern_props(sv, e1);
                                                crate::store::lemma_intern_props(
                                                    sv1,
                                                    EntryV::Thunk(f, io.cont),
                                                );
                                                crate::store::lemma_prefix_trans(
                                                    sv1,
                                                    spec_intern(sv1, EntryV::Thunk(f, io.cont)).0,
                                                    svbig,
                                                );
                                                crate::store::lemma_intern_stable(sv, svbig, e1);
                                                crate::store::lemma_intern_stable(
                                                    sv1,
                                                    svbig,
                                                    EntryV::Thunk(f, io.cont),
                                                );
                                            },
                                            _ => {
                                                crate::store::lemma_intern_stable(
                                                    sv,
                                                    svbig,
                                                    EntryV::ErrorCont,
                                                );
                                            },
                                        }
                                    },
                                    _ => {
                                        crate::store::lemma_intern_stable(
                                            sv,
                                            svbig,
                                            EntryV::ErrorCont,
                                        );
                                    },
                                }
                            },
                            _ => {
                                crate::store::lemma_intern_stable(sv, svbig, EntryV::ErrorCont);
                            },
                        }
                    },
                    _ => {
                        crate::store::lemma_intern_stable(sv, svbig, EntryV::ErrorCont);
                    },
                }
            },
            SymKind::If => {
                match sv[rest.idx as int] {
                    EntryV::Pair(c, r2) => {
                        crate::store::lemma_prefix_index(sv, svbig, r2.idx as int);
                        match sv[r2.idx as int] {
                            EntryV::Pair(tb, r3) => {
                                crate::store::lemma_prefix_index(sv, svbig, r3.idx as int);
                                match sv[r3.idx as int] {
                                    EntryV::Pair(eb, r4) => {
                                        crate::store::lemma_prefix_index(sv, svbig, r4.idx as int);
                                        match sv[r4.idx as int] {
                                            EntryV::Nil => {
                                                crate::store::lemma_intern_stable(
                                                    sv,
                                                    svbig,
                                                    EntryV::IfK(tb, eb, io.env, io.cont),
                                                );
                                            },
                                            _ => {
                                                crate::store::lemma_intern_stable(
                                                    sv,
                                                    svbig,
                                                    EntryV::ErrorCont,
                                                );
                                            },
                                        }
                                    },
                                    _ => {
                                        crate::store::lemma_intern_stable(
                                            sv,
                                            svbig,
                                            EntryV::ErrorCont,
                                        );
                                    },
                                }
                            },
                            _ => {
                                crate::store::lemma_intern_stable(sv, svbig, EntryV::ErrorCont);
                            },
                        }
                    },
                    _ => {
                        crate::store::lemma_intern_stable(sv, svbig, EntryV::ErrorCont);
                    },
                }
            },
            SymKind::OpCar | SymKind::OpCdr => {
                let op = if head_sym == SymKind::OpCar {
                    Op1::Car
                } else {
                    Op1::Cdr
                };
                match sv[rest.idx as int] {
                    EntryV::Pair(a, r2) => {
                        crate::store::lemma_prefix_index(sv, svbig, r2.idx as int);
                        match sv[r2.idx as int] {
                            EntryV::Nil => {
                                crate::store::lemma_intern_stable(
                                    sv,
                                    svbig,
                                    EntryV::Unop1K(op, io.cont),
                                );
                            },
                            _ => {
                                crate::store::lemma_intern_stable(sv, svbig, EntryV::ErrorCont);
                            },
                        }
                    },
                    _ => {
                        crate::store::lemma_intern_stable(sv, svbig, EntryV::ErrorCont);
                    },
                }
            },
            _ => {
                let op = if head_sym == SymKind::OpSum {
                    Op2::Sum
                } else if head_sym == SymKind::OpDiff {
                    Op2::Diff
                } else if head_sym == SymKind::OpProd {
                    Op2::Product
                } else if head_sym == SymKind::OpNumEq {
                    Op2::NumEqual
                } else {
                    Op2::MakeCons
                };
                match sv[rest.idx as int] {
                    EntryV::Pair(a, r2) => {
                        crate::store::lemma_prefix_index(sv, svbig, r2.idx as int);
                        match sv[r2.idx as int] {
                            EntryV::Pair(b, r3) => {
                                crate::store::lemma_prefix_index(sv, svbig, r3.idx as int);
                                match sv[r3.idx as int] {
                                    EntryV::Nil => {
                                        crate::store::lemma_intern_stable(
                                            sv,
                                            svbig,
                                            EntryV::Binop1K(op, b, io.env, io.cont),
                                        );
                                    },
                                    _ => {
                                        crate::store::lemma_intern_stable(
                                            sv,
                                            svbig,
                                            EntryV::ErrorCont,
                                        );
                                    },
                                }
                            },
                            _ => {
                                crate::store::lemma_intern_stable(sv, svbig, EntryV::ErrorCont);
                            },
                        }
                    },
                    _ => {
                        crate::store::lemma_intern_stable(sv, svbig, EntryV::ErrorCont);
                    },
                }
            },
        }
    } else {
        match sv[rest.idx as int] {
            EntryV::Pair(arg, r2) => {
                crate::store::lemma_prefix_index(sv, svbig, r2.idx as int);
                match sv[r2.idx as int] {
                    EntryV::Nil => {
                        crate::store::lemma_intern_stable(
                            sv,
                            svbig,
                            EntryV::CallK(arg, io.env, io.cont),
                        );
                    },
                    _ => {
                        crate::store::lemma_intern_stable(sv, svbig, EntryV::ErrorCont);
                    },
                }
            },
            _ => {
                crate::store::lemma_intern_stable(sv, svbig, EntryV::ErrorCont);
            },
        }
    }
}

proof fn lemma_eval_pair_props(sv: Seq<EntryV>, io: IO, h: Ptr, rest: Ptr)
    requires
        store_wf(sv),
        io_ok(sv, io),
        ptr_ok(sv, h),
        ptr_ok(sv, rest),
        sv.len() + 2 <= STORE_CAP,
    ensures
        store_wf(spec_eval_pair(sv, io, h, rest).0),
        io_ok(spec_eval_pair(sv, io, h, rest).0, spec_eval_pair(sv, io, h, rest).1),
        sv.is_prefix_of(spec_eval_pair(sv, io, h, rest).0),
        sv.len() <= spec_eval_pair(sv, io, h, rest).0.len() <= sv.len() + 2,
{
    crate::store::lemma_prefix_refl(sv);
    let head_sym = match sv[h.idx as int] {
        EntryV::Sym(n) => spec_classify(n),
        _ => SymKind::Other,
    };
    let is_special = match sv[h.idx as int] {
        EntryV::Sym(_) => head_sym != SymKind::NilName && head_sym != SymKind::TName && head_sym
            != SymKind::Other,
        _ => false,
    };
    if is_special {
        match head_sym {
            SymKind::Quote => {
                match sv[rest.idx as int] {
                    EntryV::Pair(x, r2) => {
                        match sv[r2.idx as int] {
                            EntryV::Nil => {
                                crate::store::lemma_intern_props(
                                    sv,
                                    EntryV::Thunk(x, io.cont),
                                );
                            },
                            _ => {
                                crate::store::lemma_intern_props(sv, EntryV::ErrorCont);
                            },
                        }
                    },
                    _ => {
                        crate::store::lemma_intern_props(sv, EntryV::ErrorCont);
                    },
                }
            },
            SymKind::Lambda => {
                match sv[rest.idx as int] {
                    EntryV::Pair(params, r2) => {
                        match sv[r2.idx as int] {
                            EntryV::Pair(body, r3) => {
                                match (sv[r3.idx as int], sv[params.idx as int]) {
                                    (EntryV::Nil, EntryV::Pair(p, r4)) => {
                                        match (sv[r4.idx as int], sv[p.idx as int]) {
                                            (EntryV::Nil, EntryV::Sym(_)) => {
                                                crate::store::lemma_intern_props(
                                                    sv,
                                                    EntryV::Fun(p, body, io.env),
                                                );
                                                let sv1 = spec_intern(
                                                    sv,
                                                    EntryV::Fun(p, body, io.env),
                                                ).0;
                                                let f = spec_intern(
                                                    sv,
                                                    EntryV::Fun(p, body, io.env),
                                                ).1;
                                                crate::store::lemma_intern_props(
                                                    sv1,
                                                    EntryV::Thunk(f, io.cont),
                                                );
                                                crate::store::lemma_prefix_trans(
                                                    sv,
                                                    sv1,
                                                    spec_intern(sv1, EntryV::Thunk(f, io.cont)).0,
                                                );
                                            },
                                            _ => {
                                                crate::store::lemma_intern_props(
                                                    sv,
                                                    EntryV::ErrorCont,
                                                );
                                            },
                                        }
                                    },
                                    _ => {
                                        crate::store::lemma_intern_props(sv, EntryV::ErrorCont);
                                    },
                                }
                            },
                            _ => {
                                crate::store::lemma_intern_props(sv, EntryV::ErrorCont);
                            },
                        }
                    },
                    _ => {
                        crate::store::lemma_intern_props(sv, EntryV::ErrorCont);
                    },
                }
            },
            SymKind::If => {
                match sv[rest.idx as int] {
                    EntryV::Pair(c, r2) => {
                        match sv[r2.idx as int] {
                            EntryV::Pair(tb, r3) => {
                                match sv[r3.idx as int] {
                                    EntryV::Pair(eb, r4) => {
                                        match sv[r4.idx as int] {
                                            EntryV::Nil => {
                                                crate::store::lemma_intern_props(
                                                    sv,
                                                    EntryV::IfK(tb, eb, io.env, io.cont),
                                                );
                                            },
                                            _ => {
                                                crate::store::lemma_intern_props(
                                                    sv,
                                                    EntryV::ErrorCont,
                                                );
                                            },
                                        }
                                    },
                                    _ => {
                                        crate::store::lemma_intern_props(sv, EntryV::ErrorCont);
                                    },
                                }
                            },
                            _ => {
                                crate::store::lemma_intern_props(sv, EntryV::ErrorCont);
                            },
                        }
                    },
                    _ => {
                        crate::store::lemma_intern_props(sv, EntryV::ErrorCont);
                    },
                }
            },
            SymKind::OpCar | SymKind::OpCdr => {
                let op = if head_sym == SymKind::OpCar {
                    Op1::Car
                } else {
                    Op1::Cdr
                };
                match sv[rest.idx as int] {
                    EntryV::Pair(a, r2) => {
                        match sv[r2.idx as int] {
                            EntryV::Nil => {
                                crate::store::lemma_intern_props(
                                    sv,
                                    EntryV::Unop1K(op, io.cont),
                                );
                            },
                            _ => {
                                crate::store::lemma_intern_props(sv, EntryV::ErrorCont);
                            },
                        }
                    },
                    _ => {
                        crate::store::lemma_intern_props(sv, EntryV::ErrorCont);
                    },
                }
            },
            _ => {
                let op = if head_sym == SymKind::OpSum {
                    Op2::Sum
                } else if head_sym == SymKind::OpDiff {
                    Op2::Diff
                } else if head_sym == SymKind::OpProd {
                    Op2::Product
                } else if head_sym == SymKind::OpNumEq {
                    Op2::NumEqual
                } else {
                    Op2::MakeCons
                };
                match sv[rest.idx as int] {
                    EntryV::Pair(a, r2) => {
                        match sv[r2.idx as int] {
                            EntryV::Pair(b, r3) => {
                                match sv[r3.idx as int] {
                                    EntryV::Nil => {
                                        crate::store::lemma_intern_props(
                                            sv,
                                            EntryV::Binop1K(op, b, io.env, io.cont),
                                        );
                                    },
                                    _ => {
                                        crate::store::lemma_intern_props(sv, EntryV::ErrorCont);
                                    },
                                }
                            },
                            _ => {
                                crate::store::lemma_intern_props(sv, EntryV::ErrorCont);
                            },
                        }
                    },
                    _ => {
                        crate::store::lemma_intern_props(sv, EntryV::ErrorCont);
                    },
                }
            },
        }
    } else {
        match sv[rest.idx as int] {
            EntryV::Pair(arg, r2) => {
                match sv[r2.idx as int] {
                    EntryV::Nil => {
                        crate::store::lemma_intern_props(
                            sv,
                            EntryV::CallK(arg, io.env, io.cont),
                        );
                    },
                    _ => {
                        crate::store::lemma_intern_props(sv, EntryV::ErrorCont);
                    },
                }
            },
            _ => {
                crate::store::lemma_intern_props(sv, EntryV::ErrorCont);
            },
        }
    }
}

} // verus!
