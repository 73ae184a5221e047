//! Commitment scheme and opening protocol.
//!
//! A commitment is the structural hash of a function term, blinded by a
//! secret field element when hiding is wanted.  An opening discloses that
//! the committed function, applied to an input, reaches a given output
//! within a step limit, and backs the claim with a trace proof; a chained
//! opening additionally publishes the commitment of a successor function
//! that the output carries, so follow-up openings can be checked against
//! it.

use vstd::prelude::*;
use crate::field::{Fe, FIELD_MODULUS};
use crate::store::{
    name_quote, ptr_ok, spec_intern, store_wf, Entry, EntryV, Kind, Ptr, Store, STORE_CAP,
};
use crate::eval::{is_done, spec_evaluate, IO};
use crate::trace::{
    spec_trace_frames, spec_verify, Proof, PublicInputs, Status,
};

verus! {

/// The error taxonomy of the protocol.
///
/// Program-level errors during evaluation never appear here: they are
/// captured as an `ErrorCont` continuation inside the IO record.  `ParseError`
/// and `IoError` originate in the external parser and persistence
/// collaborators; they are part of the taxonomy so that callers outside the
/// library can report them through the same type.
#[derive(Clone, Copy, PartialEq, Eq, Structural, Debug)]
pub enum Error {
    /// Malformed program text (raised by the external parser).
    ParseError,
    /// Host-level structural violation, such as decomposing a non-pair.
    TypeError,
    /// The step limit ran out before a terminal continuation, in a context
    /// that requires completion.
    EvaluationIncomplete,
    /// The disclosed function and secret do not hash to the claimed
    /// commitment.
    CommitmentMismatch,
    /// A witness failed to satisfy the trace relation; signals a defect in
    /// the prover, never a user error.
    ProofSynthesisError,
    /// A proof was rejected by the verifier.
    VerificationFailure,
    /// Artifact persistence failed (raised by the external persistence
    /// collaborator).
    IoError,
}

/// A published commitment: a single field element.
#[derive(Clone, Copy, PartialEq, Eq, Structural, Debug)]
pub struct Commitment {
    pub comm: Fe,
}

/// The verifier's report: rejection is a value, not a fault.
#[derive(Clone, Copy, PartialEq, Eq, Structural, Debug)]
pub struct VerificationResult {
    pub verified: bool,
}

/// The value of a commitment: the function's structural hash, blinded by
/// the secret when one is given.
pub open spec fn spec_commit(f: Ptr, secret: Option<Fe>) -> int {
    match secret {
        Option::None => f.idx as int,
        Option::Some(sec) => (f.idx as int + sec.val()) % (FIELD_MODULUS as int),
    }
}

/// Commit to a function term, optionally blinded by a secret.
/// Deterministic: the commitment is a function of the address and the
/// secret alone.
pub fn commit(s: &Store, f: Ptr, secret: Option<Fe>) -> (c: Commitment)
    requires
        store_wf(s.sview()),
        ptr_ok(s.sview(), f),
        secret matches Some(x) ==> x.wf(),
    ensures
        c.comm.val() == spec_commit(f, secret),
        c.comm.wf(),
{
    let h = s.hash_ptr(f);
    match secret {
        None => Commitment { comm: h },
        Some(sec) => Commitment { comm: h.add(sec) },
    }
}

/// Hiding: committing to one function under two different secrets gives
/// two different commitments — here exactly, not merely with overwhelming
/// probability, because blinding is injective in the secret.
pub proof fn lemma_commit_hiding(f: Ptr, s1: Fe, s2: Fe)
    requires
        f.idx < FIELD_MODULUS,
        s1.wf(),
        s2.wf(),
        s1 != s2,
    ensures
        spec_commit(f, Some(s1)) != spec_commit(f, Some(s2)),
{
    crate::field::lemma_fe_val(s1, s2);
    if spec_commit(f, Some(s1)) == spec_commit(f, Some(s2)) {
        crate::field::lemma_add_mod_injective(f.idx as int, s1.val(), s2.val());
    }
}

/// Binding across functions: two different function addresses commit to
/// different values under the same secret, so a perturbed function fails
/// the commitment check.
pub proof fn lemma_commit_binding(f1: Ptr, f2: Ptr, secret: Option<Fe>)
    requires
        f1.idx < FIELD_MODULUS,
        f2.idx < FIELD_MODULUS,
        f1 != f2,
        secret matches Some(x) ==> x.wf(),
    ensures
        spec_commit(f1, secret) != spec_commit(f2, secret),
{
    match secret {
        Option::None => {},
        Option::Some(sec) => {
            if spec_commit(f1, secret) == spec_commit(f2, secret) {
                crate::field::lemma_add_mod_injective_left(
                    f1.idx as int,
                    f2.idx as int,
                    sec.val(),
                );
            }
        },
    }
}

/// Chaining: the successor commitment published by a chained opening is
/// exactly the commitment of the embedded successor function and secret,
/// so a correct follow-up opening passes the commitment check and one with
/// a wrong function fails it.
pub proof fn lemma_chaining(c2: Fe, f2: Ptr, s2: Fe, f_bad: Ptr)
    requires
        c2.val() == spec_commit(f2, Some(s2)),
        s2.wf(),
        f2.idx < FIELD_MODULUS,
        f_bad.idx < FIELD_MODULUS,
        f_bad != f2,
    ensures
        spec_commit(f2, Some(s2)) == c2.val(),
        spec_commit(f_bad, Some(s2)) != c2.val(),
{
    lemma_commit_binding(f2, f_bad, Some(s2));
}

/// An opening: the disclosed fields, and the proof that backs them.  The
/// input is disclosed only for a transparent commitment; under a hiding
/// commitment it stays with the committer.
pub struct Opening {
    pub commitment: Commitment,
    pub input: Option<Ptr>,
    pub output: Ptr,
    pub public: PublicInputs,
    pub new_commitment: Option<Commitment>,
    pub certificate: Proof,
}

/// The expression that applies a function value to a quoted input:
/// `(function (quote input))`.
pub open spec fn spec_apply_expr(sv: Seq<EntryV>, function: Ptr, input: Ptr) -> (
    Seq<EntryV>,
    Ptr,
) {
    let (sv1, quo) = spec_intern(sv, EntryV::Sym(name_quote()));
    let (sv2, nilp) = spec_intern(sv1, EntryV::Nil);
    let (sv3, t1) = spec_intern(sv2, EntryV::Pair(input, nilp));
    let (sv4, q) = spec_intern(sv3, EntryV::Pair(quo, t1));
    let (sv5, args) = spec_intern(sv4, EntryV::Pair(q, nilp));
    let (sv6, expr) = spec_intern(sv5, EntryV::Pair(function, args));
    (sv6, expr)
}

/// The evaluation an opening certifies: the application expression, run
/// from scratch with the given limit.
pub open spec fn spec_open_eval(sv: Seq<EntryV>, function: Ptr, input: Ptr, limit: nat) -> (
    Seq<EntryV>,
    IO,
    nat,
) {
    let (svx, expr) = spec_apply_expr(sv, function, input);
    spec_evaluate(svx, expr, limit)
}

/// What a chained output must carry: `(result . (successor . secret))`,
/// the successor a function term and the secret a number.
pub open spec fn spec_chain_parts(sv: Seq<EntryV>, out: Ptr) -> Option<(Ptr, Ptr, u64)> {
    match sv[out.idx as int] {
        EntryV::Pair(result, rest) => match sv[rest.idx as int] {
            EntryV::Pair(f2, s2p) => match (sv[f2.idx as int], sv[s2p.idx as int]) {
                (EntryV::Fun(_, _, _), EntryV::Num(x)) => Option::Some((result, f2, x)),
                _ => Option::None,
            },
            _ => Option::None,
        },
        _ => Option::None,
    }
}

/// Build the application expression `(function (quote input))`.
fn apply_expr(s: &mut Store, function: Ptr, input: Ptr) -> (r: Ptr)
    requires
        store_wf(old(s).sview()),
        ptr_ok(old(s).sview(), function),
        ptr_ok(old(s).sview(), input),
        old(s).sview().len() + 6 <= STORE_CAP,
    ensures
        store_wf(final(s).sview()),
        (final(s).sview(), r) == spec_apply_expr(old(s).sview(), function, input),
        ptr_ok(final(s).sview(), r),
        old(s).sview().is_prefix_of(final(s).sview()),
        final(s).sview().len() <= old(s).sview().len() + 6,
{
    let mut qname: Vec<u8> = Vec::new();
    qname.push(113);
    qname.push(117);
    qname.push(111);
    qname.push(116);
    qname.push(101);
    proof {
        assert(qname@ =~= name_quote());
    }
    let ghost sv0 = s.sview();
    let quo = s.intern(Entry::Sym(qname));
    let nilp = s.intern(Entry::Nil);
    let t1 = s.intern(Entry::Pair(input, nilp));
    let q = s.intern(Entry::Pair(quo, t1));
    let args = s.intern(Entry::Pair(q, nilp));
    let expr = s.intern(Entry::Pair(function, args));
    proof {
        let sv1 = spec_intern(sv0, EntryV::Sym(name_quote())).0;
        let sv2 = spec_intern(sv1, EntryV::Nil).0;
        let sv3 = spec_intern(sv2, EntryV::Pair(input, nilp)).0;
        let sv4 = spec_intern(sv3, EntryV::Pair(quo, t1)).0;
        let sv5 = spec_intern(sv4, EntryV::Pair(q, nilp)).0;
        crate::store::lemma_prefix_refl(sv0);
        crate::store::lemma_intern_props(sv0, EntryV::Sym(name_quote()));
        crate::store::lemma_intern_props(sv1, EntryV::Nil);
        crate::store::lemma_intern_props(sv2, EntryV::Pair(input, nilp));
        crate::store::lemma_intern_props(sv3, EntryV::Pair(quo, t1));
        crate::store::lemma_intern_props(sv4, EntryV::Pair(q, nilp));
        crate::store::lemma_prefix_trans(sv0, sv1, sv2);
        crate::store::lemma_prefix_trans(sv0, sv2, sv3);
        crate::store::lemma_prefix_trans(sv0, sv3, sv4);
        crate::store::lemma_prefix_trans(sv0, sv4, sv5);
        crate::store::lemma_prefix_trans(sv0, sv5, s.sview());
    }
    expr
}

/// The quoted form of a term: `(quote x)`.
pub open spec fn spec_quote_expr(sv: Seq<EntryV>, x: Ptr) -> (Seq<EntryV>, Ptr) {
    let (sv1, quo) = spec_intern(sv, EntryV::Sym(name_quote()));
    let (sv2, nilp) = spec_intern(sv1, EntryV::Nil);
    let (sv3, t1) = spec_intern(sv2, EntryV::Pair(x, nilp));
    let (sv4, q) = spec_intern(sv3, EntryV::Pair(quo, t1));
    (sv4, q)
}

/// Build `(quote x)`: the expression that evaluates to `x` unchanged.
pub fn quote_expr(s: &mut Store, x: Ptr) -> (r: Ptr)
    requires
        store_wf(old(s).sview()),
        ptr_ok(old(s).sview(), x),
        old(s).sview().len() + 4 <= STORE_CAP,
    ensures
        store_wf(final(s).sview()),
        (final(s).sview(), r) == spec_quote_expr(old(s).sview(), x),
        ptr_ok(final(s).sview(), r),
        old(s).sview().is_prefix_of(final(s).sview()),
        final(s).sview().len() <= old(s).sview().len() + 4,
{
    let mut qname: Vec<u8> = Vec::new();
    qname.push(113);
    qname.push(117);
    qname.push(111);
    qname.push(116);
    qname.push(101);
    proof {
        assert(qname@ =~= name_quote());
    }
    let ghost sv0 = s.sview();
    let quo = s.intern(Entry::Sym(qname));
    let nilp = s.intern(Entry::Nil);
    let t1 = s.intern(Entry::Pair(x, nilp));
    let q = s.intern(Entry::Pair(quo, t1));
    proof {
        let sv1 = spec_intern(sv0, EntryV::Sym(name_quote())).0;
        let sv2 = spec_intern(sv1, EntryV::Nil).0;
        let sv3 = spec_intern(sv2, EntryV::Pair(x, nilp)).0;
        crate::store::lemma_prefix_refl(sv0);
        crate::store::lemma_intern_props(sv0, EntryV::Sym(name_quote()));
        crate::store::lemma_intern_props(sv1, EntryV::Nil);
        crate::store::lemma_intern_props(sv2, EntryV::Pair(x, nilp));
        crate::store::lemma_prefix_trans(sv0, sv1, sv2);
        crate::store::lemma_prefix_trans(sv0, sv2, sv3);
        crate::store::lemma_prefix_trans(sv0, sv3, s.sview());
    }
    q
}

/// Prepare an opening's input term: either quote it, leaving evaluation of
/// the input to the proved run, or evaluate it first — that evaluation is
/// not part of what the opening proves.
pub fn prepare_input(s: &mut Store, input: Ptr, no_eval: bool, limit: usize) -> (r: Ptr)
    requires
        store_wf(old(s).sview()),
        ptr_ok(old(s).sview(), input),
        old(s).sview().len() + 2 * (limit as int) + 4 <= STORE_CAP,
    ensures
        store_wf(final(s).sview()),
        ptr_ok(final(s).sview(), r),
        old(s).sview().is_prefix_of(final(s).sview()),
        no_eval ==> (final(s).sview(), r) == spec_quote_expr(old(s).sview(), input),
        !no_eval ==> final(s).sview() == spec_evaluate(old(s).sview(), input, limit as nat).0
            && r == spec_evaluate(old(s).sview(), input, limit as nat).1.expr,
{
    if no_eval {
        quote_expr(s, input)
    } else {
        let (io, _steps) = crate::eval::evaluate(s, input, limit);
        io.expr
    }
}

/// Open a commitment: recompute it from the disclosed function and secret,
/// evaluate the function applied to the input within the limit, and
/// certify the result with a trace proof.  Succeeds exactly when the
/// commitment matches and the application reaches Done within the limit —
/// and, when chaining, the output carries a successor function and secret,
/// whose commitment is published for follow-up openings to be checked
/// against.
#[verifier::rlimit(100)]
pub fn open(
    s: &mut Store,
    claimed: Commitment,
    function: Ptr,
    secret: Option<Fe>,
    input: Ptr,
    limit: usize,
    chain: bool,
) -> (r: Result<Opening, Error>)
    requires
        store_wf(old(s).sview()),
        ptr_ok(old(s).sview(), function),
        ptr_ok(old(s).sview(), input),
        secret matches Some(x) ==> x.wf(),
        old(s).sview().len() + 2 * (limit as int) + 16 <= STORE_CAP,
    ensures
        store_wf(final(s).sview()),
        old(s).sview().is_prefix_of(final(s).sview()),
        ({
            let svx = spec_apply_expr(old(s).sview(), function, input).0;
            let expr = spec_apply_expr(old(s).sview(), function, input).1;
            let sve = spec_open_eval(old(s).sview(), function, input, limit as nat).0;
            let iof = spec_open_eval(old(s).sview(), function, input, limit as nat).1;
            match r {
                Result::Err(Error::CommitmentMismatch) => spec_commit(function, secret)
                    != claimed.comm.val(),
                Result::Err(Error::EvaluationIncomplete) => spec_commit(function, secret)
                    == claimed.comm.val() && !is_done(sve, iof),
                Result::Err(Error::TypeError) => spec_commit(function, secret)
                    == claimed.comm.val() && is_done(sve, iof) && chain && spec_chain_parts(
                    sve,
                    iof.expr,
                ) matches Option::None,
                Result::Ok(o) => {
                    &&& spec_commit(function, secret) == claimed.comm.val()
                    &&& is_done(sve, iof)
                    &&& o.commitment == claimed
                    &&& o.output == iof.expr
                    &&& o.input == (match secret {
                        Option::Some(_) => Option::<Ptr>::None,
                        Option::None => Option::Some(input),
                    })
                    &&& o.public == crate::trace::spec_publics(svx, expr, limit as nat)
                    &&& o.certificate.frames@ == spec_trace_frames(svx, expr, limit as nat)
                    &&& (chain ==> (match spec_chain_parts(sve, iof.expr) {
                        Option::Some((res, f2, x)) => o.new_commitment matches Option::Some(c2)
                            && c2.comm.val() == spec_commit(
                            f2,
                            Option::Some(crate::field::spec_fe(x as int)),
                        ) && c2.comm.wf(),
                        Option::None => false,
                    }))
                    &&& (!chain ==> o.new_commitment matches Option::None)
                    &&& spec_verify(sve, o.certificate.frames@, o.public)
                },
                _ => false,
            }
        }),
{
    let ghost sv00 = s.sview();
    let c = commit(s, function, secret);
    proof {
        crate::store::lemma_prefix_refl(s.sview());
        crate::field::lemma_fe_val(c.comm, claimed.comm);
    }
    if c.comm != claimed.comm {
        return Err(Error::CommitmentMismatch);
    }
    let expr = apply_expr(s, function, input);
    let ghost svx = s.sview();
    let (pf, io, _steps) = crate::trace::prove(s, expr, limit);
    let ghost sve = s.sview();
    proof {
        crate::store::lemma_prefix_trans(sv00, svx, sve);
    }
    if !crate::eval::done_check(s, io) {
        return Err(Error::EvaluationIncomplete);
    }
    let h_in = s.hash_ptr(expr);
    let h_out = s.hash_ptr(io.expr);
    let pb = PublicInputs { input: h_in, output: h_out, limit, status: Status::Complete };
    proof {
        crate::field::lemma_spec_fe_val(expr.idx as int);
        crate::field::lemma_spec_fe_val(io.expr.idx as int);
        crate::field::lemma_fe_val(h_in, crate::field::spec_fe(expr.idx as int));
        crate::field::lemma_fe_val(h_out, crate::field::spec_fe(io.expr.idx as int));
        crate::trace::lemma_proof_correctness(svx, expr, limit as nat);
    }
    let mut newc: Option<Commitment> = None;
    if chain {
        match s.kind(io.expr) {
            Kind::KPair(_result, rest) => {
                match s.kind(rest) {
                    Kind::KPair(f2, s2p) => {
                        match (s.kind(f2), s.kind(s2p)) {
                            (Kind::KFun(_, _, _), Kind::KNum(x)) => {
                                let sec2 = Fe::new(x);
                                let c2 = commit(s, f2, Some(sec2));
                                newc = Some(c2);
                            },
                            _ => {
                                return Err(Error::TypeError);
                            },
                        }
                    },
                    _ => {
                        return Err(Error::TypeError);
                    },
                }
            },
            _ => {
                return Err(Error::TypeError);
            },
        }
    }
    let inp = match secret {
        Some(_) => None,
        None => Some(input),
    };
    Ok(
        Opening {
            commitment: claimed,
            input: inp,
            output: io.expr,
            public: pb,
            new_commitment: newc,
            certificate: pf,
        },
    )
}

/// Verify an opening: re-derive the public inputs from the disclosed
/// fields and check the certificate against them.  Rejection is reported
/// as `verified == false`, never as a fault.
pub fn verify_opening(s: &mut Store, o: &Opening) -> (r: Result<VerificationResult, Error>)
    requires
        store_wf(old(s).sview()),
        old(s).sview().len() + 2 * (o.certificate.frames@.len() as int) + 2 <= STORE_CAP,
    ensures
        store_wf(final(s).sview()),
        old(s).sview().is_prefix_of(final(s).sview()),
        match r {
            Result::Ok(v) => v.verified == ({
                &&& ptr_ok(old(s).sview(), o.output)
                &&& o.public.output == crate::field::spec_fe(o.output.idx as int)
                &&& o.public.status == Status::Complete
                &&& spec_verify(old(s).sview(), o.certificate.frames@, o.public)
            }),
            _ => false,
        },
{
    let ghost sv0 = s.sview();
    proof {
        crate::store::lemma_prefix_refl(sv0);
    }
    let n = s.len();
    if o.output.idx >= n {
        return Ok(VerificationResult { verified: false });
    }
    let h = s.hash_ptr(o.output);
    proof {
        crate::field::lemma_spec_fe_val(o.output.idx as int);
        crate::field::lemma_fe_val(h, crate::field::spec_fe(o.output.idx as int));
        crate::field::lemma_fe_val(o.public.output, crate::field::spec_fe(o.output.idx as int));
    }
    if h != o.public.output {
        return Ok(VerificationResult { verified: false });
    }
    match o.public.status {
        Status::Complete => {},
        _ => {
            return Ok(VerificationResult { verified: false });
        },
    }
    let ok = crate::trace::verify(s, &o.certificate, &o.public);
    Ok(VerificationResult { verified: ok })
}

} // verus!
