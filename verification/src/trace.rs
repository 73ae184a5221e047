//! The trace relation and the proof layer over it.
//!
//! For a fixed step limit `L`, a witness is a padded trace of exactly
//! `L + 1` machine states: the first is the initial state of the public
//! input expression, consecutive states are related by one machine
//! transition, and because terminal states are fixed points of `step`,
//! traces that finish early are padded with identity transitions — every
//! proof for a given limit has the same shape regardless of how many steps
//! the program really used.  `prove` builds such a trace; `verify` checks
//! it against the public inputs alone, replaying each transition, and is
//! proved to accept exactly the traces that satisfy the relation.

use vstd::prelude::*;
use crate::field::Fe;
use crate::store::{
    lemma_intern_props, lemma_intern_stable, lemma_prefix_index, lemma_prefix_refl,
    lemma_prefix_trans, Entry, EntryV, Ptr, Store, ptr_ok, spec_intern, store_wf, STORE_CAP,
};
use crate::eval::{
    evaluate, io_ok, is_terminal, lemma_iter_add, lemma_iter_props, lemma_iter_snoc,
    lemma_run_iter, lemma_run_props, lemma_step_props, lemma_step_stable, spec_evaluate,
    spec_init, spec_iter, step, IO,
};

verus! {

/// The outcome a trace publicly claims.
#[derive(Clone, Copy, PartialEq, Eq, Structural, Debug)]
pub enum Status {
    /// The final continuation is Terminal.
    Complete,
    /// The final continuation is ErrorCont.
    Errored,
    /// The limit ran out before a terminal continuation.
    Incomplete,
}

/// The public face of a bounded evaluation: structural hashes of the input
/// and output expressions, the step limit, and the claimed outcome.  The
/// witness — the trace itself — stays out of this record.
#[derive(Clone, Copy, PartialEq, Eq, Structural, Debug)]
pub struct PublicInputs {
    pub input: Fe,
    pub output: Fe,
    pub limit: usize,
    pub status: Status,
}

/// A proof artifact: the padded witness trace.
pub struct Proof {
    pub frames: Vec<IO>,
}

/// The outcome a state claims.
pub open spec fn spec_status(sv: Seq<EntryV>, io: IO) -> Status {
    match sv[io.cont.idx as int] {
        EntryV::Terminal => Status::Complete,
        EntryV::ErrorCont => Status::Errored,
        _ => Status::Incomplete,
    }
}

/// Every frame's addresses exist in the store.
pub open spec fn frames_ok(sv: Seq<EntryV>, frames: Seq<IO>) -> bool {
    forall|j: int| 0 <= j < frames.len() ==> io_ok(sv, #[trigger] frames[j])
}

/// The disclosed public inputs agree with the trace's endpoints.
pub open spec fn spec_public_ok(sv: Seq<EntryV>, frames: Seq<IO>, pb: PublicInputs) -> bool {
    &&& frames.len() == pb.limit + 1
    &&& frames[0].expr.idx as int == pb.input.val()
    &&& sv[frames[0].env.idx as int] == EntryV::Nil
    &&& sv[frames[0].cont.idx as int] == EntryV::Outermost
    &&& frames[frames.len() - 1].expr.idx as int == pb.output.val()
    &&& spec_status(sv, frames[frames.len() - 1]) == pb.status
}

/// Replay the transitions of a trace from position `i` on, in the given
/// store; true when every consecutive pair is one machine transition.
pub open spec fn spec_check(sv: Seq<EntryV>, frames: Seq<IO>, i: int) -> (Seq<EntryV>, bool)
    decreases frames.len() - i,
{
    if i < 0 || i >= frames.len() - 1 {
        (sv, true)
    } else {
        let (sv1, io1) = crate::eval::spec_step(sv, frames[i]);
        if io1 == frames[i + 1] {
            spec_check(sv1, frames, i + 1)
        } else {
            (sv1, false)
        }
    }
}

/// The relation the proof layer certifies: the trace has the fixed padded
/// length, its endpoints match the public inputs, and every consecutive
/// pair of frames is one machine transition.
pub open spec fn spec_verify(sv: Seq<EntryV>, frames: Seq<IO>, pb: PublicInputs) -> bool {
    &&& frames.len() >= 1
    &&& frames_ok(sv, frames)
    &&& spec_public_ok(sv, frames, pb)
    &&& spec_check(sv, frames, 0).1
}

/// The padded witness trace of an expression: frame `j` is the machine
/// state after `j` transitions from the initial state.
pub open spec fn spec_trace_frames(sv: Seq<EntryV>, expr: Ptr, limit: nat) -> Seq<IO> {
    let (sv2, io0) = spec_init(sv, expr);
    Seq::new(limit + 1, |j: int| spec_iter(sv2, io0, j as nat).1)
}

/// The public inputs that disclose an evaluation of `expr` within `limit`.
pub open spec fn spec_publics(sv: Seq<EntryV>, expr: Ptr, limit: nat) -> PublicInputs {
    let (svf, iof, _k) = spec_evaluate(sv, expr, limit);
    PublicInputs {
        input: crate::field::spec_fe(expr.idx as int),
        output: crate::field::spec_fe(iof.expr.idx as int),
        limit: limit as usize,
        status: spec_status(svf, iof),
    }
}

/// Run an evaluation and build its padded witness trace.  Proving succeeds
/// for whatever state is reached at or before the limit — it does not by
/// itself require termination.  Returns the proof, the state reached and
/// the steps actually used.
#[verifier::rlimit(100)]
pub fn prove(s: &mut Store, expr: Ptr, limit: usize) -> (r: (Proof, IO, usize))
    requires
        store_wf(old(s).sview()),
        ptr_ok(old(s).sview(), expr),
        old(s).sview().len() + 2 * (limit as int) + 4 <= STORE_CAP,
    ensures
        store_wf(final(s).sview()),
        old(s).sview().is_prefix_of(final(s).sview()),
        final(s).sview() == spec_evaluate(old(s).sview(), expr, limit as nat).0,
        r.1 == spec_evaluate(old(s).sview(), expr, limit as nat).1,
        io_ok(final(s).sview(), r.1),
        r.2 as nat == spec_evaluate(old(s).sview(), expr, limit as nat).2,
        r.0.frames@ == spec_trace_frames(old(s).sview(), expr, limit as nat),
        r.0.frames@.len() == limit + 1,
        r.2 <= limit,
        is_terminal(final(s).sview(), r.1) || r.2 == limit,
{
    let ghost sv0 = s.sview();
    let (io_fin, steps) = evaluate(s, expr, limit);
    let ghost sv_e = s.sview();
    let ghost sv1 = spec_intern(sv0, EntryV::Nil).0;
    let ghost sv2 = spec_init(sv0, expr).0;
    let ghost io0g = spec_init(sv0, expr).1;
    proof {
        lemma_intern_props(sv0, EntryV::Nil);
        lemma_intern_props(sv1, EntryV::Outermost);
        lemma_run_props(sv2, io0g, limit as nat);
        lemma_prefix_trans(sv1, sv2, sv_e);
        lemma_intern_stable(sv0, sv_e, EntryV::Nil);
        lemma_intern_stable(sv1, sv_e, EntryV::Outermost);
        lemma_run_iter(sv2, io0g, limit as nat);
    }
    let envp = s.intern(Entry::Nil);
    let outer = s.intern(Entry::Outermost);
    let mut io = IO { expr, env: envp, cont: outer };
    let mut frames: Vec<IO> = Vec::new();
    frames.push(io);
    let mut i: usize = 0;
    while i < limit
        invariant
            store_wf(sv_e),
            io_ok(sv_e, io),
            s.sview() == sv_e,
            store_wf(sv2),
            io_ok(sv2, io0g),
            sv2.len() + 2 * (limit as int) <= STORE_CAP,
            sv_e.len() + 2 <= STORE_CAP,
            sv_e == spec_iter(sv2, io0g, limit as nat).0,
            i <= limit,
            io == spec_iter(sv2, io0g, i as nat).1,
            frames@.len() == i + 1,
            forall|j: int| 0 <= j <= i ==> frames@[j] == spec_iter(sv2, io0g, j as nat).1,
        decreases limit - i,
    {
        proof {
            lemma_prove_loop(sv2, io0g, limit as nat, i as nat);
        }
        io = step(s, io);
        frames.push(io);
        i += 1;
    }
    proof {
        assert(frames@ =~= spec_trace_frames(sv0, expr, limit as nat));
    }
    (Proof { frames }, io_fin, steps)
}

/// In the store an iteration has fully grown, each single transition of
/// that iteration replays as a pure read: same next state, no allocation.
proof fn lemma_prove_loop(sv2: Seq<EntryV>, io0: IO, limit: nat, i: nat)
    requires
        store_wf(sv2),
        io_ok(sv2, io0),
        sv2.len() + 2 * limit <= STORE_CAP,
        i < limit,
    ensures
        crate::eval::spec_step(spec_iter(sv2, io0, limit).0, spec_iter(sv2, io0, i).1) == (
        spec_iter(sv2, io0, limit).0, spec_iter(sv2, io0, i + 1).1),
        io_ok(spec_iter(sv2, io0, limit).0, spec_iter(sv2, io0, i + 1).1),
{
    let sv_l = spec_iter(sv2, io0, limit).0;
    lemma_iter_props(sv2, io0, limit);
    lemma_iter_props(sv2, io0, i);
    lemma_iter_snoc(sv2, io0, i);
    lemma_step_props(spec_iter(sv2, io0, i).0, spec_iter(sv2, io0, i).1);
    lemma_iter_add(sv2, io0, i + 1, (limit - i - 1) as nat);
    lemma_iter_props(
        spec_iter(sv2, io0, i + 1).0,
        spec_iter(sv2, io0, i + 1).1,
        (limit - i - 1) as nat,
    );
    lemma_step_stable(spec_iter(sv2, io0, i).0, sv_l, spec_iter(sv2, io0, i).1);
    lemma_iter_props(sv2, io0, i + 1);
    crate::store::lemma_prefix_index(
        spec_iter(sv2, io0, i + 1).0,
        sv_l,
        spec_iter(sv2, io0, i + 1).1.expr.idx as int,
    );
}

/// Check a proof against public inputs: no witness beyond the trace inside
/// the artifact is consulted, and rejection is a boolean result, never a
/// fault.  Accepts exactly the traces that satisfy the relation.
#[verifier::rlimit(100)]
pub fn verify(s: &mut Store, pf: &Proof, pb: &PublicInputs) -> (r: bool)
    requires
        store_wf(old(s).sview()),
        old(s).sview().len() + 2 * (pf.frames@.len() as int) + 2 <= STORE_CAP,
    ensures
        store_wf(final(s).sview()),
        old(s).sview().is_prefix_of(final(s).sview()),
        r == spec_verify(old(s).sview(), pf.frames@, *pb),
{
    let ghost sv0 = s.sview();
    proof {
        lemma_prefix_refl(sv0);
    }
    let nf = pf.frames.len();
    if nf == 0 {
        return false;
    }
    let n = s.len();
    let mut j: usize = 0;
    while j < nf
        invariant
            sv0 == old(s).sview(),
            s.sview() == sv0,
            store_wf(sv0),
            n == sv0.len(),
            nf == pf.frames@.len(),
            j <= nf,
            forall|t: int| 0 <= t < j ==> io_ok(sv0, #[trigger] pf.frames@[t]),
        decreases nf - j,
    {
        let f = pf.frames[j];
        if f.expr.idx >= n || f.env.idx >= n || f.cont.idx >= n {
            proof {
                assert(!io_ok(sv0, pf.frames@[j as int]));
            }
            return false;
        }
        j += 1;
    }
    let f0 = pf.frames[0];
    let flast = pf.frames[nf - 1];
    if nf - 1 != pb.limit {
        return false;
    }
    let h_in = s.hash_ptr(f0.expr);
    proof {
        crate::field::lemma_fe_val(h_in, pb.input);
    }
    if h_in != pb.input {
        return false;
    }
    match s.kind(f0.env) {
        crate::store::Kind::KNil => {},
        _ => {
            return false;
        },
    }
    match s.kind(f0.cont) {
        crate::store::Kind::KOuter => {},
        _ => {
            return false;
        },
    }
    let h_out = s.hash_ptr(flast.expr);
    proof {
        crate::field::lemma_fe_val(h_out, pb.output);
    }
    if h_out != pb.output {
        return false;
    }
    let st = match s.kind(flast.cont) {
        crate::store::Kind::KTerminal => Status::Complete,
        crate::store::Kind::KErr => Status::Errored,
        _ => Status::Incomplete,
    };
    if st != pb.status {
        return false;
    }
    check_chain(s, pf)
}

/// Replay every transition of the trace, in order, against the live store.
fn check_chain(s: &mut Store, pf: &Proof) -> (r: bool)
    requires
        store_wf(old(s).sview()),
        old(s).sview().len() + 2 * (pf.frames@.len() as int) + 2 <= STORE_CAP,
        frames_ok(old(s).sview(), pf.frames@),
        pf.frames@.len() >= 1,
    ensures
        store_wf(final(s).sview()),
        old(s).sview().is_prefix_of(final(s).sview()),
        r == spec_check(old(s).sview(), pf.frames@, 0).1,
{
    let ghost sv0 = s.sview();
    proof {
        lemma_prefix_refl(sv0);
    }
    let nf = pf.frames.len();
    let mut i: usize = 0;
    while i < nf - 1
        invariant
            sv0 == old(s).sview(),
            store_wf(s.sview()),
            sv0.is_prefix_of(s.sview()),
            s.sview().len() <= sv0.len() + 2 * i,
            sv0.len() + 2 * (nf as int) + 2 <= STORE_CAP,
            nf == pf.frames@.len(),
            nf >= 1,
            i <= nf - 1,
            frames_ok(sv0, pf.frames@),
            spec_check(sv0, pf.frames@, 0) == spec_check(s.sview(), pf.frames@, i as int),
        decreases nf - 1 - i,
    {
        let fi = pf.frames[i];
        let ghost svc = s.sview();
        let io1 = step(s, fi);
        proof {
            crate::store::lemma_prefix_trans(sv0, svc, s.sview());
        }
        let finext = pf.frames[i + 1];
        if io1 != finext {
            proof {
                assert(spec_check(svc, pf.frames@, i as int) == (s.sview(), false));
            }
            return false;
        }
        i += 1;
    }
    true
}

/// The transitions recorded by iterating the machine replay identically in
/// any well-formed extension of the store the iteration left behind.
proof fn lemma_check_iter(sv: Seq<EntryV>, sv_p: Seq<EntryV>, frames: Seq<IO>, i: int)
    requires
        store_wf(sv),
        0 <= i < frames.len(),
        io_ok(sv, frames[i]),
        sv.len() + 2 * (frames.len() - 1 - i) <= STORE_CAP,
        store_wf(sv_p),
        spec_iter(sv, frames[i], (frames.len() - 1 - i) as nat).0.is_prefix_of(sv_p),
        forall|j: int|
            i <= j < frames.len() ==> frames[j] == spec_iter(
                sv,
                frames[i],
                (j - i) as nat,
            ).1,
    ensures
        spec_check(sv_p, frames, i) == (sv_p, true),
    decreases frames.len() - i,
{
    if i >= frames.len() - 1 {
    } else {
        let sva = crate::eval::spec_step(sv, frames[i]).0;
        let ioa = crate::eval::spec_step(sv, frames[i]).1;
        lemma_step_props(sv, frames[i]);
        assert(frames[i + 1] == spec_iter(sv, frames[i], 1).1);
        assert(spec_iter(sv, frames[i], 1) == spec_iter(sva, ioa, 0));
        lemma_iter_props(sva, ioa, (frames.len() - 2 - i) as nat);
        assert(spec_iter(sv, frames[i], (frames.len() - 1 - i) as nat) == spec_iter(
            sva,
            ioa,
            (frames.len() - 2 - i) as nat,
        ));
        lemma_prefix_trans(sva, spec_iter(sva, ioa, (frames.len() - 2 - i) as nat).0, sv_p);
        lemma_step_stable(sv, sv_p, frames[i]);
        assert forall|j: int|
            i + 1 <= j < frames.len() implies #[trigger] frames[j] == spec_iter(
            sva,
            frames[i + 1],
            (j - i - 1) as nat,
        ).1 by {
            assert(frames[j] == spec_iter(sv, frames[i], (j - i) as nat).1);
            assert(spec_iter(sv, frames[i], (j - i) as nat) == spec_iter(
                sva,
                ioa,
                (j - i - 1) as nat,
            ));
        }
        lemma_check_iter(sva, sv_p, frames, i + 1);
    }
}

/// Proof correctness: the trace built for an evaluation satisfies the
/// relation against the public inputs derived from that same evaluation —
/// a freshly produced proof always verifies, in the store the prover left
/// behind.
pub proof fn lemma_proof_correctness(sv: Seq<EntryV>, expr: Ptr, limit: nat)
    requires
        store_wf(sv),
        ptr_ok(sv, expr),
        sv.len() + 2 * limit + 4 <= STORE_CAP,
    ensures
        spec_verify(
            spec_evaluate(sv, expr, limit).0,
            spec_trace_frames(sv, expr, limit),
            spec_publics(sv, expr, limit),
        ),
{
    let sv1 = spec_intern(sv, EntryV::Nil).0;
    lemma_intern_props(sv, EntryV::Nil);
    let sv2 = spec_init(sv, expr).0;
    let io0 = spec_init(sv, expr).1;
    lemma_intern_props(sv1, EntryV::Outermost);
    let frames = spec_trace_frames(sv, expr, limit);
    let sv_e = spec_evaluate(sv, expr, limit).0;
    let iof = spec_evaluate(sv, expr, limit).1;
    lemma_run_props(sv2, io0, limit);
    lemma_run_iter(sv2, io0, limit);
    assert forall|j: int| 0 <= j < frames.len() implies io_ok(sv_e, #[trigger] frames[j]) by {
        lemma_iter_props(sv2, io0, j as nat);
        lemma_iter_add(sv2, io0, j as nat, (limit - j) as nat);
        lemma_iter_props(
            spec_iter(sv2, io0, j as nat).0,
            spec_iter(sv2, io0, j as nat).1,
            (limit - j) as nat,
        );
    }
    lemma_prefix_index(sv1, sv2, io0.env.idx as int);
    lemma_prefix_index(sv2, sv_e, io0.env.idx as int);
    lemma_prefix_index(sv2, sv_e, io0.cont.idx as int);
    crate::field::lemma_spec_fe_val(expr.idx as int);
    crate::field::lemma_spec_fe_val(iof.expr.idx as int);
    lemma_check_iter(sv2, sv_e, frames, 0);
}

/// Proof soundness against output tampering: a proof that verifies no
/// longer verifies once the disclosed output is changed in any way —
/// flipping a single bit included.
pub proof fn lemma_proof_soundness_output(
    sv: Seq<EntryV>,
    frames: Seq<IO>,
    pb: PublicInputs,
    pb2: PublicInputs,
)
    requires
        spec_verify(sv, frames, pb),
        pb2.output != pb.output,
    ensures
        !spec_verify(sv, frames, pb2),
{
    crate::field::lemma_fe_val(pb.output, pb2.output);
}

/// Flipping any single bit of a machine word changes it.
pub proof fn lemma_bit_flip_changes(x: u64, k: u64)
    requires
        k < 64,
    ensures
        x ^ (1u64 << k) != x,
{
    assert(x ^ (1u64 << k) != x) by (bit_vector)
        requires
            k < 64,
    ;
}

/// Proof soundness, bit for bit: flipping any single bit of the disclosed
/// output makes a verifying proof fail verification.
pub proof fn lemma_proof_soundness_bit_flip(
    sv: Seq<EntryV>,
    frames: Seq<IO>,
    pb: PublicInputs,
    k: u64,
)
    requires
        spec_verify(sv, frames, pb),
        k < 64,
    ensures
        !spec_verify(
            sv,
            frames,
            (PublicInputs {
                output: crate::field::spec_fe(((pb.output.val() as u64) ^ (1u64 << k)) as int),
                ..pb
            }),
        ),
{
    let x = pb.output.val() as u64;
    lemma_bit_flip_changes(x, k);
    crate::field::lemma_spec_fe_u64(x ^ (1u64 << k));
    let pb2 = PublicInputs {
        output: crate::field::spec_fe((x ^ (1u64 << k)) as int),
        ..pb
    };
    crate::field::lemma_fe_val(pb.output, pb2.output);
    lemma_proof_soundness_output(sv, frames, pb, pb2);
}

} // verus!
