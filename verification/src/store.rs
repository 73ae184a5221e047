//! Content-addressed store of terms.
//!
//! The store is an append-only arena of entries.  An address (`Ptr`) is an
//! index into the arena; the interner never stores the same payload twice,
//! so structural equality of terms coincides with address equality
//! (`lemma_content_addressing`).  Entries only ever reference earlier
//! entries, which makes every term finite and every traversal terminating.
//! Environments and continuations are stored like any other term and are
//! never mutated after creation.

use vstd::prelude::*;
use crate::field::{Fe, FIELD_MODULUS};

verus! {

/// Upper bound on the number of entries a store may hold.  It keeps every
/// index inside the field, so that structural hashes are injective.
pub const STORE_CAP: usize = 0x4000_0000;

/// An address: a reference to an interned term.
#[derive(Clone, Copy, PartialEq, Eq, Structural, Debug)]
pub struct Ptr {
    pub idx: usize,
}

/// Unary primitive operators.
#[derive(Clone, Copy, PartialEq, Eq, Structural, Debug)]
pub enum Op1 {
    Car,
    Cdr,
}

/// Binary primitive operators.
#[derive(Clone, Copy, PartialEq, Eq, Structural, Debug)]
pub enum Op2 {
    Sum,
    Diff,
    Product,
    NumEqual,
    MakeCons,
}

/// A stored payload.  The first six variants are ordinary terms; the rest
/// are reified continuations, addressed like any other term.
pub enum Entry {
    /// The empty list / false value.
    Nil,
    /// A symbol, interned by name.
    Sym(Vec<u8>),
    /// A guest-language number: a field element.
    Num(u64),
    /// An ordered pair of addresses.
    Pair(Ptr, Ptr),
    /// A closure: parameter symbol, body, captured environment.
    Fun(Ptr, Ptr, Ptr),
    /// A value together with the continuation it is owed to.
    Thunk(Ptr, Ptr),
    /// Initial continuation of an evaluation.
    Outermost,
    /// Terminal continuation: evaluation finished.
    Terminal,
    /// Terminal continuation: the program erred.
    ErrorCont,
    /// Pending application: unevaluated argument, its environment, next.
    CallK(Ptr, Ptr, Ptr),
    /// Pending application: operator value, next.
    Call2K(Ptr, Ptr),
    /// Pending conditional: then-branch, else-branch, environment, next.
    IfK(Ptr, Ptr, Ptr, Ptr),
    /// Pending binary operation: operator, unevaluated second operand,
    /// environment, next.
    Binop1K(Op2, Ptr, Ptr, Ptr),
    /// Pending binary operation: operator, first operand value, next.
    Binop2K(Op2, Ptr, Ptr),
    /// Pending unary operation: operator, next.
    Unop1K(Op1, Ptr),
}

/// The mathematical shape of an entry.
pub enum EntryV {
    Nil,
    Sym(Seq<u8>),
    Num(u64),
    Pair(Ptr, Ptr),
    Fun(Ptr, Ptr, Ptr),
    Thunk(Ptr, Ptr),
    Outermost,
    Terminal,
    ErrorCont,
    CallK(Ptr, Ptr, Ptr),
    Call2K(Ptr, Ptr),
    IfK(Ptr, Ptr, Ptr, Ptr),
    Binop1K(Op2, Ptr, Ptr, Ptr),
    Binop2K(Op2, Ptr, Ptr),
    Unop1K(Op1, Ptr),
}

impl View for Entry {
    type V = EntryV;

    open spec fn view(&self) -> EntryV {
        match self {
            Entry::Nil => EntryV::Nil,
            Entry::Sym(name) => EntryV::Sym(name@),
            Entry::Num(v) => EntryV::Num(*v),
            Entry::Pair(a, d) => EntryV::Pair(*a, *d),
            Entry::Fun(p, b, e) => EntryV::Fun(*p, *b, *e),
            Entry::Thunk(v, k) => EntryV::Thunk(*v, *k),
            Entry::Outermost => EntryV::Outermost,
            Entry::Terminal => EntryV::Terminal,
            Entry::ErrorCont => EntryV::ErrorCont,
            Entry::CallK(a, e, k) => EntryV::CallK(*a, *e, *k),
            Entry::Call2K(f, k) => EntryV::Call2K(*f, *k),
            Entry::IfK(t, e, n, k) => EntryV::IfK(*t, *e, *n, *k),
            Entry::Binop1K(o, b, e, k) => EntryV::Binop1K(*o, *b, *e, *k),
            Entry::Binop2K(o, a, k) => EntryV::Binop2K(*o, *a, *k),
            Entry::Unop1K(o, k) => EntryV::Unop1K(*o, *k),
        }
    }
}

/// Every address held by the entry points strictly below `n`, and numbers
/// are reduced field elements.
pub open spec fn entry_ok(e: EntryV, n: int) -> bool {
    match e {
        EntryV::Nil => true,
        EntryV::Sym(_) => true,
        EntryV::Num(v) => v < FIELD_MODULUS,
        EntryV::Pair(a, d) => a.idx < n && d.idx < n,
        EntryV::Fun(p, b, en) => p.idx < n && b.idx < n && en.idx < n,
        EntryV::Thunk(v, k) => v.idx < n && k.idx < n,
        EntryV::Outermost => true,
        EntryV::Terminal => true,
        EntryV::ErrorCont => true,
        EntryV::CallK(a, e, k) => a.idx < n && e.idx < n && k.idx < n,
        EntryV::Call2K(f, k) => f.idx < n && k.idx < n,
        EntryV::IfK(t, e, en, k) => t.idx < n && e.idx < n && en.idx < n && k.idx < n,
        EntryV::Binop1K(_, b, e, k) => b.idx < n && e.idx < n && k.idx < n,
        EntryV::Binop2K(_, a, k) => a.idx < n && k.idx < n,
        EntryV::Unop1K(_, k) => k.idx < n,
    }
}

/// Well-formedness of a store: bounded, acyclic (entries reference only
/// earlier entries) and duplicate-free, so addresses are canonical.
pub open spec fn store_wf(sv: Seq<EntryV>) -> bool {
    &&& sv.len() <= STORE_CAP
    &&& forall|i: int| 0 <= i < sv.len() ==> entry_ok(#[trigger] sv[i], i)
    &&& forall|i: int, j: int|
        0 <= i < sv.len() && 0 <= j < sv.len() && i != j ==> sv[i] != sv[j]
}

/// The address refers to an existing entry.
pub open spec fn ptr_ok(sv: Seq<EntryV>, p: Ptr) -> bool {
    p.idx < sv.len()
}

/// Some entry of the store equals `e`.
pub open spec fn sv_contains(sv: Seq<EntryV>, e: EntryV) -> bool {
    exists|i: int| 0 <= i < sv.len() && sv[i] == e
}

/// The index of `e` in the store; meaningful when `sv_contains` holds and
/// the store is duplicate-free.
pub open spec fn sv_index(sv: Seq<EntryV>, e: EntryV) -> int {
    choose|i: int| 0 <= i < sv.len() && sv[i] == e
}

/// What interning does: reuse the existing address of an equal payload, or
/// append the payload at the end.
pub open spec fn spec_intern(sv: Seq<EntryV>, e: EntryV) -> (Seq<EntryV>, Ptr) {
    if sv_contains(sv, e) {
        (sv, Ptr { idx: sv_index(sv, e) as usize })
    } else {
        (sv.push(e), Ptr { idx: sv.len() as usize })
    }
}

/// Re-interning is idempotent: interning a payload twice yields the same
/// address as interning it once, and the second interning does not grow
/// the store.
pub proof fn lemma_intern_idempotent(sv: Seq<EntryV>, e: EntryV)
    requires
        store_wf(sv),
        sv.len() < STORE_CAP,
        entry_ok(e, sv.len() as int),
    ensures
        spec_intern(spec_intern(sv, e).0, e).0 == spec_intern(sv, e).0,
        spec_intern(spec_intern(sv, e).0, e).1 == spec_intern(sv, e).1,
{
    let (sv1, p1) = spec_intern(sv, e);
    if sv_contains(sv, e) {
        assert(spec_intern(sv1, e) == spec_intern(sv, e));
    } else {
        assert(sv1 == sv.push(e));
        assert(sv1[sv.len() as int] == e);
        assert(sv_contains(sv1, e));
        let i0 = sv_index(sv1, e);
        assert(0 <= i0 < sv1.len() && sv1[i0] == e);
        if i0 < sv.len() {
            assert(sv[i0] == e);
            assert(false);
        }
        assert(i0 == sv.len() as int);
    }
}

/// Structural identity of the terms denoted by two addresses: same shape,
/// same atoms, structurally identical children.
pub open spec fn den_eq(sv: Seq<EntryV>, a: int, b: int) -> bool
    decreases a + b,
    when store_wf(sv) && 0 <= a < sv.len() && 0 <= b < sv.len()
{
    match (sv[a], sv[b]) {
        (EntryV::Nil, EntryV::Nil) => true,
        (EntryV::Sym(x), EntryV::Sym(y)) => x == y,
        (EntryV::Num(x), EntryV::Num(y)) => x == y,
        (EntryV::Pair(a1, d1), EntryV::Pair(a2, d2)) => den_eq(sv, a1.idx as int, a2.idx as int)
            && den_eq(sv, d1.idx as int, d2.idx as int),
        (EntryV::Fun(p1, b1, e1), EntryV::Fun(p2, b2, e2)) => den_eq(
            sv,
            p1.idx as int,
            p2.idx as int,
        ) && den_eq(sv, b1.idx as int, b2.idx as int) && den_eq(sv, e1.idx as int, e2.idx as int),
        (EntryV::Thunk(v1, k1), EntryV::Thunk(v2, k2)) => den_eq(sv, v1.idx as int, v2.idx as int)
            && den_eq(sv, k1.idx as int, k2.idx as int),
        (EntryV::Outermost, EntryV::Outermost) => true,
        (EntryV::Terminal, EntryV::Terminal) => true,
        (EntryV::ErrorCont, EntryV::ErrorCont) => true,
        (EntryV::CallK(a1, e1, k1), EntryV::CallK(a2, e2, k2)) => den_eq(
            sv,
            a1.idx as int,
            a2.idx as int,
        ) && den_eq(sv, e1.idx as int, e2.idx as int) && den_eq(sv, k1.idx as int, k2.idx as int),
        (EntryV::Call2K(f1, k1), EntryV::Call2K(f2, k2)) => den_eq(sv, f1.idx as int, f2.idx as int)
            && den_eq(sv, k1.idx as int, k2.idx as int),
        (EntryV::IfK(t1, e1, n1, k1), EntryV::IfK(t2, e2, n2, k2)) => den_eq(
            sv,
            t1.idx as int,
            t2.idx as int,
        ) && den_eq(sv, e1.idx as int, e2.idx as int) && den_eq(sv, n1.idx as int, n2.idx as int)
            && den_eq(sv, k1.idx as int, k2.idx as int),
        (EntryV::Binop1K(o1, b1, e1, k1), EntryV::Binop1K(o2, b2, e2, k2)) => o1 == o2 && den_eq(
            sv,
            b1.idx as int,
            b2.idx as int,
        ) && den_eq(sv, e1.idx as int, e2.idx as int) && den_eq(sv, k1.idx as int, k2.idx as int),
        (EntryV::Binop2K(o1, a1, k1), EntryV::Binop2K(o2, a2, k2)) => o1 == o2 && den_eq(
            sv,
            a1.idx as int,
            a2.idx as int,
        ) && den_eq(sv, k1.idx as int, k2.idx as int),
        (EntryV::Unop1K(o1, k1), EntryV::Unop1K(o2, k2)) => o1 == o2 && den_eq(
            sv,
            k1.idx as int,
            k2.idx as int,
        ),
        _ => false,
    }
}

/// Structural identity is reflexive.
pub proof fn lemma_den_eq_refl(sv: Seq<EntryV>, a: int)
    requires
        store_wf(sv),
        0 <= a < sv.len(),
    ensures
        den_eq(sv, a, a),
    decreases a,
{
    match sv[a] {
        EntryV::Pair(a1, d1) => {
            lemma_den_eq_refl(sv, a1.idx as int);
            lemma_den_eq_refl(sv, d1.idx as int);
        },
        EntryV::Fun(p1, b1, e1) => {
            lemma_den_eq_refl(sv, p1.idx as int);
            lemma_den_eq_refl(sv, b1.idx as int);
            lemma_den_eq_refl(sv, e1.idx as int);
        },
        EntryV::Thunk(v1, k1) => {
            lemma_den_eq_refl(sv, v1.idx as int);
            lemma_den_eq_refl(sv, k1.idx as int);
        },
        EntryV::CallK(a1, e1, k1) => {
            lemma_den_eq_refl(sv, a1.idx as int);
            lemma_den_eq_refl(sv, e1.idx as int);
            lemma_den_eq_refl(sv, k1.idx as int);
        },
        EntryV::Call2K(f1, k1) => {
            lemma_den_eq_refl(sv, f1.idx as int);
            lemma_den_eq_refl(sv, k1.idx as int);
        },
        EntryV::IfK(t1, e1, n1, k1) => {
            lemma_den_eq_refl(sv, t1.idx as int);
            lemma_den_eq_refl(sv, e1.idx as int);
            lemma_den_eq_refl(sv, n1.idx as int);
            lemma_den_eq_refl(sv, k1.idx as int);
        },
        EntryV::Binop1K(_, b1, e1, k1) => {
            lemma_den_eq_refl(sv, b1.idx as int);
            lemma_den_eq_refl(sv, e1.idx as int);
            lemma_den_eq_refl(sv, k1.idx as int);
        },
        EntryV::Binop2K(_, a1, k1) => {
            lemma_den_eq_refl(sv, a1.idx as int);
            lemma_den_eq_refl(sv, k1.idx as int);
        },
        EntryV::Unop1K(_, k1) => {
            lemma_den_eq_refl(sv, k1.idx as int);
        },
        _ => {},
    }
}

/// Structurally identical terms live at the same address: the store is
/// duplicate-free, so identity of shape forces identity of index.
pub proof fn lemma_den_eq_injective(sv: Seq<EntryV>, a: int, b: int)
    requires
        store_wf(sv),
        0 <= a < sv.len(),
        0 <= b < sv.len(),
        den_eq(sv, a, b),
    ensures
        a == b,
    decreases a + b,
{
    match (sv[a], sv[b]) {
        (EntryV::Pair(a1, d1), EntryV::Pair(a2, d2)) => {
            lemma_den_eq_injective(sv, a1.idx as int, a2.idx as int);
            lemma_den_eq_injective(sv, d1.idx as int, d2.idx as int);
        },
        (EntryV::Fun(p1, b1, e1), EntryV::Fun(p2, b2, e2)) => {
            lemma_den_eq_injective(sv, p1.idx as int, p2.idx as int);
            lemma_den_eq_injective(sv, b1.idx as int, b2.idx as int);
            lemma_den_eq_injective(sv, e1.idx as int, e2.idx as int);
        },
        (EntryV::Thunk(v1, k1), EntryV::Thunk(v2, k2)) => {
            lemma_den_eq_injective(sv, v1.idx as int, v2.idx as int);
            lemma_den_eq_injective(sv, k1.idx as int, k2.idx as int);
        },
        (EntryV::CallK(a1, e1, k1), EntryV::CallK(a2, e2, k2)) => {
            lemma_den_eq_injective(sv, a1.idx as int, a2.idx as int);
            lemma_den_eq_injective(sv, e1.idx as int, e2.idx as int);
            lemma_den_eq_injective(sv, k1.idx as int, k2.idx as int);
        },
        (EntryV::Call2K(f1, k1), EntryV::Call2K(f2, k2)) => {
            lemma_den_eq_injective(sv, f1.idx as int, f2.idx as int);
            lemma_den_eq_injective(sv, k1.idx as int, k2.idx as int);
        },
        (EntryV::IfK(t1, e1, n1, k1), EntryV::IfK(t2, e2, n2, k2)) => {
            lemma_den_eq_injective(sv, t1.idx as int, t2.idx as int);
            lemma_den_eq_injective(sv, e1.idx as int, e2.idx as int);
            lemma_den_eq_injective(sv, n1.idx as int, n2.idx as int);
            lemma_den_eq_injective(sv, k1.idx as int, k2.idx as int);
        },
        (EntryV::Binop1K(_, b1, e1, k1), EntryV::Binop1K(_, b2, e2, k2)) => {
            lemma_den_eq_injective(sv, b1.idx as int, b2.idx as int);
            lemma_den_eq_injective(sv, e1.idx as int, e2.idx as int);
            lemma_den_eq_injective(sv, k1.idx as int, k2.idx as int);
        },
        (EntryV::Binop2K(_, a1, k1), EntryV::Binop2K(_, a2, k2)) => {
            lemma_den_eq_injective(sv, a1.idx as int, a2.idx as int);
            lemma_den_eq_injective(sv, k1.idx as int, k2.idx as int);
        },
        (EntryV::Unop1K(_, k1), EntryV::Unop1K(_, k2)) => {
            lemma_den_eq_injective(sv, k1.idx as int, k2.idx as int);
        },
        _ => {},
    }
    assert(sv[a] == sv[b]);
    if a != b {
        assert(false);
    }
}

/// Content addressing: two addresses of one store denote structurally
/// identical terms exactly when they are the same address.
pub proof fn lemma_content_addressing(sv: Seq<EntryV>, a: int, b: int)
    requires
        store_wf(sv),
        0 <= a < sv.len(),
        0 <= b < sv.len(),
    ensures
        den_eq(sv, a, b) <==> a == b,
{
    if den_eq(sv, a, b) {
        lemma_den_eq_injective(sv, a, b);
    }
    if a == b {
        lemma_den_eq_refl(sv, a);
    }
}

/// Indexing below the prefix length agrees between a sequence and any
/// extension of it.
pub proof fn lemma_prefix_index(s1: Seq<EntryV>, s2: Seq<EntryV>, i: int)
    requires
        s1.is_prefix_of(s2),
        0 <= i < s1.len(),
    ensures
        s2[i] == s1[i],
{
    assert(s2.subrange(0, s1.len() as int)[i] == s2[i]);
}

/// Prefix extension is transitive.
pub proof fn lemma_prefix_trans(s1: Seq<EntryV>, s2: Seq<EntryV>, s3: Seq<EntryV>)
    requires
        s1.is_prefix_of(s2),
        s2.is_prefix_of(s3),
    ensures
        s1.is_prefix_of(s3),
{
    assert forall|i: int| 0 <= i < s1.len() implies s3.subrange(0, s1.len() as int)[i] == s1[i] by {
        lemma_prefix_index(s1, s2, i);
        lemma_prefix_index(s2, s3, i);
    }
    assert(s1 =~= s3.subrange(0, s1.len() as int));
}

/// Every sequence is a prefix of itself.
pub proof fn lemma_prefix_refl(s1: Seq<EntryV>)
    ensures
        s1.is_prefix_of(s1),
{
    assert(s1 =~= s1.subrange(0, s1.len() as int));
}

/// Spec-level counterpart of the interner's contract: interning preserves
/// well-formedness, returns a valid canonical address for the payload, and
/// grows the store by at most the payload.
pub proof fn lemma_intern_props(sv: Seq<EntryV>, e: EntryV)
    requires
        store_wf(sv),
        sv.len() < STORE_CAP,
        entry_ok(e, sv.len() as int),
    ensures
        store_wf(spec_intern(sv, e).0),
        ptr_ok(spec_intern(sv, e).0, spec_intern(sv, e).1),
        spec_intern(sv, e).0[spec_intern(sv, e).1.idx as int] == e,
        sv.is_prefix_of(spec_intern(sv, e).0),
        sv.len() <= spec_intern(sv, e).0.len() <= sv.len() + 1,
{
    let (sv1, p) = spec_intern(sv, e);
    if sv_contains(sv, e) {
        let i0 = sv_index(sv, e);
        assert(0 <= i0 < sv.len() && sv[i0] == e);
        lemma_prefix_refl(sv);
    } else {
        assert(sv1 == sv.push(e));
        assert forall|i: int| 0 <= i < sv1.len() implies entry_ok(#[trigger] sv1[i], i) by {
            if i < sv.len() {
                assert(sv1[i] == sv[i]);
            }
        }
        assert forall|i: int, j: int|
            0 <= i < sv1.len() && 0 <= j < sv1.len() && i != j implies sv1[i] != sv1[j] by {
            if i < sv.len() && j < sv.len() {
            } else if i < sv.len() {
                assert(sv1[j] == e);
                assert(sv1[i] == sv[i]);
                assert(!sv_contains(sv, e));
            } else {
                assert(sv1[i] == e);
                assert(sv1[j] == sv[j]);
                assert(!sv_contains(sv, e));
            }
        }
        assert(sv =~= sv1.subrange(0, sv.len() as int));
    }
}

/// Interning is stable under store growth: once the canonical entry for a
/// payload exists, interning the payload in any well-formed extension
/// returns the same address and adds nothing.
pub proof fn lemma_intern_stable(sv: Seq<EntryV>, svbig: Seq<EntryV>, e: EntryV)
    requires
        store_wf(sv),
        store_wf(svbig),
        spec_intern(sv, e).0.is_prefix_of(svbig),
    ensures
        spec_intern(svbig, e) == (svbig, spec_intern(sv, e).1),
{
    let (sv1, p) = spec_intern(sv, e);
    if sv_contains(sv, e) {
        let k = sv_index(sv, e);
        assert(0 <= k < sv.len() && sv[k] == e);
        lemma_prefix_index(sv1, svbig, k);
        assert(svbig[k] == e);
        assert(sv_contains(svbig, e));
        let i0 = sv_index(svbig, e);
        assert(0 <= i0 < svbig.len() && svbig[i0] == e);
        if i0 != k {
            assert(svbig[i0] != svbig[k]);
            assert(false);
        }
    } else {
        let k = sv.len() as int;
        assert(sv1[k] == e);
        lemma_prefix_index(sv1, svbig, k);
        assert(svbig[k] == e);
        assert(sv_contains(svbig, e));
        let i0 = sv_index(svbig, e);
        assert(0 <= i0 < svbig.len() && svbig[i0] == e);
        if i0 != k {
            assert(svbig[i0] != svbig[k]);
            assert(false);
        }
        assert(p == Ptr { idx: sv.len() as usize });
    }
}

/// A bounded byte-vector comparison.
fn bytes_eq(a: &Vec<u8>, b: &Vec<u8>) -> (r: bool)
    ensures
        r == (a@ == b@),
{
    if a.len() != b.len() {
        return false;
    }
    let mut i: usize = 0;
    while i < a.len()
        invariant
            i <= a.len(),
            a.len() == b.len(),
            forall|j: int| 0 <= j < i ==> a@[j] == b@[j],
        decreases a.len() - i,
    {
        if a[i] != b[i] {
            return false;
        }
        i += 1;
    }
    proof {
        assert(a@ =~= b@);
    }
    true
}

/// Structural equality of two payloads.
fn entry_eq(a: &Entry, b: &Entry) -> (r: bool)
    ensures
        r == (a@ == b@),
{
    match (a, b) {
        (Entry::Nil, Entry::Nil) => true,
        (Entry::Sym(x), Entry::Sym(y)) => bytes_eq(x, y),
        (Entry::Num(x), Entry::Num(y)) => x == y,
        (Entry::Pair(a1, d1), Entry::Pair(a2, d2)) => a1 == a2 && d1 == d2,
        (Entry::Fun(p1, b1, e1), Entry::Fun(p2, b2, e2)) => p1 == p2 && b1 == b2 && e1 == e2,
        (Entry::Thunk(v1, k1), Entry::Thunk(v2, k2)) => v1 == v2 && k1 == k2,
        (Entry::Outermost, Entry::Outermost) => true,
        (Entry::Terminal, Entry::Terminal) => true,
        (Entry::ErrorCont, Entry::ErrorCont) => true,
        (Entry::CallK(a1, e1, k1), Entry::CallK(a2, e2, k2)) => a1 == a2 && e1 == e2 && k1 == k2,
        (Entry::Call2K(f1, k1), Entry::Call2K(f2, k2)) => f1 == f2 && k1 == k2,
        (Entry::IfK(t1, e1, n1, k1), Entry::IfK(t2, e2, n2, k2)) => t1 == t2 && e1 == e2 && n1
            == n2 && k1 == k2,
        (Entry::Binop1K(o1, b1, e1, k1), Entry::Binop1K(o2, b2, e2, k2)) => o1 == o2 && b1 == b2
            && e1 == e2 && k1 == k2,
        (Entry::Binop2K(o1, a1, k1), Entry::Binop2K(o2, a2, k2)) => o1 == o2 && a1 == a2 && k1
            == k2,
        (Entry::Unop1K(o1, k1), Entry::Unop1K(o2, k2)) => o1 == o2 && k1 == k2,
        _ => false,
    }
}

/// The role a symbol name plays in the language.
#[derive(Clone, Copy, PartialEq, Eq, Structural, Debug)]
pub enum SymKind {
    Quote,
    Lambda,
    If,
    OpSum,
    OpDiff,
    OpProd,
    OpNumEq,
    OpCons,
    OpCar,
    OpCdr,
    NilName,
    TName,
    Other,
}

/// A copyable summary of an entry, as the evaluator reads it.
#[derive(Clone, Copy, PartialEq, Eq, Structural, Debug)]
pub enum Kind {
    KNil,
    KSym(SymKind),
    KNum(u64),
    KPair(Ptr, Ptr),
    KFun(Ptr, Ptr, Ptr),
    KThunk(Ptr, Ptr),
    KOuter,
    KTerminal,
    KErr,
    KCall(Ptr, Ptr, Ptr),
    KCall2(Ptr, Ptr),
    KIf(Ptr, Ptr, Ptr, Ptr),
    KBinop1(Op2, Ptr, Ptr, Ptr),
    KBinop2(Op2, Ptr, Ptr),
    KUnop(Op1, Ptr),
}

pub open spec fn name_quote() -> Seq<u8> {
    seq![113u8, 117u8, 111u8, 116u8, 101u8]
}

pub open spec fn name_lambda() -> Seq<u8> {
    seq![108u8, 97u8, 109u8, 98u8, 100u8, 97u8]
}

pub open spec fn name_if() -> Seq<u8> {
    seq![105u8, 102u8]
}

pub open spec fn name_sum() -> Seq<u8> {
    seq![43u8]
}

pub open spec fn name_diff() -> Seq<u8> {
    seq![45u8]
}

pub open spec fn name_prod() -> Seq<u8> {
    seq![42u8]
}

pub open spec fn name_numeq() -> Seq<u8> {
    seq![61u8]
}

pub open spec fn name_cons() -> Seq<u8> {
    seq![99u8, 111u8, 110u8, 115u8]
}

pub open spec fn name_car() -> Seq<u8> {
    seq![99u8, 97u8, 114u8]
}

pub open spec fn name_cdr() -> Seq<u8> {
    seq![99u8, 100u8, 114u8]
}

pub open spec fn name_nil() -> Seq<u8> {
    seq![110u8, 105u8, 108u8]
}

pub open spec fn name_t() -> Seq<u8> {
    seq![116u8]
}

/// Classify a symbol name.
pub open spec fn spec_classify(n: Seq<u8>) -> SymKind {
    if n == name_quote() {
        SymKind::Quote
    } else if n == name_lambda() {
        SymKind::Lambda
    } else if n == name_if() {
        SymKind::If
    } else if n == name_sum() {
        SymKind::OpSum
    } else if n == name_diff() {
        SymKind::OpDiff
    } else if n == name_prod() {
        SymKind::OpProd
    } else if n == name_numeq() {
        SymKind::OpNumEq
    } else if n == name_cons() {
        SymKind::OpCons
    } else if n == name_car() {
        SymKind::OpCar
    } else if n == name_cdr() {
        SymKind::OpCdr
    } else if n == name_nil() {
        SymKind::NilName
    } else if n == name_t() {
        SymKind::TName
    } else {
        SymKind::Other
    }
}

/// The summary of the entry at an address.
pub open spec fn spec_kind(sv: Seq<EntryV>, p: Ptr) -> Kind {
    match sv[p.idx as int] {
        EntryV::Nil => Kind::KNil,
        EntryV::Sym(n) => Kind::KSym(spec_classify(n)),
        EntryV::Num(v) => Kind::KNum(v),
        EntryV::Pair(a, d) => Kind::KPair(a, d),
        EntryV::Fun(pm, b, e) => Kind::KFun(pm, b, e),
        EntryV::Thunk(v, k) => Kind::KThunk(v, k),
        EntryV::Outermost => Kind::KOuter,
        EntryV::Terminal => Kind::KTerminal,
        EntryV::ErrorCont => Kind::KErr,
        EntryV::CallK(a, e, k) => Kind::KCall(a, e, k),
        EntryV::Call2K(f, k) => Kind::KCall2(f, k),
        EntryV::IfK(t, e, n, k) => Kind::KIf(t, e, n, k),
        EntryV::Binop1K(o, b, e, k) => Kind::KBinop1(o, b, e, k),
        EntryV::Binop2K(o, a, k) => Kind::KBinop2(o, a, k),
        EntryV::Unop1K(o, k) => Kind::KUnop(o, k),
    }
}

/// Classify a symbol name at run time.
fn classify_name(name: &Vec<u8>) -> (k: SymKind)
    ensures
        k == spec_classify(name@),
{
    let n = name.len();
    if n == 5 && name[0] == 113 && name[1] == 117 && name[2] == 111 && name[3] == 116 && name[4]
        == 101 {
        proof {
            assert(name@ =~= name_quote());
        }
        SymKind::Quote
    } else if n == 6 && name[0] == 108 && name[1] == 97 && name[2] == 109 && name[3] == 98
        && name[4] == 100 && name[5] == 97 {
        proof {
            assert(name@ =~= name_lambda());
        }
        SymKind::Lambda
    } else if n == 2 && name[0] == 105 && name[1] == 102 {
        proof {
            assert(name@ =~= name_if());
        }
        SymKind::If
    } else if n == 1 && name[0] == 43 {
        proof {
            assert(name@ =~= name_sum());
        }
        SymKind::OpSum
    } else if n == 1 && name[0] == 45 {
        proof {
            assert(name@ =~= name_diff());
        }
        SymKind::OpDiff
    } else if n == 1 && name[0] == 42 {
        proof {
            assert(name@ =~= name_prod());
        }
        SymKind::OpProd
    } else if n == 1 && name[0] == 61 {
        proof {
            assert(name@ =~= name_numeq());
        }
        SymKind::OpNumEq
    } else if n == 4 && name[0] == 99 && name[1] == 111 && name[2] == 110 && name[3] == 115 {
        proof {
            assert(name@ =~= name_cons());
        }
        SymKind::OpCons
    } else if n == 3 && name[0] == 99 && name[1] == 97 && name[2] == 114 {
        proof {
            assert(name@ =~= name_car());
        }
        SymKind::OpCar
    } else if n == 3 && name[0] == 99 && name[1] == 100 && name[2] == 114 {
        proof {
            assert(name@ =~= name_cdr());
        }
        SymKind::OpCdr
    } else if n == 3 && name[0] == 110 && name[1] == 105 && name[2] == 108 {
        proof {
            assert(name@ =~= name_nil());
        }
        SymKind::NilName
    } else if n == 1 && name[0] == 116 {
        proof {
            assert(name@ =~= name_t());
        }
        SymKind::TName
    } else {
        proof {
            assert(name@ != name_quote()) by {
                if name@ == name_quote() {
                    assert(name@.len() == 5);
                    assert(name@[0] == 113u8 && name@[1] == 117u8 && name@[2] == 111u8 && name@[3]
                        == 116u8 && name@[4] == 101u8);
                }
            }
            assert(name@ != name_lambda()) by {
                if name@ == name_lambda() {
                    assert(name@.len() == 6);
                    assert(name@[0] == 108u8 && name@[1] == 97u8 && name@[2] == 109u8 && name@[3]
                        == 98u8 && name@[4] == 100u8 && name@[5] == 97u8);
                }
            }
            assert(name@ != name_if()) by {
                if name@ == name_if() {
                    assert(name@.len() == 2);
                    assert(name@[0] == 105u8 && name@[1] == 102u8);
                }
            }
            assert(name@ != name_sum()) by {
                if name@ == name_sum() {
                    assert(name@.len() == 1);
                    assert(name@[0] == 43u8);
                }
            }
            assert(name@ != name_diff()) by {
                if name@ == name_diff() {
                    assert(name@.len() == 1);
                    assert(name@[0] == 45u8);
                }
            }
            assert(name@ != name_prod()) by {
                if name@ == name_prod() {
                    assert(name@.len() == 1);
                    assert(name@[0] == 42u8);
                }
            }
            assert(name@ != name_numeq()) by {
                if name@ == name_numeq() {
                    assert(name@.len() == 1);
                    assert(name@[0] == 61u8);
                }
            }
            assert(name@ != name_cons()) by {
                if name@ == name_cons() {
                    assert(name@.len() == 4);
                    assert(name@[0] == 99u8 && name@[1] == 111u8 && name@[2] == 110u8 && name@[3]
                        == 115u8);
                }
            }
            assert(name@ != name_car()) by {
                if name@ == name_car() {
                    assert(name@.len() == 3);
                    assert(name@[0] == 99u8 && name@[1] == 97u8 && name@[2] == 114u8);
                }
            }
            assert(name@ != name_cdr()) by {
                if name@ == name_cdr() {
                    assert(name@.len() == 3);
                    assert(name@[0] == 99u8 && name@[1] == 100u8 && name@[2] == 114u8);
                }
            }
            assert(name@ != name_nil()) by {
                if name@ == name_nil() {
                    assert(name@.len() == 3);
                    assert(name@[0] == 110u8 && name@[1] == 105u8 && name@[2] == 108u8);
                }
            }
            assert(name@ != name_t()) by {
                if name@ == name_t() {
                    assert(name@.len() == 1);
                    assert(name@[0] == 116u8);
                }
            }
        }
        SymKind::Other
    }
}

/// The content-addressed arena.
pub struct Store {
    entries: Vec<Entry>,
}

impl Store {
    /// The mathematical content of the store.
    pub closed spec fn sview(&self) -> Seq<EntryV> {
        self.entries@.map_values(|e: Entry| e@)
    }

    /// A fresh, empty store.
    pub fn new() -> (s: Store)
        ensures
            s.sview() == Seq::<EntryV>::empty(),
            store_wf(s.sview()),
    {
        let s = Store { entries: Vec::new() };
        proof {
            assert(s.sview() =~= Seq::<EntryV>::empty());
        }
        s
    }

    /// Intern a payload: return the canonical address of an equal existing
    /// entry, or append the payload.
    pub(crate) fn intern(&mut self, e: Entry) -> (r: Ptr)
        requires
            store_wf(old(self).sview()),
            old(self).sview().len() < STORE_CAP,
            entry_ok(e@, old(self).sview().len() as int),
        ensures
            store_wf(final(self).sview()),
            (final(self).sview(), r) == spec_intern(old(self).sview(), e@),
            ptr_ok(final(self).sview(), r),
            final(self).sview()[r.idx as int] == e@,
            old(self).sview().is_prefix_of(final(self).sview()),
            final(self).sview().len() <= old(self).sview().len() + 1,
    {
        let ghost sv0 = self.sview();
        let ghost ev = e@;
        let n = self.entries.len();
        let mut k: usize = 0;
        while k < n
            invariant
                store_wf(sv0),
                sv0 == old(self).sview(),
                n == sv0.len(),
                self.sview() == sv0,
                k <= n,
                ev == e@,
                entry_ok(ev, sv0.len() as int),
                forall|j: int| 0 <= j < k ==> sv0[j] != ev,
            decreases n - k,
        {
            let same = entry_eq(&self.entries[k], &e);
            if same {
                proof {
                    assert(sv0[k as int] == ev);
                    assert(sv_contains(sv0, ev));
                    let i0 = sv_index(sv0, ev);
                    assert(0 <= i0 < sv0.len() && sv0[i0] == ev);
                    if i0 != k as int {
                        assert(sv0[i0] != sv0[k as int]);
                        assert(false);
                    }
                    assert(i0 == k as int);
                }
                return Ptr { idx: k };
            }
            k += 1;
        }
        proof {
            assert(!sv_contains(sv0, ev));
        }
        self.entries.push(e);
        proof {
            assert(self.sview() =~= sv0.push(ev));
            assert forall|i: int| 0 <= i < self.sview().len() implies entry_ok(
                #[trigger] self.sview()[i],
                i,
            ) by {
                if i < sv0.len() {
                    assert(self.sview()[i] == sv0[i]);
                }
            }
            assert forall|i: int, j: int|
                0 <= i < self.sview().len() && 0 <= j < self.sview().len() && i != j implies self
                .sview()[i] != self.sview()[j] by {
                if i < sv0.len() && j < sv0.len() {
                } else if i < sv0.len() {
                    assert(self.sview()[j] == ev);
                    assert(sv0[i] != ev);
                } else {
                    assert(self.sview()[i] == ev);
                    assert(sv0[j] != ev);
                }
            }
            assert(sv0.is_prefix_of(self.sview()));
        }
        Ptr { idx: n }
    }

    /// Intern the empty-list term.
    pub fn intern_nil(&mut self) -> (r: Ptr)
        requires
            store_wf(old(self).sview()),
            old(self).sview().len() < STORE_CAP,
        ensures
            store_wf(final(self).sview()),
            (final(self).sview(), r) == spec_intern(old(self).sview(), EntryV::Nil),
            old(self).sview().is_prefix_of(final(self).sview()),
            final(self).sview().len() <= old(self).sview().len() + 1,
    {
        self.intern(Entry::Nil)
    }

    /// Intern a symbol by name.
    pub fn intern_symbol(&mut self, name: Vec<u8>) -> (r: Ptr)
        requires
            store_wf(old(self).sview()),
            old(self).sview().len() < STORE_CAP,
        ensures
            store_wf(final(self).sview()),
            (final(self).sview(), r) == spec_intern(old(self).sview(), EntryV::Sym(name@)),
            old(self).sview().is_prefix_of(final(self).sview()),
            final(self).sview().len() <= old(self).sview().len() + 1,
    {
        self.intern(Entry::Sym(name))
    }

    /// Intern a number, reduced into the field.
    pub fn intern_number(&mut self, v: u64) -> (r: Ptr)
        requires
            store_wf(old(self).sview()),
            old(self).sview().len() < STORE_CAP,
        ensures
            store_wf(final(self).sview()),
            (final(self).sview(), r) == spec_intern(
                old(self).sview(),
                EntryV::Num(v % FIELD_MODULUS),
            ),
            old(self).sview().is_prefix_of(final(self).sview()),
            final(self).sview().len() <= old(self).sview().len() + 1,
    {
        self.intern(Entry::Num(v % FIELD_MODULUS))
    }

    /// Intern the pair of two existing terms.
    pub fn cons(&mut self, a: Ptr, d: Ptr) -> (r: Ptr)
        requires
            store_wf(old(self).sview()),
            old(self).sview().len() < STORE_CAP,
            ptr_ok(old(self).sview(), a),
            ptr_ok(old(self).sview(), d),
        ensures
            store_wf(final(self).sview()),
            (final(self).sview(), r) == spec_intern(old(self).sview(), EntryV::Pair(a, d)),
            old(self).sview().is_prefix_of(final(self).sview()),
            final(self).sview().len() <= old(self).sview().len() + 1,
    {
        self.intern(Entry::Pair(a, d))
    }

    /// Intern a closure from a parameter symbol, a body and a captured
    /// environment.
    pub fn make_function(&mut self, param: Ptr, body: Ptr, env: Ptr) -> (r: Ptr)
        requires
            store_wf(old(self).sview()),
            old(self).sview().len() < STORE_CAP,
            ptr_ok(old(self).sview(), param),
            ptr_ok(old(self).sview(), body),
            ptr_ok(old(self).sview(), env),
        ensures
            store_wf(final(self).sview()),
            (final(self).sview(), r) == spec_intern(old(self).sview(), EntryV::Fun(param, body, env)),
            old(self).sview().is_prefix_of(final(self).sview()),
            final(self).sview().len() <= old(self).sview().len() + 1,
    {
        self.intern(Entry::Fun(param, body, env))
    }

    /// First component of a pair; a host-level type error on anything else.
    pub fn car(&self, p: Ptr) -> (r: Result<Ptr, crate::fcomm::Error>)
        requires
            ptr_ok(self.sview(), p),
        ensures
            match self.sview()[p.idx as int] {
                EntryV::Pair(a, _) => r == Ok::<Ptr, crate::fcomm::Error>(a),
                _ => r == Err::<Ptr, crate::fcomm::Error>(crate::fcomm::Error::TypeError),
            },
    {
        match &self.entries[p.idx] {
            Entry::Pair(a, _) => Ok(*a),
            _ => Err(crate::fcomm::Error::TypeError),
        }
    }

    /// Second component of a pair; a host-level type error on anything else.
    pub fn cdr(&self, p: Ptr) -> (r: Result<Ptr, crate::fcomm::Error>)
        requires
            ptr_ok(self.sview(), p),
        ensures
            match self.sview()[p.idx as int] {
                EntryV::Pair(_, d) => r == Ok::<Ptr, crate::fcomm::Error>(d),
                _ => r == Err::<Ptr, crate::fcomm::Error>(crate::fcomm::Error::TypeError),
            },
    {
        match &self.entries[p.idx] {
            Entry::Pair(_, d) => Ok(*d),
            _ => Err(crate::fcomm::Error::TypeError),
        }
    }

    /// The number of entries interned so far.
    pub fn len(&self) -> (n: usize)
        ensures
            n == self.sview().len(),
    {
        self.entries.len()
    }

    /// Read the summary of the entry at an address.
    pub fn kind(&self, p: Ptr) -> (k: Kind)
        requires
            ptr_ok(self.sview(), p),
        ensures
            k == spec_kind(self.sview(), p),
    {
        match &self.entries[p.idx] {
            Entry::Nil => Kind::KNil,
            Entry::Sym(name) => Kind::KSym(classify_name(name)),
            Entry::Num(v) => Kind::KNum(*v),
            Entry::Pair(a, d) => Kind::KPair(*a, *d),
            Entry::Fun(pm, b, e) => Kind::KFun(*pm, *b, *e),
            Entry::Thunk(v, k) => Kind::KThunk(*v, *k),
            Entry::Outermost => Kind::KOuter,
            Entry::Terminal => Kind::KTerminal,
            Entry::ErrorCont => Kind::KErr,
            Entry::CallK(a, e, k) => Kind::KCall(*a, *e, *k),
            Entry::Call2K(f, k) => Kind::KCall2(*f, *k),
            Entry::IfK(t, e, n, k) => Kind::KIf(*t, *e, *n, *k),
            Entry::Binop1K(o, b, e, k) => Kind::KBinop1(*o, *b, *e, *k),
            Entry::Binop2K(o, a, k) => Kind::KBinop2(*o, *a, *k),
            Entry::Unop1K(o, k) => Kind::KUnop(*o, *k),
        }
    }

    /// The name of a symbol, for printing; `None` on any other term.
    pub fn sym_name(&self, p: Ptr) -> (r: Option<Vec<u8>>)
        requires
            ptr_ok(self.sview(), p),
        ensures
            match self.sview()[p.idx as int] {
                EntryV::Sym(n) => r matches Some(v) && v@ == n,
                _ => r matches None,
            },
    {
        match &self.entries[p.idx] {
            Entry::Sym(name) => {
                let mut out: Vec<u8> = Vec::new();
                let mut i: usize = 0;
                while i < name.len()
                    invariant
                        i <= name@.len(),
                        out@ =~= name@.subrange(0, i as int),
                    decreases name@.len() - i,
                {
                    out.push(name[i]);
                    i += 1;
                }
                proof {
                    assert(out@ =~= name@);
                }
                Some(out)
            },
            _ => None,
        }
    }

    /// The structural hash of a term: its canonical address, read as a
    /// field element.  Injective over one store, and stable, since entries
    /// are never moved or removed.
    pub fn hash_ptr(&self, p: Ptr) -> (r: Fe)
        requires
            store_wf(self.sview()),
            ptr_ok(self.sview(), p),
        ensures
            r.val() == p.idx as int,
            r.wf(),
    {
        Fe::new(p.idx as u64)
    }
}

} // verus!
