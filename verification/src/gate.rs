//! The proof gate: accepts a zero-knowledge proof with its public inputs,
//! validates its shape, prevents replay, and records the nullifier named by
//! the first public input as verified.
//!
//! Per nullifier the proof gate moves from unverified to verified exactly
//! once, and never back.  Cryptographic pairing verification is out of scope
//! here: the shape checks (key arity, non-zero proof points) stand in its
//! place, as a filter against degenerate submissions, not as a soundness
//! argument.

use vstd::prelude::*;

use crate::digest::sha256;
use crate::digest::sha256_of;
use crate::table::Table;
use crate::table::lemma_lookup_push;
use crate::table::spec_lookup;
use crate::types::Address;
use crate::types::Error;
use crate::types::all_zero;
use crate::types::append_bytes;
use crate::types::copy_byte_vecs;
use crate::types::copy_bytes;
use crate::types::copy_opt_addr;
use crate::types::opt_addr_view;

verus! {

/// A proof in the three-element form of a pairing-based proving system:
/// two 64-byte curve points `a` and `c`, one 128-byte point `b`.
pub struct Groth16Proof {
    pub a: Vec<u8>,
    pub b: Vec<u8>,
    pub c: Vec<u8>,
}

/// The mathematical shadow of a [`Groth16Proof`].
#[verifier::ext_equal]
pub struct ProofView {
    pub a: Seq<u8>,
    pub b: Seq<u8>,
    pub c: Seq<u8>,
}

impl View for Groth16Proof {
    type V = ProofView;

    open spec fn view(&self) -> ProofView {
        ProofView { a: self.a@, b: self.b@, c: self.c@ }
    }
}

/// The declared sizes of the proof's curve points.
pub open spec fn proof_wf(p: ProofView) -> bool {
    &&& p.a.len() == 64
    &&& p.b.len() == 128
    &&& p.c.len() == 64
}

/// The verification key: four fixed curve elements and one commitment point
/// per public input, plus one.
pub struct VerificationKey {
    pub alpha: Vec<u8>,
    pub beta: Vec<u8>,
    pub gamma: Vec<u8>,
    pub delta: Vec<u8>,
    pub ic: Vec<Vec<u8>>,
}

impl View for VerificationKey {
    type V = VkView;

    open spec fn view(&self) -> VkView {
        VkView {
            alpha: self.alpha@,
            beta: self.beta@,
            gamma: self.gamma@,
            delta: self.delta@,
            ic: views_of(self.ic@),
        }
    }
}

/// The mathematical shadow of the verification key.
#[verifier::ext_equal]
pub struct VkView {
    pub alpha: Seq<u8>,
    pub beta: Seq<u8>,
    pub gamma: Seq<u8>,
    pub delta: Seq<u8>,
    pub ic: Seq<Seq<u8>>,
}

/// The proof gate's whole state, as contracts speak of it.
#[verifier::ext_equal]
pub struct GateView {
    /// The admin recorded at initialization, if any.
    pub admin: Option<Seq<u8>>,
    /// The verification key, once set.
    pub vk: Option<VkView>,
    /// Nullifier-to-digest records of the accepted submissions, oldest first.
    pub verified: Seq<(Seq<u8>, Seq<u8>)>,
    /// How many submissions have been accepted since initialization.
    pub proof_count: u64,
}

/// The views of the elements of a list of byte vectors.
pub open spec fn views_of(s: Seq<Vec<u8>>) -> Seq<Seq<u8>> {
    s.map_values(|v: Vec<u8>| v@)
}

/// The bytes the stored digest is computed over: the three proof points,
/// concatenated in order.
pub open spec fn proof_digest(p: ProofView) -> Seq<u8> {
    sha256_of(p.a + p.b + p.c)
}

/// A submission is accepted exactly when a verification key is set, the
/// input arity matches the key, neither `a` nor `c` is all-zero, a first
/// public input (the nullifier) is present, and that nullifier has no record
/// yet.
pub open spec fn verify_ok(s: GateView, p: ProofView, inputs: Seq<Seq<u8>>) -> bool {
    &&& s.vk matches Some(vk) && inputs.len() + 1 == vk.ic.len()
    &&& !all_zero(p.a)
    &&& !all_zero(p.c)
    &&& inputs.len() >= 1
    &&& spec_lookup(s.verified, inputs[0]) is None
}

/// The state after an accepted submission: one new record, one more count.
pub open spec fn verify_post(s: GateView, p: ProofView, inputs: Seq<Seq<u8>>) -> GateView
    recommends
        verify_ok(s, p, inputs),
{
    GateView {
        verified: s.verified.push((inputs[0], proof_digest(p))),
        proof_count: (s.proof_count + 1) as u64,
        ..s
    }
}

/// The proof gate.
pub struct ZkVerifier {
    admin: Option<Address>,
    vk: Option<VerificationKey>,
    proof_count: u64,
    verified: Table,
}

impl View for ZkVerifier {
    type V = GateView;

    closed spec fn view(&self) -> GateView {
        GateView {
            admin: opt_addr_view(self.admin),
            vk: match self.vk {
                Some(k) => Some(k@),
                None => None,
            },
            verified: self.verified@,
            proof_count: self.proof_count,
        }
    }
}

impl ZkVerifier {
    /// The record table keeps its keys unique.
    pub closed spec fn wf(&self) -> bool {
        self.verified.wf()
    }

    /// A gate with nothing recorded: no admin, no key, no records.
    pub fn new() -> (r: ZkVerifier)
        ensures
            r.wf(),
            r@.admin is None,
            r@.vk is None,
            r@.verified == Seq::<(Seq<u8>, Seq<u8>)>::empty(),
            r@.proof_count == 0,
    {
        ZkVerifier { admin: None, vk: None, proof_count: 0, verified: Table::new() }
    }

    /// Records the admin, once.  The adapter must have authenticated `admin`
    /// before this call.
    pub fn initialize(&mut self, admin: Address) -> (r: Result<(), Error>)
        requires
            old(self).wf(),
        ensures
            final(self).wf(),
            r == if old(self)@.admin is Some {
                Err::<(), Error>(Error::AlreadyInitialized)
            } else {
                Ok::<(), Error>(())
            },
            r is Err ==> final(self)@ == old(self)@,
            r is Ok ==> final(self)@ == (GateView {
                admin: Some(admin@),
                proof_count: 0,
                ..old(self)@
            }),
    {
        if self.admin.is_some() {
            return Err(Error::AlreadyInitialized);
        }
        self.admin = Some(admin);
        self.proof_count = 0;
        Ok(())
    }

    /// Replaces the verification key, whole.  Fails if no admin was ever
    /// recorded; the adapter must have authenticated the recorded admin.
    /// The adapter reports the new commitment-point count to its indexers.
    pub fn set_verification_key(
        &mut self,
        vk_alpha: Vec<u8>,
        vk_beta: Vec<u8>,
        vk_gamma: Vec<u8>,
        vk_delta: Vec<u8>,
        vk_ic: Vec<Vec<u8>>,
    ) -> (r: Result<(), Error>)
        requires
            old(self).wf(),
            vk_alpha@.len() == 64,
            vk_beta@.len() == 128,
            vk_gamma@.len() == 128,
            vk_delta@.len() == 128,
            forall|i: int| 0 <= i < vk_ic@.len() ==> vk_ic@[i]@.len() == 64,
        ensures
            final(self).wf(),
            r == if old(self)@.admin is None {
                Err::<(), Error>(Error::NotInitialized)
            } else {
                Ok::<(), Error>(())
            },
            r is Err ==> final(self)@ == old(self)@,
            r is Ok ==> final(self)@ == (GateView {
                vk: Some(
                    VkView {
                        alpha: vk_alpha@,
                        beta: vk_beta@,
                        gamma: vk_gamma@,
                        delta: vk_delta@,
                        ic: views_of(vk_ic@),
                    },
                ),
                ..old(self)@
            }),
    {
        if self.admin.is_none() {
            return Err(Error::NotInitialized);
        }
        self.vk = Some(
            VerificationKey {
                alpha: vk_alpha,
                beta: vk_beta,
                gamma: vk_gamma,
                delta: vk_delta,
                ic: vk_ic,
            },
        );
        Ok(())
    }

    /// Validates a submission and, when it passes, records its nullifier
    /// (the first public input) with the digest of the proof and raises the
    /// count.  A rejected submission changes nothing.  The adapter must have
    /// authenticated `caller`; on acceptance it reports `(nullifier, caller,
    /// new count)` to its indexers.
    pub fn verify_and_store(
        &mut self,
        proof: Groth16Proof,
        public_inputs: Vec<Vec<u8>>,
        caller: &Address,
    ) -> (r: bool)
        requires
            old(self).wf(),
            old(self)@.proof_count < u64::MAX,
            proof_wf(proof@),
            forall|i: int| 0 <= i < public_inputs@.len() ==> public_inputs@[i]@.len() == 32,
        ensures
            final(self).wf(),
            r == verify_ok(old(self)@, proof@, views_of(public_inputs@)),
            r ==> final(self)@ == verify_post(old(self)@, proof@, views_of(public_inputs@)),
            !r ==> final(self)@ == old(self)@,
    {
        let ic_len: usize = match &self.vk {
            None => {
                return false;
            },
            Some(vk) => vk.ic.len(),
        };
        if ic_len == 0 || public_inputs.len() != ic_len - 1 {
            return false;
        }
        if Self::is_zero_point(&proof.a) || Self::is_zero_point(&proof.c) {
            return false;
        }
        if public_inputs.len() == 0 {
            return false;
        }
        let nullifier = copy_bytes(&public_inputs[0]);
        proof {
            assert(nullifier@ == views_of(public_inputs@)[0]);
        }
        if self.verified.contains(&nullifier) {
            return false;
        }
        let bytes = Self::proof_to_bytes(&proof);
        let digest = sha256(&bytes);
        let ghost pre = self@;
        self.verified.insert_new(nullifier, digest);
        self.proof_count = self.proof_count + 1;
        proof {
            assert(self@ =~= verify_post(pre, proof@, views_of(public_inputs@)));
        }
        true
    }

    /// Whether a record exists for `nullifier`.
    pub fn is_nullifier_verified(&self, nullifier: &Vec<u8>) -> (r: bool)
        ensures
            r == (spec_lookup(self@.verified, nullifier@) is Some),
    {
        self.verified.contains(nullifier)
    }

    /// The digest recorded for `nullifier`, if a submission naming it was
    /// accepted.
    pub fn verified_proof_digest(&self, nullifier: &Vec<u8>) -> (r: Option<Vec<u8>>)
        ensures
            match r {
                Some(d) => spec_lookup(self@.verified, nullifier@) == Some(d@),
                None => spec_lookup(self@.verified, nullifier@) is None,
            },
    {
        self.verified.get(nullifier)
    }

    /// How many submissions have been accepted.
    pub fn proof_count(&self) -> (r: u64)
        ensures
            r == self@.proof_count,
    {
        self.proof_count
    }

    /// Whether a verification key is set.
    pub fn is_initialized(&self) -> (r: bool)
        ensures
            r == (self@.vk is Some),
    {
        self.vk.is_some()
    }

    /// The recorded admin, if any, copied out.
    pub fn admin(&self) -> (r: Option<Address>)
        ensures
            opt_addr_view(r) == self@.admin,
    {
        copy_opt_addr(&self.admin)
    }

    /// The verification key, if set, copied out.
    pub fn verification_key(&self) -> (r: Option<VerificationKey>)
        ensures
            r matches Some(k) ==> self@.vk == Some(k@),
            r is None ==> self@.vk is None,
    {
        match &self.vk {
            None => None,
            Some(k) => {
                let copy = VerificationKey {
                    alpha: copy_bytes(&k.alpha),
                    beta: copy_bytes(&k.beta),
                    gamma: copy_bytes(&k.gamma),
                    delta: copy_bytes(&k.delta),
                    ic: copy_byte_vecs(&k.ic),
                };
                proof {
                    assert(views_of(copy.ic@) =~= views_of(k.ic@));
                    assert(copy@ =~= k@);
                }
                Some(copy)
            },
        }
    }

    /// A copy of every record, oldest first, for a host that persists the
    /// state.
    pub fn verified_records(&self) -> (r: Vec<(Vec<u8>, Vec<u8>)>)
        ensures
            r@.len() == self@.verified.len(),
            forall|i: int|
                0 <= i < self@.verified.len() ==> #[trigger] r@[i].0@ == self@.verified[i].0
                    && r@[i].1@ == self@.verified[i].1,
    {
        self.verified.export()
    }

    /// Rebuilds a gate from persisted parts, checking nullifier uniqueness
    /// anew: `None` exactly when two records share a nullifier.
    pub fn restore(
        admin: Option<Address>,
        vk: Option<VerificationKey>,
        proof_count: u64,
        records: &Vec<(Vec<u8>, Vec<u8>)>,
    ) -> (r: Option<ZkVerifier>)
        requires
            vk matches Some(k) ==> k.alpha@.len() == 64 && k.beta@.len() == 128 && k.gamma@.len()
                == 128 && k.delta@.len() == 128 && (forall|i: int|
                0 <= i < k.ic@.len() ==> k.ic@[i]@.len() == 64),
        ensures
            r matches Some(g) ==> g.wf() && g@.admin == opt_addr_view(admin) && g@.vk == (match vk {
                Some(k) => Some(k@),
                None => None,
            }) && g@.proof_count == proof_count && g@.verified.len() == records@.len() && (
            forall|i: int|
                0 <= i < records@.len() ==> #[trigger] g@.verified[i] == (
                records@[i].0@,
                records@[i].1@,
            )),
            r is None ==> exists|i: int, j: int|
                0 <= i < j < records@.len() && records@[i].0@ == records@[j].0@,
    {
        match Table::from_entries(records) {
            None => None,
            Some(t) => Some(ZkVerifier { admin, vk, proof_count, verified: t }),
        }
    }

    /// Whether every byte of a curve point is zero.
    fn is_zero_point(point: &Vec<u8>) -> (r: bool)
        ensures
            r == all_zero(point@),
    {
        let mut i: usize = 0;
        while i < point.len()
            invariant
                i <= point@.len(),
                forall|j: int| 0 <= j < i ==> point@[j] == 0,
            decreases point@.len() - i,
        {
            if point[i] != 0 {
                return false;
            }
            i += 1;
        }
        true
    }

    /// The three proof points, concatenated in order, as the digest reads
    /// them.
    fn proof_to_bytes(proof: &Groth16Proof) -> (r: Vec<u8>)
        ensures
            r@ == proof@.a + proof@.b + proof@.c,
    {
        let mut bytes: Vec<u8> = Vec::new();
        append_bytes(&mut bytes, &proof.a);
        append_bytes(&mut bytes, &proof.b);
        append_bytes(&mut bytes, &proof.c);
        proof {
            assert(Seq::<u8>::empty() + proof@.a =~= proof@.a);
        }
        bytes
    }
}

/// Single-use nullifier: once the proof gate has accepted a submission whose
/// first public input is `n`, no submission naming `n` first is ever accepted
/// again, and the accepting step raised the count by exactly one.
pub proof fn lemma_nullifier_single_use(
    s: GateView,
    p1: ProofView,
    in1: Seq<Seq<u8>>,
    p2: ProofView,
    in2: Seq<Seq<u8>>,
)
    requires
        verify_ok(s, p1, in1),
        s.proof_count < u64::MAX,
        in2.len() >= 1,
        in2[0] == in1[0],
    ensures
        !verify_ok(verify_post(s, p1, in1), p2, in2),
        verify_post(s, p1, in1).proof_count == s.proof_count + 1,
{
    lemma_lookup_push(s.verified, in1[0], proof_digest(p1), in2[0]);
}

/// A record, once written, survives every later accepted submission: an
/// accepted submission only ever appends.
pub proof fn lemma_verified_record_persists(
    s: GateView,
    n: Seq<u8>,
    d: Seq<u8>,
    p: ProofView,
    inputs: Seq<Seq<u8>>,
)
    requires
        spec_lookup(s.verified, n) == Some(d),
        verify_ok(s, p, inputs),
    ensures
        spec_lookup(verify_post(s, p, inputs).verified, n) == Some(d),
{
    lemma_lookup_push(s.verified, inputs[0], proof_digest(p), n);
}

/// The state after one submission, accepted or not.
pub open spec fn gate_step(s: GateView, p: ProofView, inputs: Seq<Seq<u8>>) -> GateView {
    if verify_ok(s, p, inputs) {
        verify_post(s, p, inputs)
    } else {
        s
    }
}

/// The state after a whole sequence of submissions, oldest first.
pub open spec fn gate_run(s: GateView, subs: Seq<(ProofView, Seq<Seq<u8>>)>) -> GateView
    decreases subs.len(),
{
    if subs.len() == 0 {
        s
    } else {
        gate_run(gate_step(s, subs[0].0, subs[0].1), subs.skip(1))
    }
}

/// A record, once written, survives every further submission, however many.
pub proof fn lemma_record_persists_over_run(
    s: GateView,
    n: Seq<u8>,
    d: Seq<u8>,
    subs: Seq<(ProofView, Seq<Seq<u8>>)>,
)
    requires
        spec_lookup(s.verified, n) == Some(d),
    ensures
        spec_lookup(gate_run(s, subs).verified, n) == Some(d),
    decreases subs.len(),
{
    if subs.len() > 0 {
        let s2 = gate_step(s, subs[0].0, subs[0].1);
        if verify_ok(s, subs[0].0, subs[0].1) {
            lemma_verified_record_persists(s, n, d, subs[0].0, subs[0].1);
        }
        lemma_record_persists_over_run(s2, n, d, subs.skip(1));
    }
}

/// Single-use nullifier, over whole histories: once a submission naming `n`
/// as its first public input has been accepted, no submission naming `n`
/// first is accepted at any later point, whatever happens in between.
pub proof fn lemma_nullifier_accepted_at_most_once(
    s: GateView,
    p1: ProofView,
    in1: Seq<Seq<u8>>,
    subs: Seq<(ProofView, Seq<Seq<u8>>)>,
    p2: ProofView,
    in2: Seq<Seq<u8>>,
)
    requires
        verify_ok(s, p1, in1),
        in2.len() >= 1,
        in2[0] == in1[0],
    ensures
        !verify_ok(gate_run(verify_post(s, p1, in1), subs), p2, in2),
{
    lemma_lookup_push(s.verified, in1[0], proof_digest(p1), in1[0]);
    lemma_record_persists_over_run(verify_post(s, p1, in1), in1[0], proof_digest(p1), subs);
}

} // verus!
