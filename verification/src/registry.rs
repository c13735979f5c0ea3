//! The wallet registry: a one-to-one, updatable mapping from nullifier to
//! wallet address.
//!
//! Per nullifier the registry moves from unbound to bound on the first
//! successful registration; a bound nullifier can only change wallet through
//! an update presented by the current owner, and is never unbound.

use vstd::prelude::*;

use crate::table::Table;
use crate::table::lemma_lookup_push;
use crate::table::lemma_replace_lookup;
use crate::table::spec_lookup;
use crate::table::spec_replace;
use crate::types::Address;
use crate::types::Error;
use crate::types::bytes_eq;
use crate::types::copy_opt_addr;
use crate::types::opt_addr_view;

verus! {

/// The registry's whole state, as contracts speak of it.
#[verifier::ext_equal]
pub struct RegistryView {
    /// The admin recorded at initialization, if any.
    pub admin: Option<Seq<u8>>,
    /// The proof-gate address recorded at initialization, if any; stored
    /// for the orchestrator's benefit, never read here.
    pub verifier: Option<Seq<u8>>,
    /// Nullifier-to-wallet bindings, oldest first.
    pub bindings: Seq<(Seq<u8>, Seq<u8>)>,
    /// How many bindings have been created since initialization.
    pub wallet_count: u32,
}

/// A registration is accepted exactly when the nullifier is still unbound.
pub open spec fn register_ok(bindings: Seq<(Seq<u8>, Seq<u8>)>, n: Seq<u8>) -> bool {
    spec_lookup(bindings, n) is None
}

/// The bindings after an accepted registration: one new pair at the end.
pub open spec fn register_post(bindings: Seq<(Seq<u8>, Seq<u8>)>, n: Seq<u8>, w: Seq<u8>) -> Seq<
    (Seq<u8>, Seq<u8>),
> {
    bindings.push((n, w))
}

/// An update is accepted exactly when the nullifier is bound and the stored
/// wallet is the very one the caller presented as current.
pub open spec fn update_ok(bindings: Seq<(Seq<u8>, Seq<u8>)>, n: Seq<u8>, old_w: Seq<u8>) -> bool {
    spec_lookup(bindings, n) == Some(old_w)
}

/// The bindings after an accepted update: the one pair rewritten in place.
pub open spec fn update_post(bindings: Seq<(Seq<u8>, Seq<u8>)>, n: Seq<u8>, new_w: Seq<u8>) -> Seq<
    (Seq<u8>, Seq<u8>),
> {
    spec_replace(bindings, n, new_w)
}

/// The wallet registry.
pub struct WalletFactory {
    admin: Option<Address>,
    verifier: Option<Address>,
    wallet_count: u32,
    bindings: Table,
}

impl View for WalletFactory {
    type V = RegistryView;

    closed spec fn view(&self) -> RegistryView {
        RegistryView {
            admin: opt_addr_view(self.admin),
            verifier: opt_addr_view(self.verifier),
            bindings: self.bindings@,
            wallet_count: self.wallet_count,
        }
    }
}

impl WalletFactory {
    /// The binding table keeps its keys unique.
    pub closed spec fn wf(&self) -> bool {
        self.bindings.wf()
    }

    /// A registry with nothing recorded: no admin, no verifier, no bindings.
    pub fn new() -> (r: WalletFactory)
        ensures
            r.wf(),
            r@.admin is None,
            r@.verifier is None,
            r@.bindings == Seq::<(Seq<u8>, Seq<u8>)>::empty(),
            r@.wallet_count == 0,
    {
        WalletFactory { admin: None, verifier: None, wallet_count: 0, bindings: Table::new() }
    }

    /// Records the admin and the proof-gate address, once.  The adapter must
    /// have authenticated `admin` before this call.
    pub fn initialize(&mut self, admin: Address, verifier: Address) -> (r: Result<(), Error>)
        requires
            old(self).wf(),
        ensures
            final(self).wf(),
            r == if old(self)@.admin is Some {
                Err::<(), Error>(Error::AlreadyInitialized)
            } else {
                Ok::<(), Error>(())
            },
            r is Err ==> final(self)@ == old(self)@,
            r is Ok ==> final(self)@ == (RegistryView {
                admin: Some(admin@),
                verifier: Some(verifier@),
                wallet_count: 0,
                ..old(self)@
            }),
    {
        if self.admin.is_some() {
            return Err(Error::AlreadyInitialized);
        }
        self.admin = Some(admin);
        self.verifier = Some(verifier);
        self.wallet_count = 0;
        Ok(())
    }

    /// Binds `nullifier` to `wallet_address` unless it is already bound, and
    /// says which it was.  The adapter must have authenticated
    /// `wallet_address`; on success it reports `(nullifier, wallet_address)`
    /// to its indexers.
    pub fn register_wallet(&mut self, nullifier: Vec<u8>, wallet_address: Address) -> (r: bool)
        requires
            old(self).wf(),
            nullifier@.len() == 32,
            old(self)@.wallet_count < u32::MAX,
        ensures
            final(self).wf(),
            r == register_ok(old(self)@.bindings, nullifier@),
            r ==> final(self)@ == (RegistryView {
                bindings: register_post(old(self)@.bindings, nullifier@, wallet_address@),
                wallet_count: (old(self)@.wallet_count + 1) as u32,
                ..old(self)@
            }),
            !r ==> final(self)@ == old(self)@,
    {
        if self.bindings.contains(&nullifier) {
            return false;
        }
        let ghost pre = self@;
        self.bindings.insert_new(nullifier, wallet_address.bytes);
        self.wallet_count = self.wallet_count + 1;
        proof {
            assert(self@ =~= (RegistryView {
                bindings: register_post(pre.bindings, nullifier@, wallet_address@),
                wallet_count: (pre.wallet_count + 1) as u32,
                ..pre
            }));
        }
        true
    }

    /// The wallet bound to `nullifier`, if any.
    pub fn get_wallet(&self, nullifier: &Vec<u8>) -> (r: Option<Address>)
        ensures
            r matches Some(a) ==> spec_lookup(self@.bindings, nullifier@) == Some(a@),
            r is None ==> spec_lookup(self@.bindings, nullifier@) is None,
    {
        match self.bindings.get(nullifier) {
            Some(bytes) => Some(Address::new(bytes)),
            None => None,
        }
    }

    /// Whether `nullifier` is bound.
    pub fn is_registered(&self, nullifier: &Vec<u8>) -> (r: bool)
        ensures
            r == (spec_lookup(self@.bindings, nullifier@) is Some),
    {
        self.bindings.contains(nullifier)
    }

    /// How many bindings have been created since initialization.
    pub fn wallet_count(&self) -> (r: u32)
        ensures
            r == self@.wallet_count,
    {
        self.wallet_count
    }

    /// The recorded admin, if any, copied out.
    pub fn admin(&self) -> (r: Option<Address>)
        ensures
            opt_addr_view(r) == self@.admin,
    {
        copy_opt_addr(&self.admin)
    }

    /// The recorded proof-gate address, if any, copied out.
    pub fn verifier_address(&self) -> (r: Option<Address>)
        ensures
            opt_addr_view(r) == self@.verifier,
    {
        copy_opt_addr(&self.verifier)
    }

    /// A copy of every binding, oldest first, for a host that persists the
    /// state.
    pub fn bindings(&self) -> (r: Vec<(Vec<u8>, Vec<u8>)>)
        ensures
            r@.len() == self@.bindings.len(),
            forall|i: int|
                0 <= i < self@.bindings.len() ==> #[trigger] r@[i].0@ == self@.bindings[i].0
                    && r@[i].1@ == self@.bindings[i].1,
    {
        self.bindings.export()
    }

    /// Rebuilds a registry from persisted parts, checking nullifier
    /// uniqueness anew: `None` exactly when two bindings share a nullifier.
    pub fn restore(
        admin: Option<Address>,
        verifier: Option<Address>,
        wallet_count: u32,
        bindings: &Vec<(Vec<u8>, Vec<u8>)>,
    ) -> (r: Option<WalletFactory>)
        ensures
            r matches Some(f) ==> f.wf() && f@.admin == opt_addr_view(admin) && f@.verifier
                == opt_addr_view(verifier) && f@.wallet_count == wallet_count && f@.bindings.len()
                == bindings@.len() && (forall|i: int|
                0 <= i < bindings@.len() ==> #[trigger] f@.bindings[i] == (
                bindings@[i].0@,
                bindings@[i].1@,
            )),
            r is None ==> exists|i: int, j: int|
                0 <= i < j < bindings@.len() && bindings@[i].0@ == bindings@[j].0@,
    {
        match Table::from_entries(bindings) {
            None => None,
            Some(t) => Some(WalletFactory { admin, verifier, wallet_count, bindings: t }),
        }
    }

    /// Rebinds `nullifier` to `new_wallet` exactly when it is bound and its
    /// stored wallet equals `old_wallet`; otherwise changes nothing.  The
    /// adapter must have authenticated `old_wallet`; on success it reports
    /// `(nullifier, old_wallet, new_wallet)` to its indexers.
    pub fn update_wallet(
        &mut self,
        nullifier: Vec<u8>,
        old_wallet: Address,
        new_wallet: Address,
    ) -> (r: bool)
        requires
            old(self).wf(),
            nullifier@.len() == 32,
        ensures
            final(self).wf(),
            r == update_ok(old(self)@.bindings, nullifier@, old_wallet@),
            r ==> final(self)@ == (RegistryView {
                bindings: update_post(old(self)@.bindings, nullifier@, new_wallet@),
                ..old(self)@
            }),
            !r ==> final(self)@ == old(self)@,
    {
        let stored = match self.bindings.get(&nullifier) {
            None => {
                return false;
            },
            Some(stored) => stored,
        };
        if !bytes_eq(&stored, &old_wallet.bytes) {
            return false;
        }
        let ghost pre = self@;
        self.bindings.replace(&nullifier, new_wallet.bytes);
        proof {
            assert(self@ =~= (RegistryView {
                bindings: update_post(pre.bindings, nullifier@, new_wallet@),
                ..pre
            }));
        }
        true
    }
}

/// Single binding: a successful registration binds the nullifier to the
/// given wallet, and no later registration for that nullifier is ever
/// accepted while a binding for it stands.
pub proof fn lemma_single_binding(
    bindings: Seq<(Seq<u8>, Seq<u8>)>,
    n: Seq<u8>,
    w: Seq<u8>,
)
    requires
        register_ok(bindings, n),
    ensures
        spec_lookup(register_post(bindings, n, w), n) == Some(w),
        !register_ok(register_post(bindings, n, w), n),
{
    lemma_lookup_push(bindings, n, w, n);
}

/// A binding survives every registration of another nullifier untouched.
pub proof fn lemma_binding_survives_register(
    bindings: Seq<(Seq<u8>, Seq<u8>)>,
    n: Seq<u8>,
    w: Seq<u8>,
    n2: Seq<u8>,
    w2: Seq<u8>,
)
    requires
        spec_lookup(bindings, n) == Some(w),
        register_ok(bindings, n2),
    ensures
        spec_lookup(register_post(bindings, n2, w2), n) == Some(w),
{
    lemma_lookup_push(bindings, n2, w2, n);
}

/// One requested operation against the binding map.
pub enum RegistryOp {
    /// A registration request: bind `nullifier` to `wallet`.
    Register { nullifier: Seq<u8>, wallet: Seq<u8> },
    /// An update request: move `nullifier` from `current` to `replacement`.
    Update { nullifier: Seq<u8>, current: Seq<u8>, replacement: Seq<u8> },
}

/// Whether an operation is an update request naming `n`.
pub open spec fn op_updates(op: RegistryOp, n: Seq<u8>) -> bool {
    op matches RegistryOp::Update { nullifier, .. } && nullifier == n
}

/// The bindings after one operation, accepted or not.
pub open spec fn registry_step(b: Seq<(Seq<u8>, Seq<u8>)>, op: RegistryOp) -> Seq<
    (Seq<u8>, Seq<u8>),
> {
    match op {
        RegistryOp::Register { nullifier, wallet } => if register_ok(b, nullifier) {
            register_post(b, nullifier, wallet)
        } else {
            b
        },
        RegistryOp::Update { nullifier, current, replacement } => if update_ok(
            b,
            nullifier,
            current,
        ) {
            update_post(b, nullifier, replacement)
        } else {
            b
        },
    }
}

/// The bindings after a whole sequence of operations, oldest first.
pub open spec fn registry_run(b: Seq<(Seq<u8>, Seq<u8>)>, ops: Seq<RegistryOp>) -> Seq<
    (Seq<u8>, Seq<u8>),
>
    decreases ops.len(),
{
    if ops.len() == 0 {
        b
    } else {
        registry_run(registry_step(b, ops[0]), ops.skip(1))
    }
}

/// A binding survives any sequence of operations that holds no update
/// request for its nullifier: registrations cannot displace it.
pub proof fn lemma_binding_persists_over_run(
    b: Seq<(Seq<u8>, Seq<u8>)>,
    n: Seq<u8>,
    w: Seq<u8>,
    ops: Seq<RegistryOp>,
)
    requires
        spec_lookup(b, n) == Some(w),
        forall|i: int| 0 <= i < ops.len() ==> !op_updates(#[trigger] ops[i], n),
    ensures
        spec_lookup(registry_run(b, ops), n) == Some(w),
    decreases ops.len(),
{
    if ops.len() > 0 {
        let b2 = registry_step(b, ops[0]);
        match ops[0] {
            RegistryOp::Register { nullifier, wallet } => {
                if register_ok(b, nullifier) {
                    lemma_binding_survives_register(b, n, w, nullifier, wallet);
                }
            },
            RegistryOp::Update { nullifier, current, replacement } => {
                if update_ok(b, nullifier, current) {
                    lemma_binding_after_update(b, n, w, nullifier, current, replacement);
                }
            },
        }
        assert(forall|i: int| 0 <= i < ops.skip(1).len() ==> ops.skip(1)[i] == ops[i + 1]);
        lemma_binding_persists_over_run(b2, n, w, ops.skip(1));
    }
}

/// Single binding, over whole histories: once `nullifier` is bound to
/// `wallet`, every later registration request for it is rejected and reads
/// keep returning `wallet`, until an update presented by the current owner
/// is accepted.
pub proof fn lemma_registered_at_most_once(
    b: Seq<(Seq<u8>, Seq<u8>)>,
    nullifier: Seq<u8>,
    wallet: Seq<u8>,
    ops: Seq<RegistryOp>,
)
    requires
        register_ok(b, nullifier),
        forall|i: int| 0 <= i < ops.len() ==> !op_updates(#[trigger] ops[i], nullifier),
    ensures
        spec_lookup(registry_run(register_post(b, nullifier, wallet), ops), nullifier) == Some(
            wallet,
        ),
        !register_ok(registry_run(register_post(b, nullifier, wallet), ops), nullifier),
{
    lemma_lookup_push(b, nullifier, wallet, nullifier);
    lemma_binding_persists_over_run(register_post(b, nullifier, wallet), nullifier, wallet, ops);
}

/// Under an accepted update, the one updated nullifier moves to the new
/// wallet and every other binding stays exactly as it was.
pub proof fn lemma_binding_after_update(
    bindings: Seq<(Seq<u8>, Seq<u8>)>,
    n: Seq<u8>,
    w: Seq<u8>,
    n2: Seq<u8>,
    old_w: Seq<u8>,
    new_w: Seq<u8>,
)
    requires
        spec_lookup(bindings, n) == Some(w),
        update_ok(bindings, n2, old_w),
    ensures
        spec_lookup(update_post(bindings, n2, new_w), n) == if n2 == n {
            Some(new_w)
        } else {
            Some(w)
        },
        n2 == n ==> old_w == w,
{
    lemma_replace_lookup(bindings, n2, new_w, n);
}

} // verus!
