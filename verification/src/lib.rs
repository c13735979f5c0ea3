//! Identity-bound wallet recovery: a one-way nullifier derived from an
//! identity credential is bound, at most once, to a wallet address after a
//! zero-knowledge proof of identity has been accepted.
//!
//! Two components cooperate: the proof gate accepts a proof together with its
//! public inputs, validates its shape, prevents replay, and records the
//! nullifier as verified; the wallet registry keeps the one-to-one, updatable
//! mapping from nullifier to wallet address.  Both keep their records in a
//! key-uniqueness preserving table.
//!
//! Ledger storage, authentication of addresses, and event delivery are the
//! host environment's business: an adapter owns them and hands this library
//! plain values.  Every operation here is a single synchronous step, which
//! matches the one-transaction-per-call model of the intended host.

pub mod digest;
pub mod gate;
pub mod registry;
pub mod table;
pub mod types;

pub use gate::Groth16Proof;
pub use gate::VerificationKey;
pub use gate::ZkVerifier;
pub use registry::WalletFactory;
pub use types::Address;
pub use types::Error;
