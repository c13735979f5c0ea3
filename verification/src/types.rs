//! Shared plain-value types and byte-sequence helpers.

use vstd::prelude::*;

verus! {

/// An opaque on-ledger identity: the byte form of an account address.
///
/// The library never interprets the bytes; it only stores them and compares
/// them for equality.  The adapter converts between this form and the host
/// environment's own address type.
#[derive(Clone, Debug, PartialEq, Eq)]
pub struct Address {
    pub bytes: Vec<u8>,
}

impl View for Address {
    type V = Seq<u8>;

    open spec fn view(&self) -> Seq<u8> {
        self.bytes@
    }
}

impl Address {
    pub fn new(bytes: Vec<u8>) -> (r: Address)
        ensures
            r@ == bytes@,
    {
        Address { bytes }
    }
}

/// A hard fault: the call is rejected outright, with no state change.
///
/// Routine adversarial input (a duplicate nullifier, a malformed proof, an
/// update by a non-owner) is reported as an ordinary `false` instead.
#[derive(Clone, Copy, Debug, PartialEq, Eq, Structural)]
pub enum Error {
    /// A one-time constructor was called a second time.
    AlreadyInitialized,
    /// An operation that needs the recorded admin ran before any was set.
    NotInitialized,
}

/// The view of an optionally present address.
pub open spec fn opt_addr_view(a: Option<Address>) -> Option<Seq<u8>> {
    match a {
        Some(x) => Some(x@),
        None => None,
    }
}

/// A copy of an optionally present address.
pub fn copy_opt_addr(a: &Option<Address>) -> (r: Option<Address>)
    ensures
        opt_addr_view(r) == opt_addr_view(*a),
{
    match a {
        Some(x) => Some(Address { bytes: copy_bytes(&x.bytes) }),
        None => None,
    }
}

/// A fresh list of fresh vectors holding the same bytes as `src`.
pub fn copy_byte_vecs(src: &Vec<Vec<u8>>) -> (r: Vec<Vec<u8>>)
    ensures
        r@.len() == src@.len(),
        forall|i: int| 0 <= i < src@.len() ==> #[trigger] r@[i]@ == src@[i]@,
{
    let mut r: Vec<Vec<u8>> = Vec::new();
    let mut i: usize = 0;
    while i < src.len()
        invariant
            i <= src@.len(),
            r@.len() == i,
            forall|j: int| 0 <= j < i ==> #[trigger] r@[j]@ == src@[j]@,
        decreases src@.len() - i,
    {
        r.push(copy_bytes(&src[i]));
        i += 1;
    }
    r
}

/// Every byte of `s` is zero.
pub open spec fn all_zero(s: Seq<u8>) -> bool {
    forall|i: int| 0 <= i < s.len() ==> s[i] == 0
}

/// Byte-for-byte equality of two byte vectors.
pub fn bytes_eq(a: &Vec<u8>, b: &Vec<u8>) -> (r: bool)
    ensures
        r == (a@ == b@),
{
    if a.len() != b.len() {
        return false;
    }
    let mut i: usize = 0;
    while i < a.len()
        invariant
            a@.len() == b@.len(),
            i <= a@.len(),
            forall|j: int| 0 <= j < i ==> a@[j] == b@[j],
        decreases a@.len() - i,
    {
        if a[i] != b[i] {
            return false;
        }
        i += 1;
    }
    proof {
        assert(a@ =~= b@);
    }
    true
}

/// A fresh vector holding the same bytes as `src`.
pub fn copy_bytes(src: &Vec<u8>) -> (r: Vec<u8>)
    ensures
        r@ == src@,
{
    let mut r: Vec<u8> = Vec::new();
    let mut i: usize = 0;
    while i < src.len()
        invariant
            i <= src@.len(),
            r@ == src@.subrange(0, i as int),
        decreases src@.len() - i,
    {
        r.push(src[i]);
        proof {
            assert(src@.subrange(0, i as int + 1) =~= src@.subrange(0, i as int).push(src@[i as int]));
        }
        i += 1;
    }
    proof {
        assert(src@.subrange(0, src@.len() as int) =~= src@);
    }
    r
}

/// Appends every byte of `src` to `dst`, in order.
pub fn append_bytes(dst: &mut Vec<u8>, src: &Vec<u8>)
    ensures
        final(dst)@ == old(dst)@ + src@,
{
    let ghost dst0 = dst@;
    let mut i: usize = 0;
    while i < src.len()
        invariant
            i <= src@.len(),
            dst@ == dst0 + src@.subrange(0, i as int),
        decreases src@.len() - i,
    {
        dst.push(src[i]);
        proof {
            assert(dst0 + src@.subrange(0, i as int + 1) =~= (dst0 + src@.subrange(0, i as int)).push(src@[i as int]));
        }
        i += 1;
    }
    proof {
        assert(dst0 + src@.subrange(0, src@.len() as int) =~= dst0 + src@);
    }
}

} // verus!
