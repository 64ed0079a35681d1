//! Addresses as the contracts see them: by their canonical bytes.

use vstd::prelude::*;

verus! {

/// A Soroban address, held as the XDR encoding of its `ScVal` form: the
/// bytes that `Address::to_xdr` produces. Two addresses are the same
/// account or contract exactly when these bytes agree.
#[derive(Clone, Debug, PartialEq, Eq)]
pub struct Addr {
    pub xdr: Vec<u8>,
}

impl View for Addr {
    type V = Seq<u8>;

    open spec fn view(&self) -> Seq<u8> {
        self.xdr@
    }
}

/// Copies a byte vector element by element.
pub fn copy_bytes(src: &Vec<u8>) -> (dst: Vec<u8>)
    ensures
        dst@ == src@,
{
    let mut dst: Vec<u8> = Vec::new();
    let n = src.len();
    for i in 0..n
        invariant
            n == src@.len(),
            dst@ == src@.subrange(0, i as int),
    {
        dst.push(src[i]);
        assert(dst@ =~= src@.subrange(0, i + 1));
    }
    assert(dst@ =~= src@);
    dst
}

/// Compares two byte vectors.
pub fn bytes_equal(a: &Vec<u8>, b: &Vec<u8>) -> (same: bool)
    ensures
        same == (a@ == b@),
{
    if a.len() != b.len() {
        return false;
    }
    let n = a.len();
    for i in 0..n
        invariant
            n == a@.len(),
            n == b@.len(),
            forall|j: int| 0 <= j < i ==> a@[j] == b@[j],
    {
        if a[i] != b[i] {
            return false;
        }
    }
    assert(a@ =~= b@);
    true
}

impl Addr {
    /// The address whose XDR encoding is `xdr`.
    pub fn from_xdr(xdr: Vec<u8>) -> (a: Addr)
        ensures
            a@ == xdr@,
    {
        Addr { xdr }
    }

    /// Whether `self` and `other` are the same address.
    pub fn same(&self, other: &Addr) -> (same: bool)
        ensures
            same == (self@ == other@),
    {
        bytes_equal(&self.xdr, &other.xdr)
    }

    /// A copy of this address.
    pub fn duplicate(&self) -> (a: Addr)
        ensures
            a@ == self@,
    {
        Addr { xdr: copy_bytes(&self.xdr) }
    }
}

/// The view of an optional address.
pub open spec fn opt_view(a: Option<Addr>) -> Option<Seq<u8>> {
    match a {
        Some(x) => Some(x@),
        None => None,
    }
}

/// A copy of an optional address.
pub fn duplicate_opt(a: &Option<Addr>) -> (b: Option<Addr>)
    ensures
        opt_view(b) == opt_view(*a),
{
    match a {
        Some(x) => Some(x.duplicate()),
        None => None,
    }
}

} // verus!
