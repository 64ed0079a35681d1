//! The computations that the contracts leave to the Soroban host: SHA-256
//! and the XDR encoding of values.

use vstd::prelude::*;
use vstd::arithmetic::div_mod::{lemma_mod_breakdown, lemma_small_mod};

verus! {

/// The Soroban environment, passed through to the host functions below.
#[verifier::external_type_specification]
#[verifier::external_body]
pub struct ExEnv(soroban_sdk::Env);

/// The SHA-256 digest of `data`.
pub uninterp spec fn sha256(data: Seq<u8>) -> Seq<u8>;

/// The `n` lowest bytes of `x`, most significant first.
pub open spec fn be_bytes(x: nat, n: nat) -> Seq<u8>
    decreases n,
{
    if n == 0 {
        seq![]
    } else {
        be_bytes(x / 256, (n - 1) as nat).push((x % 256) as u8)
    }
}

/// The XDR encoding of `value` as a Soroban `ScVal::I128`: the type tag 10
/// as a big-endian 32-bit word, then the high half as a big-endian `i64`
/// and the low half as a big-endian `u64`, which together are the 16-byte
/// two's complement of `value`, most significant byte first.
pub open spec fn i128_xdr(value: i128) -> Seq<u8> {
    let twos: nat = if value < 0 {
        (value + 0x1_0000_0000_0000_0000_0000_0000_0000_0000int) as nat
    } else {
        value as nat
    };
    seq![0u8, 0u8, 0u8, 10u8] + be_bytes(twos, 16)
}

/// Hashes `data` with `soroban_sdk::crypto::Crypto::sha256`.
/// Trusted: the digest is `sha256` of the bytes handed in, whatever the
/// environment; that it is the SHA-256 function itself is not stated.
#[verifier::external_body]
pub(crate) fn sha256_digest(env: &soroban_sdk::Env, data: &[u8]) -> (digest: [u8; 32])
    ensures
        digest@ == sha256(data@),
{
    env.crypto().sha256(&soroban_sdk::Bytes::from_slice(env, data)).to_array()
}

/// Encodes `value` with `soroban_sdk::xdr::ToXdr::to_xdr`.
/// Trusted: the bytes are `i128_xdr` of the value, the `ScVal::I128`
/// encoding (type tag, then `Int128Parts` high and low halves), whatever the
/// environment.
#[verifier::external_body]
pub(crate) fn i128_to_xdr(env: &soroban_sdk::Env, value: i128) -> (bytes: Vec<u8>)
    ensures
        bytes@ == i128_xdr(value),
{
    soroban_sdk::xdr::ToXdr::to_xdr(value, env).iter().collect()
}

/// `256^n`.
pub open spec fn pow256(n: nat) -> nat
    decreases n,
{
    if n == 0 { 1 } else { 256 * pow256((n - 1) as nat) }
}

/// `be_bytes(x, n)` has `n` bytes.
pub proof fn lemma_be_bytes_len(x: nat, n: nat)
    ensures
        be_bytes(x, n).len() == n,
    decreases n,
{
    if n > 0 {
        lemma_be_bytes_len(x / 256, (n - 1) as nat);
    }
}

/// The `n` lowest bytes of a number determine it modulo `256^n`.
pub proof fn lemma_be_bytes_determine(x: nat, y: nat, n: nat)
    requires
        be_bytes(x, n) == be_bytes(y, n),
    ensures
        x % pow256(n) == y % pow256(n),
    decreases n,
{
    if n > 0 {
        let bx = be_bytes(x, n);
        let by = be_bytes(y, n);
        assert(bx.drop_last() == be_bytes(x / 256, (n - 1) as nat));
        assert(by.drop_last() == be_bytes(y / 256, (n - 1) as nat));
        assert(bx.last() == (x % 256) as u8);
        assert(by.last() == (y % 256) as u8);
        lemma_be_bytes_determine(x / 256, y / 256, (n - 1) as nat);
        let q = pow256((n - 1) as nat);
        assert(q > 0) by {
            lemma_pow256_pos((n - 1) as nat);
        }
        lemma_mod_breakdown(x as int, 256, q as int);
        lemma_mod_breakdown(y as int, 256, q as int);
    } else {
        assert(pow256(0) == 1);
    }
}

/// `256^n` is positive.
pub proof fn lemma_pow256_pos(n: nat)
    ensures
        pow256(n) > 0,
    decreases n,
{
    if n > 0 {
        lemma_pow256_pos((n - 1) as nat);
    }
}

/// The encoding of an `i128` has 20 bytes.
pub proof fn lemma_i128_xdr_len(value: i128)
    ensures
        i128_xdr(value).len() == 20,
{
    let twos: nat = if value < 0 {
        (value + 0x1_0000_0000_0000_0000_0000_0000_0000_0000int) as nat
    } else {
        value as nat
    };
    lemma_be_bytes_len(twos, 16);
}

/// Different values have different encodings.
pub proof fn lemma_i128_xdr_injective(x: i128, y: i128)
    requires
        i128_xdr(x) == i128_xdr(y),
    ensures
        x == y,
{
    let m: int = 0x1_0000_0000_0000_0000_0000_0000_0000_0000int;
    let tx: nat = if x < 0 { (x + m) as nat } else { x as nat };
    let ty: nat = if y < 0 { (y + m) as nat } else { y as nat };
    lemma_be_bytes_len(tx, 16);
    lemma_be_bytes_len(ty, 16);
    assert(i128_xdr(x).subrange(4, 20) =~= be_bytes(tx, 16));
    assert(i128_xdr(y).subrange(4, 20) =~= be_bytes(ty, 16));
    lemma_be_bytes_determine(tx, ty, 16);
    assert(pow256(16) == m) by {
        reveal_with_fuel(pow256, 17);
    }
    lemma_small_mod(tx, m as nat);
    lemma_small_mod(ty, m as nat);
}

} // verus!
