//! Unsigned 256-bit amounts: voting power and the per-choice accumulators.
//!
//! An amount is held as its 32 big-endian bytes. The arithmetic on it is
//! `secret_cosmwasm_std::Uint256`'s, reached through the three private
//! functions at the end of this file, whose contracts are taken on trust.

use vstd::prelude::*;

verus! {

/// The number that a big-endian byte string writes.
pub open spec fn be_value(bytes: Seq<u8>) -> nat
    decreases bytes.len(),
{
    if bytes.len() == 0 {
        0
    } else {
        be_value(bytes.drop_last()) * 256 + bytes.last() as nat
    }
}

/// Two to the power 256: one more than the largest amount.
pub open spec fn uint256_limit() -> nat {
    0x1_0000_0000_0000_0000_0000_0000_0000_0000_0000_0000_0000_0000_0000_0000_0000_0000nat
}

/// 256 to the power `n`: the number of values that `n` bytes can write.
pub open spec fn pow256(n: nat) -> nat
    decreases n,
{
    if n == 0 {
        1
    } else {
        256 * pow256((n - 1) as nat)
    }
}

/// A byte string writes a number below 256 to the power of its length.
pub proof fn lemma_be_value_bound(bytes: Seq<u8>)
    ensures
        be_value(bytes) < pow256(bytes.len()),
    decreases bytes.len(),
{
    if bytes.len() > 0 {
        lemma_be_value_bound(bytes.drop_last());
    }
}

proof fn lemma_pow256_add(a: nat, b: nat)
    ensures
        pow256(a + b) == pow256(a) * pow256(b),
    decreases b,
{
    if b > 0 {
        lemma_pow256_add(a, (b - 1) as nat);
        assert(pow256(a + b) == 256 * pow256((a + b - 1) as nat));
        assert(256 * (pow256(a) * pow256((b - 1) as nat)) == pow256(a) * (256 * pow256(
            (b - 1) as nat,
        ))) by (nonlinear_arith);
    } else {
        assert(pow256(a) * 1 == pow256(a)) by (nonlinear_arith);
    }
}

/// The limit is 256 to the power 32: the number of values that the 32 bytes
/// of an amount can write.
pub proof fn lemma_limit_is_pow256()
    ensures
        uint256_limit() == pow256(32),
{
    assert(pow256(2) == 0x1_0000) by {
        reveal_with_fuel(pow256, 3);
    }
    lemma_pow256_add(2, 2);
    assert(pow256(4) == 0x1_0000_0000);
    lemma_pow256_add(4, 4);
    assert(pow256(8) == 0x1_0000_0000_0000_0000);
    lemma_pow256_add(8, 8);
    assert(pow256(16) == 0x1_0000_0000_0000_0000_0000_0000_0000_0000);
    lemma_pow256_add(16, 16);
}

/// Thirty-two bytes write a number below two to the power 256.
pub proof fn lemma_be_value_below_limit(bytes: Seq<u8>)
    requires
        bytes.len() == 32,
    ensures
        be_value(bytes) < uint256_limit(),
{
    lemma_be_value_bound(bytes);
    lemma_limit_is_pow256();
}

/// Bytes that are all 255 write the largest number of their length: one less
/// than 256 to the power of that length. So the limit is one more than the
/// largest amount, which 32 such bytes write.
pub proof fn lemma_be_value_largest(bytes: Seq<u8>)
    requires
        forall|i: int| 0 <= i < bytes.len() ==> bytes[i] == 255,
    ensures
        be_value(bytes) + 1 == pow256(bytes.len()),
        bytes.len() == 32 ==> be_value(bytes) + 1 == uint256_limit(),
    decreases bytes.len(),
{
    if bytes.len() > 0 {
        lemma_be_value_largest(bytes.drop_last());
    }
    lemma_limit_is_pow256();
}

/// An unsigned 256-bit integer.
#[derive(Clone, Copy, Debug, PartialEq, Eq, Default)]
pub struct Uint256 {
    bytes: [u8; 32],
}

impl View for Uint256 {
    type V = nat;

    closed spec fn view(&self) -> nat {
        be_value(self.bytes@)
    }
}

impl Uint256 {
    /// Every amount is below two to the power 256.
    pub proof fn lemma_below_limit(self)
        ensures
            self@ < uint256_limit(),
    {
        lemma_be_value_below_limit(self.bytes@);
    }

    /// The amount written by 32 big-endian bytes.
    pub fn from_be_bytes(bytes: [u8; 32]) -> (r: Uint256)
        ensures
            r@ == be_value(bytes@),
    {
        Uint256 { bytes }
    }

    /// The 32 big-endian bytes of the amount.
    pub fn to_be_bytes(&self) -> (bytes: [u8; 32])
        ensures
            be_value(bytes@) == self@,
    {
        self.bytes
    }

    /// The amount `x`.
    pub fn from_u128(x: u128) -> (r: Uint256)
        ensures
            r@ == x,
    {
        Uint256 { bytes: be_bytes_of_u128(x) }
    }

    /// The amount zero.
    pub fn zero() -> (r: Uint256)
        ensures
            r@ == 0,
    {
        Uint256 { bytes: be_bytes_of_u128(0) }
    }

    /// The sum of two amounts, or `None` where it does not fit in 256 bits.
    pub fn checked_add(&self, other: &Uint256) -> (r: Option<Uint256>)
        ensures
            r is Some <==> self@ + other@ < uint256_limit(),
            r is Some ==> r->0@ == self@ + other@,
    {
        match be_checked_add(&self.bytes, &other.bytes) {
            Some(bytes) => Some(Uint256 { bytes }),
            None => None,
        }
    }

    /// Whether this amount is strictly greater than `other`.
    pub fn gt(&self, other: &Uint256) -> (r: bool)
        ensures
            r == (self@ > other@),
    {
        be_greater(&self.bytes, &other.bytes)
    }
}

/// `Uint256::from_u128`, read back with `Uint256::to_be_bytes`: the 32
/// big-endian bytes that write `x`.
#[verifier::external_body]
fn be_bytes_of_u128(x: u128) -> (bytes: [u8; 32])
    ensures
        be_value(bytes@) == x,
{
    secret_cosmwasm_std::Uint256::from_u128(x).to_be_bytes()
}

/// `Uint256::checked_add` on the numbers that `a` and `b` write
/// (`Uint256::from_be_bytes`), the sum read back with `Uint256::to_be_bytes`.
/// It yields the exact sum when that is below two to the power 256, and
/// reports an overflow, here `None`, otherwise.
#[verifier::external_body]
fn be_checked_add(a: &[u8; 32], b: &[u8; 32]) -> (sum: Option<[u8; 32]>)
    ensures
        sum is Some <==> be_value(a@) + be_value(b@) < uint256_limit(),
        sum is Some ==> be_value(sum->0@) == be_value(a@) + be_value(b@),
{
    let x = secret_cosmwasm_std::Uint256::from_be_bytes(*a);
    let y = secret_cosmwasm_std::Uint256::from_be_bytes(*b);
    match x.checked_add(y) {
        Ok(s) => Some(s.to_be_bytes()),
        Err(_) => None,
    }
}

/// The order of `Uint256` (`>`), which is that of the numbers, on the numbers
/// that `a` and `b` write (`Uint256::from_be_bytes`).
#[verifier::external_body]
fn be_greater(a: &[u8; 32], b: &[u8; 32]) -> (r: bool)
    ensures
        r == (be_value(a@) > be_value(b@)),
{
    let x = secret_cosmwasm_std::Uint256::from_be_bytes(*a);
    let y = secret_cosmwasm_std::Uint256::from_be_bytes(*b);
    x > y
}

} // verus!
