//! A 256-bit unsigned integer held as four little-endian 64-bit limbs, with
//! its value as a `nat`. Arithmetic is ruint's.
use vstd::prelude::*;
use ruint::aliases::U256;
use crate::codec::{be_value, word_at};

verus! {

/// `2^64`.
pub const LIMB_BASE: u128 = 0x1_0000_0000_0000_0000;

/// `2^256`, the exclusive bound of a 256-bit value.
pub open spec fn uint256_limit() -> nat {
    0x1_0000_0000_0000_0000 * 0x1_0000_0000_0000_0000 * 0x1_0000_0000_0000_0000 * 0x1_0000_0000_0000_0000
}

/// A 256-bit unsigned integer: limb 0 is the least significant.
#[derive(Clone, Copy, Debug, PartialEq, Eq)]
pub struct Uint256 {
    pub limbs: [u64; 4],
}

impl Uint256 {
    /// The integer's value.
    pub open spec fn value(&self) -> nat {
        self.limbs[0] as nat + 0x1_0000_0000_0000_0000 * (self.limbs[1] as nat + 0x1_0000_0000_0000_0000 * (
        self.limbs[2] as nat + 0x1_0000_0000_0000_0000 * (self.limbs[3] as nat)))
    }

    /// The integer whose value is `x`.
    pub fn from_u128(x: u128) -> (r: Self)
        ensures
            r.value() == x,
    {
        assert(x == (x / LIMB_BASE) * LIMB_BASE + x % LIMB_BASE) by {
            vstd::arithmetic::div_mod::lemma_fundamental_div_mod(x as int, LIMB_BASE as int);
        }
        assert(x / LIMB_BASE <= u64::MAX) by {
            vstd::arithmetic::div_mod::lemma_div_is_ordered(x as int, u128::MAX as int, LIMB_BASE as int);
        }
        let lo = (x % LIMB_BASE) as u64;
        let hi = (x / LIMB_BASE) as u64;
        let r = Uint256 { limbs: [lo, hi, 0, 0] };
        assert(r.limbs[0] == lo && r.limbs[1] == hi && r.limbs[2] == 0 && r.limbs[3] == 0);
        r
    }

    /// Zero.
    pub fn zero() -> (r: Self)
        ensures
            r.value() == 0,
    {
        Uint256 { limbs: [0, 0, 0, 0] }
    }

    /// Tests whether the value is zero.
    pub fn is_zero(&self) -> (r: bool)
        ensures
            r == (self.value() == 0),
    {
        self.limbs[0] == 0 && self.limbs[1] == 0 && self.limbs[2] == 0 && self.limbs[3] == 0
    }

    /// The value as a `u128`, where it fits.
    pub fn to_u128(&self) -> (r: Option<u128>)
        ensures
            r == (if self.value() <= u128::MAX { Some(self.value() as u128) } else { None::<u128> }),
    {
        if self.limbs[2] != 0 || self.limbs[3] != 0 {
            return None;
        }
        let lo = self.limbs[0] as u128;
        let hi = self.limbs[1] as u128;
        assert(hi * 0x1_0000_0000_0000_0000 + lo <= u128::MAX) by (nonlinear_arith)
            requires
                hi <= u64::MAX,
                lo <= u64::MAX,
        ;
        Some(hi * LIMB_BASE + lo)
    }
}

/// Relies on ruint's `Uint::from_be_bytes`: the 32 bytes read as one
/// big-endian number. `as_limbs` gives its limbs, least significant first.
#[verifier::external_body]
pub(crate) fn uint_from_be_bytes(b: [u8; 32]) -> (r: Uint256)
    ensures
        r.value() == be_value(b@),
{
    Uint256 { limbs: *U256::from_be_bytes::<32>(b).as_limbs() }
}

/// Relies on ruint's `PartialOrd` for `Uint` (`<=`): it compares the values.
#[verifier::external_body]
pub(crate) fn uint_le(a: &Uint256, b: &Uint256) -> (r: bool)
    ensures
        r == (a.value() <= b.value()),
{
    U256::from_limbs(a.limbs) <= U256::from_limbs(b.limbs)
}

/// Relies on ruint's `Uint::checked_sub`: the difference, or `None` where
/// it would be negative.
#[verifier::external_body]
pub(crate) fn uint_checked_sub(a: &Uint256, b: &Uint256) -> (r: Option<Uint256>)
    ensures
        r is Some <==> a.value() >= b.value(),
        r is Some ==> r->Some_0.value() == a.value() - b.value(),
{
    U256::from_limbs(a.limbs).checked_sub(U256::from_limbs(b.limbs)).map(|d| Uint256 { limbs: *d.as_limbs() })
}

/// Relies on ruint's `Uint::checked_mul`: the product, or `None` where it
/// reaches `2^256`.
#[verifier::external_body]
pub(crate) fn uint_checked_mul(a: &Uint256, b: &Uint256) -> (r: Option<Uint256>)
    ensures
        r is Some <==> a.value() * b.value() < uint256_limit(),
        r is Some ==> r->Some_0.value() == a.value() * b.value(),
{
    U256::from_limbs(a.limbs).checked_mul(U256::from_limbs(b.limbs)).map(|p| Uint256 { limbs: *p.as_limbs() })
}

/// Relies on ruint's `Uint::checked_div`: the floor quotient, or `None`
/// for a zero divisor.
#[verifier::external_body]
pub(crate) fn uint_checked_div(a: &Uint256, b: &Uint256) -> (r: Option<Uint256>)
    ensures
        r is Some <==> b.value() != 0,
        r is Some ==> r->Some_0.value() == a.value() / b.value(),
{
    U256::from_limbs(a.limbs).checked_div(U256::from_limbs(b.limbs)).map(|q| Uint256 { limbs: *q.as_limbs() })
}

/// The big-endian 256-bit word of `data` from `start` on.
pub fn be_word_at(data: &[u8], start: usize) -> (r: Uint256)
    requires
        start + 32 <= data@.len(),
    ensures
        r.value() == be_value(data@.subrange(start as int, start + 32)),
{
    uint_from_be_bytes(word_at(data, start))
}

} // verus!
