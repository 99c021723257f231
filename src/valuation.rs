//! Valuation: decoding the price feed's answers and normalising the price to
//! six decimals.
use vstd::prelude::*;
use crate::codec::{be_value, unpack_u8};
use crate::uint::{be_word_at, uint256_limit, uint_checked_div, Uint256};
use crate::errors::EngineError;

verus! {

/// Decimals of the normalised USD price.
pub const USD_DECIMALS: u8 = 6;

/// Length of the feed's `latestRoundData` answer: five ABI words.
pub const ROUND_DATA_LEN: usize = 160;

/// `10^k`.
pub open spec fn pow10(k: nat) -> nat
    decreases k,
{
    if k == 0 {
        1
    } else {
        10 * pow10((k - 1) as nat)
    }
}

/// What a raw answer is divided by: `10^(6 - d)` for a feed of `d <= 6`
/// decimals, and a fixed `10` for a feed of more.
pub open spec fn price_divisor(decimals: u8) -> nat {
    if decimals <= USD_DECIMALS {
        pow10((USD_DECIMALS - decimals) as nat)
    } else {
        10
    }
}

/// The feed's decimals, from its `decimals` return word.
pub fn decimals(data: &[u8]) -> (r: Result<u8, EngineError>)
    ensures
        r == (if data@.len() == 32 { Ok(data@[31]) } else { Err::<u8, EngineError>(EngineError::UnpackU8) }),
{
    match unpack_u8(data) {
        Some(d) => Ok(d),
        None => Err(EngineError::UnpackU8),
    }
}

/// The signed answer word of `latestRoundData`: the second of five
/// big-endian ABI words.
pub open spec fn answer_word(data: Seq<u8>) -> Seq<u8> {
    data.subrange(32, 64)
}

/// A signed 256-bit answer as the feed's `int256` holds it: the
/// two's-complement bits, and whether the top bit is set.
#[derive(Clone, Copy, Debug, PartialEq, Eq)]
pub struct SignedAnswer {
    pub negative: bool,
    pub bits: Uint256,
}

impl SignedAnswer {
    /// The signed value: the bits, less `2^256` where the answer is negative.
    pub open spec fn value(&self) -> int {
        if self.negative {
            self.bits.value() - uint256_limit()
        } else {
            self.bits.value() as int
        }
    }
}

/// The signed value of a 32-byte big-endian two's-complement word.
pub open spec fn signed_be_value(s: Seq<u8>) -> int {
    if s[0] >= 128 {
        be_value(s) - uint256_limit()
    } else {
        be_value(s) as int
    }
}

/// Why the price cannot be had from the `latestRoundData` data, if so: the
/// wrong length, or a negative answer (its top bit set).
pub open spec fn round_price_error(data: Seq<u8>) -> Option<EngineError> {
    if data.len() != ROUND_DATA_LEN {
        Some(EngineError::RoundUnpack)
    } else if data[32] >= 128 {
        Some(EngineError::PriceNegative)
    } else {
        None
    }
}

/// The feed's signed answer, from its `latestRoundData` return data.
pub fn latest_round_data_price(data: &[u8]) -> (r: Result<SignedAnswer, EngineError>)
    ensures
        r is Ok <==> data@.len() == ROUND_DATA_LEN,
        r is Ok ==> r->Ok_0.value() == signed_be_value(answer_word(data@)),
        r is Ok ==> r->Ok_0.negative == (data@[32] >= 128),
        r is Ok ==> r->Ok_0.bits.value() == be_value(answer_word(data@)),
        r is Err ==> r->Err_0 == EngineError::RoundUnpack,
{
    if data.len() != ROUND_DATA_LEN {
        return Err(EngineError::RoundUnpack);
    }
    let bits = be_word_at(data, 32);
    assert(answer_word(data@)[0] == data@[32]);
    Ok(SignedAnswer { negative: data[32] >= 128, bits })
}

/// `10^k` for `k <= 6`.
fn pow10_small(k: u8) -> (r: u128)
    requires
        k <= USD_DECIMALS,
    ensures
        r == pow10(k as nat),
        r >= 1,
{
    let mut r: u128 = 1;
    let mut i: u8 = 0;
    while i < k
        invariant
            i <= k <= USD_DECIMALS,
            r == pow10(i as nat),
            1 <= r <= 1_000_000,
            r <= pow10(i as nat),
        decreases k - i,
    {
        proof {
            reveal_with_fuel(pow10, 7);
        }
        assert(r * 10 <= 1_000_000) by {
            reveal_with_fuel(pow10, 7);
        }
        r = r * 10;
        i = i + 1;
    }
    r
}

/// Normalises a non-negative raw answer of a feed with `decimals` decimals to
/// the six-decimal USD price.
pub fn normalize_price(decimals: u8, answer: Uint256) -> (r: Result<Uint256, EngineError>)
    ensures
        r is Ok,
        r is Ok ==> r->Ok_0.value() == answer.value() / price_divisor(decimals),
{
    let divisor: u128 = if decimals <= USD_DECIMALS {
        pow10_small(USD_DECIMALS - decimals)
    } else {
        10
    };
    let d = Uint256::from_u128(divisor);
    match uint_checked_div(&answer, &d) {
        Some(q) => Ok(q),
        None => Err(EngineError::CheckedDiv),
    }
}

/// The current six-decimal USD price from the feed's two answers: the
/// `decimals` word and the `latestRoundData` data, decoded in that order.
pub fn get_price(decimals_data: &[u8], round_data: &[u8]) -> (r: Result<Uint256, EngineError>)
    ensures
        decimals_data@.len() != 32 ==> r == Err::<Uint256, EngineError>(EngineError::UnpackU8),
        decimals_data@.len() == 32 ==> (r is Ok <==> round_price_error(round_data@) is None),
        decimals_data@.len() == 32 && r is Ok ==> r->Ok_0.value() == be_value(answer_word(round_data@))
            / price_divisor(decimals_data@[31]),
        decimals_data@.len() == 32 && r is Err ==> Some(r->Err_0) == round_price_error(round_data@),
{
    let d = decimals(decimals_data)?;
    let answer = latest_round_data_price(round_data)?;
    if answer.negative {
        return Err(EngineError::PriceNegative);
    }
    normalize_price(d, answer.bits)
}

} // verus!
