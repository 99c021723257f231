//! Decoding the randomness service's answers.
use vstd::prelude::*;
use crate::codec::be_value;
use crate::uint::{be_word_at, Uint256};
use crate::errors::EngineError;

verus! {

/// Gas limit of the randomness callback.
pub const ESTIMATED_CALLBACK_LIMIT: u32 = 100;

/// Block confirmations asked of the randomness service.
pub const CHAINLINK_VRF_CONFIRMATIONS: u16 = 1;

/// Random words asked for per round.
pub const CHAINLINK_NUM_WORDS: u32 = 1;

/// Decodes a `uint256` answer of the service: one big-endian ABI word.
fn decode_uint_answer(data: &[u8]) -> (r: Result<Uint256, EngineError>)
    ensures
        r is Ok <==> data@.len() == 32,
        r is Ok ==> r->Ok_0.value() == be_value(data@),
        r is Err ==> r->Err_0 == EngineError::VrfUnpack,
{
    if data.len() != 32 {
        return Err(EngineError::VrfUnpack);
    }
    assert(data@.subrange(0, 32) =~= data@);
    Ok(be_word_at(data, 0))
}

/// The request price, from the answer of `calculateRequestPriceNative`.
pub fn calculate_request_price_native(data: &[u8]) -> (r: Result<Uint256, EngineError>)
    ensures
        r is Ok <==> data@.len() == 32,
        r is Ok ==> r->Ok_0.value() == be_value(data@),
        r is Err ==> r->Err_0 == EngineError::VrfUnpack,
{
    decode_uint_answer(data)
}

/// The request id, from the answer of `requestRandomWordsInNative`.
pub fn request_random_words_in_native(data: &[u8]) -> (r: Result<Uint256, EngineError>)
    ensures
        r is Ok <==> data@.len() == 32,
        r is Ok ==> r->Ok_0.value() == be_value(data@),
        r is Err ==> r->Err_0 == EngineError::VrfUnpack,
{
    decode_uint_answer(data)
}

} // verus!
