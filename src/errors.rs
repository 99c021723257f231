//! Error codes of the engine, each with the category it belongs to.
use vstd::prelude::*;

verus! {

/// The category of a failure.
#[derive(PartialEq, Eq, Structural, Clone, Copy, Debug)]
pub enum ErrorKind {
    /// A call before the machine was initialised.
    Setup,
    /// A rejected input: zero recipient, zero value, no lots to hand out.
    Validation,
    /// A checked add, sub, mul or div failed.
    Arithmetic,
    /// A collaborator call failed or answered with a value the engine refuses.
    Oracle,
    /// Returned data of the wrong shape.
    Unpack,
}

/// One code per cause of failure.
#[derive(PartialEq, Eq, Structural, Clone, Copy, Debug)]
pub enum EngineError {
    NotSetup,
    InvalidRecipient,
    NoValue,
    NoNfts,
    CheckedSub,
    CheckedMul,
    CheckedDiv,
    AmountTooLarge,
    PriceNegative,
    UnpackU8,
    RoundUnpack,
    VrfUnpack,
    ChainlinkDecimals,
    ChainlinkRound,
    ChainlinkVrf,
    NftTransfer,
    RefundTransfer,
}

/// The category of each error code.
pub open spec fn kind_of(e: EngineError) -> ErrorKind {
    match e {
        EngineError::NotSetup => ErrorKind::Setup,
        EngineError::InvalidRecipient => ErrorKind::Validation,
        EngineError::NoValue => ErrorKind::Validation,
        EngineError::NoNfts => ErrorKind::Validation,
        EngineError::CheckedSub => ErrorKind::Arithmetic,
        EngineError::CheckedMul => ErrorKind::Arithmetic,
        EngineError::CheckedDiv => ErrorKind::Arithmetic,
        EngineError::AmountTooLarge => ErrorKind::Arithmetic,
        EngineError::PriceNegative => ErrorKind::Oracle,
        EngineError::UnpackU8 => ErrorKind::Unpack,
        EngineError::RoundUnpack => ErrorKind::Unpack,
        EngineError::VrfUnpack => ErrorKind::Unpack,
        EngineError::ChainlinkDecimals => ErrorKind::Oracle,
        EngineError::ChainlinkRound => ErrorKind::Oracle,
        EngineError::ChainlinkVrf => ErrorKind::Oracle,
        EngineError::NftTransfer => ErrorKind::Oracle,
        EngineError::RefundTransfer => ErrorKind::Oracle,
    }
}

impl EngineError {
    /// The category of this error.
    pub fn kind(&self) -> (r: ErrorKind)
        ensures
            r == kind_of(*self),
    {
        match self {
            EngineError::NotSetup => ErrorKind::Setup,
            EngineError::InvalidRecipient => ErrorKind::Validation,
            EngineError::NoValue => ErrorKind::Validation,
            EngineError::NoNfts => ErrorKind::Validation,
            EngineError::CheckedSub => ErrorKind::Arithmetic,
            EngineError::CheckedMul => ErrorKind::Arithmetic,
            EngineError::CheckedDiv => ErrorKind::Arithmetic,
            EngineError::AmountTooLarge => ErrorKind::Arithmetic,
            EngineError::PriceNegative => ErrorKind::Oracle,
            EngineError::UnpackU8 => ErrorKind::Unpack,
            EngineError::RoundUnpack => ErrorKind::Unpack,
            EngineError::VrfUnpack => ErrorKind::Unpack,
            EngineError::ChainlinkDecimals => ErrorKind::Oracle,
            EngineError::ChainlinkRound => ErrorKind::Oracle,
            EngineError::ChainlinkVrf => ErrorKind::Oracle,
            EngineError::NftTransfer => ErrorKind::Oracle,
            EngineError::RefundTransfer => ErrorKind::Oracle,
        }
    }
}

/// The numeric code of each error, as callers receive it: distinct for
/// each cause, starting at 1.
pub open spec fn code_of(e: EngineError) -> u8 {
    match e {
        EngineError::NotSetup => 1,
        EngineError::InvalidRecipient => 2,
        EngineError::NoValue => 3,
        EngineError::NoNfts => 4,
        EngineError::CheckedSub => 5,
        EngineError::CheckedMul => 6,
        EngineError::CheckedDiv => 7,
        EngineError::AmountTooLarge => 8,
        EngineError::PriceNegative => 9,
        EngineError::UnpackU8 => 10,
        EngineError::RoundUnpack => 11,
        EngineError::VrfUnpack => 12,
        EngineError::ChainlinkDecimals => 13,
        EngineError::ChainlinkRound => 14,
        EngineError::ChainlinkVrf => 15,
        EngineError::NftTransfer => 16,
        EngineError::RefundTransfer => 17,
    }
}

/// Distinct errors have distinct codes.
pub proof fn lemma_codes_distinct(a: EngineError, b: EngineError)
    ensures
        code_of(a) == code_of(b) ==> a == b,
{
}

impl EngineError {
    /// This error's numeric code.
    pub fn code(&self) -> (r: u8)
        ensures
            r == code_of(*self),
    {
        match self {
            EngineError::NotSetup => 1,
            EngineError::InvalidRecipient => 2,
            EngineError::NoValue => 3,
            EngineError::NoNfts => 4,
            EngineError::CheckedSub => 5,
            EngineError::CheckedMul => 6,
            EngineError::CheckedDiv => 7,
            EngineError::AmountTooLarge => 8,
            EngineError::PriceNegative => 9,
            EngineError::UnpackU8 => 10,
            EngineError::RoundUnpack => 11,
            EngineError::VrfUnpack => 12,
            EngineError::ChainlinkDecimals => 13,
            EngineError::ChainlinkRound => 14,
            EngineError::ChainlinkVrf => 15,
            EngineError::NftTransfer => 16,
            EngineError::RefundTransfer => 17,
        }
    }
}

} // verus!
