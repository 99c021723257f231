//! The engine's state: tiers of lots, the deposit queue and the round.
use vstd::prelude::*;
use crate::uint::Uint256;

verus! {

/// A lot: an award contract and how many of its items are left to hand out.
#[derive(Clone, Copy, Debug, PartialEq, Eq)]
pub struct StorageNFTDistributable {
    pub address: [u8; 20],
    pub remaining: u32,
}

/// A tier: the six-decimal USD minimum to take part, and its pool of lots.
#[derive(Debug)]
pub struct StorageLevel {
    pub usd_min: Uint256,
    pub lots: Vec<StorageNFTDistributable>,
}

/// What a tier holds, as values.
pub ghost struct LevelView {
    pub usd_min: Uint256,
    pub lots: Seq<StorageNFTDistributable>,
}

impl View for StorageLevel {
    type V = LevelView;

    open spec fn view(&self) -> LevelView {
        LevelView { usd_min: self.usd_min, lots: self.lots@ }
    }
}

/// The views of a sequence of tiers.
pub open spec fn levels_view(levels: Seq<StorageLevel>) -> Seq<LevelView> {
    levels.map_values(|l: StorageLevel| l@)
}

/// Every lot in the pools has items left.
pub open spec fn levels_wf(levels: Seq<LevelView>) -> bool {
    forall|i: int, k: int|
        0 <= i < levels.len() && 0 <= k < levels[i].lots.len() ==> levels[i].lots[k].remaining > 0
}

/// The machine: its version (zero until set up), the round's state, the
/// queue of packed deposits and the tiers, lowest minimum first.
#[derive(Debug)]
pub struct StorageVendingMachine {
    pub version: u64,
    pub fee: Uint256,
    pub pending: bool,
    pub queue: Vec<[u8; 32]>,
    pub levels: Vec<StorageLevel>,
}

impl StorageVendingMachine {
    /// The tiers as values.
    pub open spec fn levels_spec(&self) -> Seq<LevelView> {
        levels_view(self.levels@)
    }

    /// The machine's invariant: every distributable lot has items left.
    pub open spec fn wf(&self) -> bool {
        levels_wf(self.levels_spec())
    }
}

} // verus!
