//! Deposits: setting up the machine, queueing deposits and the round's fee.
use vstd::prelude::*;
use crate::codec::{lemma_pack_round_trip, pack_queue_item, pack_spec, word_address, word_amount, AMOUNT_LIMIT};
use crate::errors::EngineError;
use crate::uint::{uint_checked_sub, Uint256};
use crate::storage::{
    levels_view, LevelView, StorageLevel, StorageNFTDistributable, StorageVendingMachine,
};

verus! {

/// An address of all zero bytes.
pub open spec fn is_zero_address(a: Seq<u8>) -> bool {
    forall|i: int| 0 <= i < a.len() ==> a[i] == 0
}

/// Some tier has a lot left to hand out.
pub open spec fn has_lots(levels: Seq<LevelView>) -> bool {
    exists|i: int| 0 <= i < levels.len() && levels[i].lots.len() > 0
}

/// The fee of the round a deposit falls in: the locked fee of the pending
/// round, or the quote that opens a new one.
pub open spec fn round_fee(pending: bool, fee: Uint256, quote: Uint256) -> Uint256 {
    if pending {
        fee
    } else {
        quote
    }
}

/// Why a deposit is refused before any fee is considered, if it is.
pub open spec fn precheck_error(m: StorageVendingMachine, recipient: Seq<u8>, paid_value: Uint256) -> Option<EngineError> {
    if m.version == 0 {
        Some(EngineError::NotSetup)
    } else if is_zero_address(recipient) {
        Some(EngineError::InvalidRecipient)
    } else if paid_value.value() == 0 {
        Some(EngineError::NoValue)
    } else if !has_lots(m.levels_spec()) {
        Some(EngineError::NoNfts)
    } else {
        None
    }
}

/// Why a deposit is refused, if it is, in the order of the checks.
pub open spec fn lockup_error(
    m: StorageVendingMachine,
    recipient: Seq<u8>,
    paid_value: Uint256,
    quote: Uint256,
) -> Option<EngineError> {
    let fee = round_fee(m.pending, m.fee, quote);
    if precheck_error(m, recipient, paid_value) is Some {
        precheck_error(m, recipient, paid_value)
    } else if paid_value.value() < fee.value() {
        Some(EngineError::CheckedSub)
    } else if paid_value.value() - fee.value() >= AMOUNT_LIMIT {
        Some(EngineError::AmountTooLarge)
    } else {
        None
    }
}

/// Tests whether every byte of an address is zero.
pub fn address_is_zero(a: &[u8; 20]) -> (r: bool)
    ensures
        r == is_zero_address(a@),
{
    let mut i: usize = 0;
    while i < 20
        invariant
            i <= 20,
            forall|j: int| 0 <= j < i ==> a@[j] == 0,
        decreases 20 - i,
    {
        if a[i] != 0 {
            return false;
        }
        i = i + 1;
    }
    true
}

/// What a call of `lockup` does: a refused deposit changes nothing; an
/// accepted one gets the queue's old length as its ticket, appends its packed
/// entry of paid value minus the round's fee, and opens or keeps the round.
pub open spec fn lockup_post(
    pre: StorageVendingMachine,
    post: StorageVendingMachine,
    recipient: Seq<u8>,
    paid_value: Uint256,
    quote: Uint256,
    r: Result<usize, EngineError>,
) -> bool {
    match lockup_error(pre, recipient, paid_value, quote) {
        Some(e) => r == Err::<usize, EngineError>(e) && post == pre,
        None => {
            let fee = round_fee(pre.pending, pre.fee, quote);
            &&& r == Ok::<usize, EngineError>(pre.queue@.len() as usize)
            &&& post.queue@.len() == pre.queue@.len() + 1
            &&& post.queue@.subrange(0, pre.queue@.len() as int) == pre.queue@
            &&& post.queue@.last()@ == pack_spec((paid_value.value() - fee.value()) as nat, recipient)
            &&& word_amount(post.queue@.last()@) == paid_value.value() - post.fee.value()
            &&& word_address(post.queue@.last()@) == recipient
            &&& post.pending
            &&& post.fee == fee
            &&& post.version == pre.version
            &&& post.levels == pre.levels
        },
    }
}

/// A round of accepted deposits, made one after another from an empty
/// queue with no resolution between them: the `k`-th call gets ticket `k`,
/// the queue holds the deposits in call order, each with its paid value minus
/// one fee, the fee locked by the first call, which stays locked throughout.
pub proof fn lemma_round_of_deposits(
    states: Seq<StorageVendingMachine>,
    recipients: Seq<Seq<u8>>,
    paid: Seq<Uint256>,
    quotes: Seq<Uint256>,
    results: Seq<Result<usize, EngineError>>,
)
    requires
        states.len() == results.len() + 1,
        recipients.len() == results.len(),
        paid.len() == results.len(),
        quotes.len() == results.len(),
        results.len() > 0,
        states[0].queue@.len() == 0,
        forall|k: int| 0 <= k < results.len() ==> #[trigger] lockup_post(states[k], states[k + 1], recipients[k], paid[k], quotes[k], results[k]),
        forall|k: int| 0 <= k < results.len() ==> #[trigger] results[k] is Ok,
    ensures
        ({
            let n = results.len() as int;
            let fee = round_fee(states[0].pending, states[0].fee, quotes[0]);
            &&& forall|k: int| 0 <= k < n ==> results[k] == Ok::<usize, EngineError>(k as usize)
            &&& forall|k: int| 0 <= k < n ==> #[trigger] states[k + 1].fee == fee
            &&& states[n].queue@.len() == n
            &&& forall|k: int| 0 <= k < n ==> word_amount(#[trigger] states[n].queue@[k]@) == paid[k].value() - fee.value()
            &&& forall|k: int| 0 <= k < n ==> word_address(#[trigger] states[n].queue@[k]@) == recipients[k]
        }),
{
    let n = results.len() as int;
    lemma_deposits_prefix(states, recipients, paid, quotes, results, n);
}

proof fn lemma_deposits_prefix(
    states: Seq<StorageVendingMachine>,
    recipients: Seq<Seq<u8>>,
    paid: Seq<Uint256>,
    quotes: Seq<Uint256>,
    results: Seq<Result<usize, EngineError>>,
    m: int,
)
    requires
        states.len() == results.len() + 1,
        recipients.len() == results.len(),
        paid.len() == results.len(),
        quotes.len() == results.len(),
        results.len() > 0,
        0 <= m <= results.len(),
        states[0].queue@.len() == 0,
        forall|k: int| 0 <= k < results.len() ==> #[trigger] lockup_post(states[k], states[k + 1], recipients[k], paid[k], quotes[k], results[k]),
        forall|k: int| 0 <= k < results.len() ==> #[trigger] results[k] is Ok,
    ensures
        ({
            let fee = round_fee(states[0].pending, states[0].fee, quotes[0]);
            &&& forall|k: int| 0 <= k < m ==> results[k] == Ok::<usize, EngineError>(k as usize)
            &&& forall|k: int| 0 <= k < m ==> #[trigger] states[k + 1].fee == fee
            &&& m > 0 ==> states[m].pending
            &&& states[m].queue@.len() == m
            &&& forall|k: int| 0 <= k < m ==> word_amount(#[trigger] states[m].queue@[k]@) == paid[k].value() - fee.value()
            &&& forall|k: int| 0 <= k < m ==> word_address(#[trigger] states[m].queue@[k]@) == recipients[k]
        }),
    decreases m,
{
    if m > 0 {
        let j = m - 1;
        lemma_deposits_prefix(states, recipients, paid, quotes, results, j);
        assert(lockup_post(states[j], states[j + 1], recipients[j], paid[j], quotes[j], results[j]));
        assert(results[j] is Ok);
        let pre = states[j];
        let post = states[m];
        let fee = round_fee(states[0].pending, states[0].fee, quotes[0]);
        assert(lockup_error(pre, recipients[j], paid[j], quotes[j]) is None);
        if j > 0 {
            assert(states[(j - 1) + 1].fee == fee);
            assert(pre.pending);
        }
        assert(post.fee == fee);
        assert(post.queue@[j] == post.queue@.last());
        assert forall|k: int| 0 <= k < j implies post.queue@[k] == pre.queue@[k] by {
            assert(post.queue@.subrange(0, j)[k] == post.queue@[k]);
        }
        assert forall|k: int| 0 <= k < m implies #[trigger] states[k + 1].fee == fee by {
            if k < j {
                assert(states[k + 1].fee == fee);
            }
        }
        assert forall|k: int| 0 <= k < m implies word_amount(#[trigger] post.queue@[k]@) == paid[k].value() - fee.value()
            && word_address(post.queue@[k]@) == recipients[k] by {
            if k < j {
                assert(post.queue@[k] == pre.queue@[k]);
                assert(word_amount(pre.queue@[k]@) == paid[k].value() - fee.value());
                assert(word_address(pre.queue@[k]@) == recipients[k]);
            }
        }
        assert forall|k: int| 0 <= k < m implies results[k] == Ok::<usize, EngineError>(k as usize) by {
            if k < j {
                assert(results[k] == Ok::<usize, EngineError>(k as usize));
            }
        }
    }
}

impl StorageVendingMachine {
    /// A machine with the given version, no round pending, an empty queue
    /// and no tiers.
    pub fn new(version: u64) -> (r: Self)
        ensures
            r.version == version,
            r.fee.value() == 0,
            !r.pending,
            r.queue@.len() == 0,
            r.levels@.len() == 0,
            r.wf(),
    {
        StorageVendingMachine { version, fee: Uint256::zero(), pending: false, queue: Vec::new(), levels: Vec::new() }
    }

    /// Appends a tier with an empty pool; tiers are added lowest minimum first.
    pub fn add_level(&mut self, usd_min: Uint256)
        requires
            old(self).wf(),
        ensures
            final(self).wf(),
            final(self).levels@.len() == old(self).levels@.len() + 1,
            final(self).levels_spec() == old(self).levels_spec().push(
                LevelView { usd_min, lots: Seq::empty() },
            ),
            final(self).version == old(self).version,
            final(self).fee == old(self).fee,
            final(self).pending == old(self).pending,
            final(self).queue@ == old(self).queue@,
    {
        let ghost before = self.levels@;
        self.levels.push(StorageLevel { usd_min, lots: Vec::new() });
        assert(levels_view(self.levels@) =~= levels_view(before).push(
            LevelView { usd_min, lots: Seq::empty() },
        ));
    }

    /// Adds a lot of `count` items of the award contract `address` to the
    /// pool of tier `level`.
    pub fn add_lot(&mut self, level: usize, address: [u8; 20], count: u32)
        requires
            old(self).wf(),
            level < old(self).levels@.len(),
            count > 0,
        ensures
            final(self).wf(),
            final(self).levels_spec() == old(self).levels_spec().update(
                level as int,
                LevelView {
                    usd_min: old(self).levels_spec()[level as int].usd_min,
                    lots: old(self).levels_spec()[level as int].lots.push(
                        StorageNFTDistributable { address, remaining: count },
                    ),
                },
            ),
            final(self).version == old(self).version,
            final(self).fee == old(self).fee,
            final(self).pending == old(self).pending,
            final(self).queue@ == old(self).queue@,
    {
        let ghost before = self.levels@;
        self.levels[level].lots.push(StorageNFTDistributable { address, remaining: count });
        assert(levels_view(self.levels@) =~= levels_view(before).update(
            level as int,
            LevelView {
                usd_min: levels_view(before)[level as int].usd_min,
                lots: levels_view(before)[level as int].lots.push(
                    StorageNFTDistributable { address, remaining: count },
                ),
            },
        ));
    }

    /// Tests whether some tier has a lot left to hand out.
    pub fn any_lots(&self) -> (r: bool)
        ensures
            r == has_lots(self.levels_spec()),
    {
        let mut i: usize = 0;
        while i < self.levels.len()
            invariant
                i <= self.levels@.len(),
                forall|j: int| 0 <= j < i ==> self.levels_spec()[j].lots.len() == 0,
            decreases self.levels@.len() - i,
        {
            if self.levels[i].lots.len() > 0 {
                assert(self.levels_spec()[i as int].lots.len() > 0);
                return true;
            }
            i = i + 1;
        }
        false
    }

    /// The checks on a deposit that come before its fee: the machine is set
    /// up, the recipient is not the zero address, the value is not zero and
    /// some tier has lots.
    pub fn lockup_precheck(&self, recipient: &[u8; 20], paid_value: &Uint256) -> (r: Result<(), EngineError>)
        ensures
            match precheck_error(*self, recipient@, *paid_value) {
                Some(e) => r == Err::<(), EngineError>(e),
                None => r == Ok::<(), EngineError>(()),
            },
    {
        if self.version == 0 {
            return Err(EngineError::NotSetup);
        }
        if address_is_zero(recipient) {
            return Err(EngineError::InvalidRecipient);
        }
        if paid_value.is_zero() {
            return Err(EngineError::NoValue);
        }
        if !self.any_lots() {
            return Err(EngineError::NoNfts);
        }
        Ok(())
    }

    /// Whether a deposit now would open a new round, and so needs a fee
    /// quote and a randomness request.
    pub fn opens_round(&self) -> (r: bool)
        ensures
            r == !self.pending,
    {
        !self.pending
    }

    /// Queues a deposit of `paid_value` for `recipient` and returns its
    /// ticket, the queue's length before. Where no round is pending the
    /// deposit opens one, and `quote` becomes its locked fee. Every deposit
    /// has the round's fee taken from its value.
    pub fn lockup(&mut self, recipient: [u8; 20], paid_value: Uint256, quote: Uint256) -> (r: Result<usize, EngineError>)
        requires
            old(self).wf(),
        ensures
            final(self).wf(),
            lockup_post(*old(self), *final(self), recipient@, paid_value, quote, r),
    {
        self.lockup_precheck(&recipient, &paid_value)?;
        let fee = if self.pending { self.fee } else { quote };
        let net = match uint_checked_sub(&paid_value, &fee) {
            Some(d) => d,
            None => return Err(EngineError::CheckedSub),
        };
        let net = match net.to_u128() {
            Some(n) => n,
            None => return Err(EngineError::AmountTooLarge),
        };
        if net >= AMOUNT_LIMIT {
            return Err(EngineError::AmountTooLarge);
        }
        let ticket = self.queue.len();
        let word = pack_queue_item(net, recipient);
        self.fee = fee;
        self.pending = true;
        self.queue.push(word);
        proof {
            lemma_pack_round_trip(net as nat, recipient@);
        }
        assert(self.queue@.subrange(0, ticket as int) =~= old(self).queue@);
        Ok(ticket)
    }
}

} // verus!
