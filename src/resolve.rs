//! The allocation pass: after randomness arrives, each queued deposit, in
//! order, gets a lot of the richest tier it qualifies for, or its refund.
use vstd::prelude::*;
use crate::codec::{unpack_queue_item, word_address, word_amount};
use crate::errors::EngineError;
use crate::uint::{uint256_limit, uint_checked_mul, uint_le, Uint256};
use crate::randomness::{draw_words, draws_spec, seed_from_words, seed_spec};
use crate::storage::{levels_view, levels_wf, LevelView, StorageNFTDistributable, StorageVendingMachine};

verus! {

/// What one deposit comes to.
#[derive(Clone, Copy, Debug, PartialEq, Eq)]
pub enum Allocation {
    /// One item of the lot of award contract `contract`, from tier `level`;
    /// `unit` is the lot's count before the award, so a lot hands out its
    /// units from the highest down.
    Award { recipient: [u8; 20], level: usize, contract: [u8; 20], unit: u32 },
    /// No tier qualified: the net amount goes back.
    Refund { recipient: [u8; 20], amount: u128 },
}

/// An allocation as values.
pub ghost enum AllocationView {
    Award { recipient: Seq<u8>, level: int, contract: [u8; 20], unit: u32 },
    Refund { recipient: Seq<u8>, amount: nat },
}

impl View for Allocation {
    type V = AllocationView;

    open spec fn view(&self) -> AllocationView {
        match *self {
            Allocation::Award { recipient, level, contract, unit } => AllocationView::Award {
                recipient: recipient@,
                level: level as int,
                contract,
                unit,
            },
            Allocation::Refund { recipient, amount } => AllocationView::Refund {
                recipient: recipient@,
                amount: amount as nat,
            },
        }
    }
}

/// The views of a sequence of allocations.
pub open spec fn allocations_view(s: Seq<Allocation>) -> Seq<AllocationView> {
    s.map_values(|a: Allocation| a@)
}

/// A tier a deposit worth `v` may draw from: `v` reaches its minimum and its
/// pool is not empty.
pub open spec fn qualifies(l: LevelView, v: nat) -> bool {
    l.usd_min.value() <= v && l.lots.len() > 0
}

/// The last of the first `n` tiers that qualifies for `v`.
pub open spec fn select_below(levels: Seq<LevelView>, v: nat, n: int) -> Option<int>
    decreases n,
{
    if n <= 0 {
        None
    } else if qualifies(levels[n - 1], v) {
        Some(n - 1)
    } else {
        select_below(levels, v, n - 1)
    }
}

/// The tier a deposit worth `v` draws from: scanning from the top tier down,
/// the first that qualifies.
pub open spec fn select_level_spec(levels: Seq<LevelView>, v: nat) -> Option<int> {
    select_below(levels, v, levels.len() as int)
}

/// The pool after one item of lot `k` is handed out: the lot's count drops
/// by one, and a lot with none left is replaced by the pool's last lot.
pub open spec fn take_one_spec(lots: Seq<StorageNFTDistributable>, k: int) -> Seq<StorageNFTDistributable> {
    let lot = lots[k];
    if lot.remaining <= 1 {
        lots.update(k, lots.last()).drop_last()
    } else {
        lots.update(k, StorageNFTDistributable { address: lot.address, remaining: (lot.remaining - 1) as u32 })
    }
}

/// The tiers after one item of lot `k` of tier `li` is handed out.
pub open spec fn award_spec(levels: Seq<LevelView>, li: int, k: int) -> Seq<LevelView> {
    levels.update(li, LevelView { usd_min: levels[li].usd_min, lots: take_one_spec(levels[li].lots, k) })
}

/// The allocation pass over `queue`, from tiers `levels`, at `price`, with
/// `draws` the stream of random words: each award takes the next word, and
/// draws lot `word % pool length` of its tier. Gives the tiers after the
/// pass and one allocation per deposit, in queue order.
pub open spec fn settle_run(levels: Seq<LevelView>, queue: Seq<[u8; 32]>, price: nat, draws: Seq<u32>) -> (
    Seq<LevelView>,
    Seq<AllocationView>,
)
    decreases queue.len(),
{
    if queue.len() == 0 {
        (levels, Seq::empty())
    } else {
        let w = queue[0]@;
        let rest = queue.drop_first();
        match select_level_spec(levels, word_amount(w) * price) {
            None => {
                let (l2, os) = settle_run(levels, rest, price, draws);
                (l2, seq![AllocationView::Refund { recipient: word_address(w), amount: word_amount(w) }] + os)
            },
            Some(li) => {
                let k = (draws[0] as nat) % levels[li].lots.len();
                let (l2, os) = settle_run(award_spec(levels, li, k as int), rest, price, draws.drop_first());
                (l2, seq![AllocationView::Award { recipient: word_address(w), level: li, contract: levels[li].lots[k as int].address, unit: levels[li].lots[k as int].remaining }] + os)
            },
        }
    }
}

/// Some deposit's USD value, amount times price, reaches `2^256`.
pub open spec fn value_overflows(queue: Seq<[u8; 32]>, price: nat) -> bool {
    exists|i: int| 0 <= i < queue.len() && word_amount(queue[i]@) * price >= uint256_limit()
}

/// The tier chosen for a deposit worth `v` among the first `n` qualifies,
/// and none above it among those `n` does; where none is chosen, none of
/// them qualifies.
pub proof fn lemma_select_below(levels: Seq<LevelView>, v: nat, n: int)
    requires
        0 <= n <= levels.len(),
    ensures
        match select_below(levels, v, n) {
            Some(i) => 0 <= i < n && qualifies(levels[i], v) && forall|j: int| i < j < n ==> !qualifies(levels[j], v),
            None => forall|j: int| 0 <= j < n ==> !qualifies(levels[j], v),
        },
    decreases n,
{
    if n > 0 && !qualifies(levels[n - 1], v) {
        lemma_select_below(levels, v, n - 1);
    }
}

/// The outcome of resolving a round whose delivered words are `words`.
pub open spec fn fulfill_outcome(levels: Seq<LevelView>, queue: Seq<[u8; 32]>, price: nat, words: Seq<[u8; 32]>) -> (
    Seq<LevelView>,
    Seq<AllocationView>,
) {
    settle_run(levels, queue, price, draws_spec(seed_spec(words), queue.len()))
}

/// The recipient an allocation is for.
pub open spec fn recipient_of(a: AllocationView) -> Seq<u8> {
    match a {
        AllocationView::Award { recipient, .. } => recipient,
        AllocationView::Refund { recipient, .. } => recipient,
    }
}

/// Tiers whose minimums never decrease from one tier to the next.
pub open spec fn ascending(levels: Seq<LevelView>) -> bool {
    forall|i: int, j: int| 0 <= i <= j < levels.len() ==> levels[i].usd_min.value() <= levels[j].usd_min.value()
}

/// With tiers in ascending order, a deposit worth `v` draws from a tier
/// whose minimum is the highest at or below `v` among tiers with lots left;
/// where no tier qualifies it draws from none.
pub proof fn lemma_tier_selection(levels: Seq<LevelView>, v: nat)
    requires
        ascending(levels),
    ensures
        match select_level_spec(levels, v) {
            Some(i) => 0 <= i < levels.len() && qualifies(levels[i], v) && forall|j: int|
                0 <= j < levels.len() && qualifies(levels[j], v) ==> levels[j].usd_min.value() <= levels[i].usd_min.value(),
            None => forall|j: int| 0 <= j < levels.len() ==> !qualifies(levels[j], v),
        },
{
    lemma_select_below(levels, v, levels.len() as int);
}

/// The pass yields one allocation per deposit, in queue order: the `i`-th
/// allocation is for the `i`-th deposit's submitter.
pub proof fn lemma_settle_in_order(levels: Seq<LevelView>, queue: Seq<[u8; 32]>, price: nat, draws: Seq<u32>)
    ensures
        settle_run(levels, queue, price, draws).1.len() == queue.len(),
        forall|i: int| 0 <= i < queue.len() ==> recipient_of(#[trigger] settle_run(levels, queue, price, draws).1[i])
            == word_address(queue[i]@),
    decreases queue.len(),
{
    if queue.len() > 0 {
        let w = queue[0]@;
        let rest = queue.drop_first();
        match select_level_spec(levels, word_amount(w) * price) {
            None => {
                lemma_settle_in_order(levels, rest, price, draws);
            },
            Some(li) => {
                let k = (draws[0] as nat) % levels[li].lots.len();
                lemma_settle_in_order(award_spec(levels, li, k as int), rest, price, draws.drop_first());
            },
        }
        let os = settle_run(levels, queue, price, draws).1;
        assert forall|i: int| 0 <= i < queue.len() implies recipient_of(#[trigger] os[i]) == word_address(queue[i]@) by {
            if i > 0 {
                assert(queue[i] == rest[i - 1]);
            }
        }
    }
}

/// The tiers, and the number of draws used, just before deposit `i` of the
/// pass: an award takes the next draw and updates its tier, a refund takes
/// no draw and changes nothing.
pub open spec fn pass_state(levels: Seq<LevelView>, queue: Seq<[u8; 32]>, price: nat, draws: Seq<u32>, i: nat) -> (
    Seq<LevelView>,
    nat,
)
    decreases i,
{
    if i == 0 {
        (levels, 0)
    } else {
        let (l, d) = pass_state(levels, queue, price, draws, (i - 1) as nat);
        let w = queue[i - 1]@;
        match select_level_spec(l, word_amount(w) * price) {
            None => (l, d),
            Some(li) => (award_spec(l, li, ((draws[d as int] as nat) % l[li].lots.len()) as int), d + 1),
        }
    }
}

/// What deposit `i` comes to, from the tiers as they stand when its turn
/// comes: a lot of the selected tier at index `draw mod pool length`, the
/// draw being the next unused one, or its refund where no tier qualifies.
pub open spec fn deposit_outcome(levels: Seq<LevelView>, queue: Seq<[u8; 32]>, price: nat, draws: Seq<u32>, i: nat) -> AllocationView {
    let (l, d) = pass_state(levels, queue, price, draws, i);
    let w = queue[i as int]@;
    match select_level_spec(l, word_amount(w) * price) {
        None => AllocationView::Refund { recipient: word_address(w), amount: word_amount(w) },
        Some(li) => {
            let k = ((draws[d as int] as nat) % l[li].lots.len()) as int;
            AllocationView::Award { recipient: word_address(w), level: li, contract: l[li].lots[k].address, unit: l[li].lots[k].remaining }
        },
    }
}

/// Handing out an item leaves every tier's minimum as it was.
pub proof fn lemma_award_keeps_minimums(levels: Seq<LevelView>, li: int, k: int)
    requires
        0 <= li < levels.len(),
    ensures
        award_spec(levels, li, k).len() == levels.len(),
        forall|j: int| 0 <= j < levels.len() ==> #[trigger] award_spec(levels, li, k)[j].usd_min == levels[j].usd_min,
{
}

/// Before deposit `i`, at most `i` draws are used, the tiers keep their
/// minimums and so stay in ascending order.
pub proof fn lemma_pass_state(levels: Seq<LevelView>, queue: Seq<[u8; 32]>, price: nat, draws: Seq<u32>, i: nat)
    requires
        i <= queue.len(),
    ensures
        pass_state(levels, queue, price, draws, i).1 <= i,
        pass_state(levels, queue, price, draws, i).0.len() == levels.len(),
        forall|j: int| 0 <= j < levels.len() ==> #[trigger] pass_state(levels, queue, price, draws, i).0[j].usd_min == levels[j].usd_min,
        ascending(levels) ==> ascending(pass_state(levels, queue, price, draws, i).0),
    decreases i,
{
    if i > 0 {
        lemma_pass_state(levels, queue, price, draws, (i - 1) as nat);
        let (l, d) = pass_state(levels, queue, price, draws, (i - 1) as nat);
        match select_level_spec(l, word_amount(queue[i - 1]@) * price) {
            None => {},
            Some(li) => {
                lemma_select_below(l, word_amount(queue[i - 1]@) * price, l.len() as int);
                lemma_award_keeps_minimums(l, li, ((draws[d as int] as nat) % l[li].lots.len()) as int);
            },
        }
    }
}

/// The pass, read deposit by deposit: after the first `i` deposits the
/// allocations so far are their outcomes, and the rest of the pass runs
/// from the tiers and draws as they then stand.
proof fn lemma_settle_prefix(levels: Seq<LevelView>, queue: Seq<[u8; 32]>, price: nat, draws: Seq<u32>, i: nat)
    requires
        i <= queue.len(),
        draws.len() >= queue.len(),
    ensures
        ({
            let (l, d) = pass_state(levels, queue, price, draws, i);
            let rest = settle_run(l, queue.skip(i as int), price, draws.skip(d as int));
            settle_run(levels, queue, price, draws) == (
                rest.0,
                Seq::new(i, |j: int| deposit_outcome(levels, queue, price, draws, j as nat)) + rest.1,
            )
        }),
    decreases i,
{
    if i == 0 {
        assert(queue.skip(0) =~= queue);
        assert(draws.skip(0) =~= draws);
        assert(Seq::new(0, |j: int| deposit_outcome(levels, queue, price, draws, j as nat)) + settle_run(levels, queue, price, draws).1
            =~= settle_run(levels, queue, price, draws).1);
    } else {
        let p = (i - 1) as nat;
        lemma_settle_prefix(levels, queue, price, draws, p);
        lemma_pass_state(levels, queue, price, draws, p);
        let (l, d) = pass_state(levels, queue, price, draws, p);
        let qs = queue.skip(p as int);
        let ds = draws.skip(d as int);
        assert(qs[0] == queue[p as int]);
        assert(qs.drop_first() =~= queue.skip(i as int));
        assert(ds[0] == draws[d as int]);
        assert(ds.drop_first() =~= draws.skip((d + 1) as int));
        let pre = Seq::new(p, |j: int| deposit_outcome(levels, queue, price, draws, j as nat));
        let pre2 = Seq::new(i, |j: int| deposit_outcome(levels, queue, price, draws, j as nat));
        let (l2, d2) = pass_state(levels, queue, price, draws, i);
        let rest2 = settle_run(l2, queue.skip(i as int), price, draws.skip(d2 as int)).1;
        assert(pre2 =~= pre.push(deposit_outcome(levels, queue, price, draws, p)));
        assert(pre + (seq![deposit_outcome(levels, queue, price, draws, p)] + rest2) =~= pre2 + rest2);
    }
}

/// Deposit by deposit, the pass gives each deposit, in queue order, its
/// outcome from the tiers as they stand at its turn, drawing with the next
/// unused word only where it gets an award; with tiers in ascending order
/// the tier it draws from is the one of highest minimum at or below its
/// value with lots left at that moment, and it is refunded where there is
/// none.
pub proof fn lemma_pass_by_deposit(levels: Seq<LevelView>, queue: Seq<[u8; 32]>, price: nat, draws: Seq<u32>)
    requires
        draws.len() >= queue.len(),
    ensures
        settle_run(levels, queue, price, draws).1.len() == queue.len(),
        forall|i: int| 0 <= i < queue.len() ==> #[trigger] settle_run(levels, queue, price, draws).1[i]
            == deposit_outcome(levels, queue, price, draws, i as nat),
        forall|i: int| 0 <= i < queue.len() ==> (#[trigger] pass_state(levels, queue, price, draws, i as nat)).1 <= i,
        ascending(levels) ==> forall|i: int| 0 <= i < queue.len() ==> ascending(#[trigger] pass_state(levels, queue, price, draws, i as nat).0),
{
    let n = queue.len();
    lemma_settle_prefix(levels, queue, price, draws, n);
    lemma_settle_in_order(levels, queue, price, draws);
    let (l, d) = pass_state(levels, queue, price, draws, n);
    assert(queue.skip(n as int).len() == 0);
    assert forall|i: int| 0 <= i < queue.len() implies (#[trigger] pass_state(levels, queue, price, draws, i as nat)).1 <= i && (ascending(levels) ==> ascending(pass_state(levels, queue, price, draws, i as nat).0)) by {
        lemma_pass_state(levels, queue, price, draws, i as nat);
    }
}

/// Handing out an item keeps every pooled lot at a positive count: a lot
/// whose last item goes leaves its pool, so it is never drawn again.
pub proof fn lemma_lot_exhaustion(levels: Seq<LevelView>, li: int, k: int)
    requires
        levels_wf(levels),
        0 <= li < levels.len(),
        0 <= k < levels[li].lots.len(),
    ensures
        levels_wf(award_spec(levels, li, k)),
        levels[li].lots[k].remaining == 1 ==> award_spec(levels, li, k)[li].lots.len() == levels[li].lots.len() - 1,
        levels[li].lots[k].remaining > 1 ==> award_spec(levels, li, k)[li].lots[k].remaining == levels[li].lots[k].remaining - 1,
{
    let lv = award_spec(levels, li, k);
    let old_lots = levels[li].lots;
    assert forall|i: int, j: int| 0 <= i < lv.len() && 0 <= j < lv[i].lots.len() implies lv[i].lots[j].remaining > 0 by {
        if i == li {
            if old_lots[k].remaining <= 1 {
                if j == k {
                    assert(lv[i].lots[j] == old_lots.last());
                } else {
                    assert(lv[i].lots[j] == old_lots[j]);
                }
            } else if j != k {
                assert(lv[i].lots[j] == old_lots[j]);
            }
        }
    }
}

/// The same delivered seed and the same queue and tiers give the same
/// allocations and the same tiers afterwards; words that fold to the same
/// seed count as the same.
pub proof fn lemma_determinism(
    levels_a: Seq<LevelView>,
    queue_a: Seq<[u8; 32]>,
    words_a: Seq<[u8; 32]>,
    levels_b: Seq<LevelView>,
    queue_b: Seq<[u8; 32]>,
    words_b: Seq<[u8; 32]>,
    price: nat,
)
    requires
        levels_a == levels_b,
        queue_a == queue_b,
        seed_spec(words_a) == seed_spec(words_b),
    ensures
        fulfill_outcome(levels_a, queue_a, price, words_a) == fulfill_outcome(levels_b, queue_b, price, words_b),
{
}

impl StorageVendingMachine {
    /// The tier a deposit worth `v` draws from, if any.
    pub fn select_level(&self, v: &Uint256) -> (r: Option<usize>)
        ensures
            r matches Some(i) ==> select_level_spec(self.levels_spec(), v.value()) == Some(i as int),
            r is None ==> select_level_spec(self.levels_spec(), v.value()) is None,
    {
        let mut n: usize = self.levels.len();
        while n > 0
            invariant
                n <= self.levels@.len(),
                select_level_spec(self.levels_spec(), v.value()) == select_below(self.levels_spec(), v.value(), n as int),
            decreases n,
        {
            let l = &self.levels[n - 1];
            if uint_le(&l.usd_min, v) && l.lots.len() > 0 {
                return Some(n - 1);
            }
            n = n - 1;
        }
        None
    }

    /// Hands out one item of lot `k` of tier `li`.
    fn take_one(&mut self, li: usize, k: usize)
        requires
            old(self).wf(),
            li < old(self).levels@.len(),
            k < old(self).levels@[li as int].lots@.len(),
        ensures
            final(self).wf(),
            final(self).levels_spec() == award_spec(old(self).levels_spec(), li as int, k as int),
            final(self).queue == old(self).queue,
            final(self).version == old(self).version,
            final(self).fee == old(self).fee,
            final(self).pending == old(self).pending,
    {
        let ghost before = self.levels@;
        let lot = self.levels[li].lots[k];
        if lot.remaining <= 1 {
            self.levels[li].lots.swap_remove(k);
        } else {
            self.levels[li].lots.set(k, StorageNFTDistributable { address: lot.address, remaining: lot.remaining - 1 });
        }
        assert(levels_view(self.levels@) =~= award_spec(levels_view(before), li as int, k as int));
        proof {
            lemma_lot_exhaustion(levels_view(before), li as int, k as int);
        }
    }

    /// Resolves the round with the given stream of random words: allocates
    /// for every queued deposit, in order, clears the queue and ends the
    /// round. Where some deposit's USD value overflows, nothing changes.
    pub fn settle(&mut self, price: Uint256, draws: &Vec<u32>) -> (r: Result<Vec<Allocation>, EngineError>)
        requires
            old(self).wf(),
            draws@.len() >= old(self).queue@.len(),
        ensures
            final(self).wf(),
            value_overflows(old(self).queue@, price.value()) ==> r == Err::<Vec<Allocation>, EngineError>(EngineError::CheckedMul)
                && *final(self) == *old(self),
            !value_overflows(old(self).queue@, price.value()) ==> match r {
                Ok(out) => {
                    let (lv, os) = settle_run(old(self).levels_spec(), old(self).queue@, price.value(), draws@);
                    &&& allocations_view(out@) == os
                    &&& final(self).levels_spec() == lv
                    &&& final(self).queue@.len() == 0
                    &&& !final(self).pending
                    &&& final(self).fee == old(self).fee
                    &&& final(self).version == old(self).version
                },
                Err(_) => false,
            },
    {
        let n = self.queue.len();
        let mut i: usize = 0;
        while i < n
            invariant
                i <= n == self.queue@.len(),
                *self == *old(self),
                self.wf(),
                forall|j: int| 0 <= j < i ==> word_amount(self.queue@[j]@) * price.value() < uint256_limit(),
            decreases n - i,
        {
            let (amount, _) = unpack_queue_item(self.queue[i]);
            if uint_checked_mul(&Uint256::from_u128(amount), &price).is_none() {
                return Err(EngineError::CheckedMul);
            }
            i = i + 1;
        }
        let ghost l0 = self.levels_spec();
        let ghost q = self.queue@;
        let mut out: Vec<Allocation> = Vec::new();
        let mut dk: usize = 0;
        i = 0;
        assert(q.skip(0) =~= q);
        assert(draws@.skip(0) =~= draws@);
        assert(allocations_view(out@) + settle_run(l0, q, price.value(), draws@).1 =~= settle_run(l0, q, price.value(), draws@).1);
        while i < n
            invariant
                i <= n == q.len(),
                self.queue@ == q,
                dk <= i,
                draws@.len() >= n,
                self.wf(),
                self.version == old(self).version,
                self.fee == old(self).fee,
                forall|j: int| 0 <= j < n ==> word_amount(q[j]@) * price.value() < uint256_limit(),
                settle_run(l0, q, price.value(), draws@) == ({
                    let (l2, os) = settle_run(self.levels_spec(), q.skip(i as int), price.value(), draws@.skip(dk as int));
                    (l2, allocations_view(out@) + os)
                }),
            decreases n - i,
        {
            let ghost lv = self.levels_spec();
            let ghost qs = q.skip(i as int);
            let ghost ds = draws@.skip(dk as int);
            assert(qs[0] == q[i as int]);
            assert(qs.drop_first() =~= q.skip(i + 1));
            assert(ds.drop_first() =~= draws@.skip(dk + 1));
            let (amount, recipient) = unpack_queue_item(self.queue[i]);
            let v = match uint_checked_mul(&Uint256::from_u128(amount), &price) {
                Some(v) => v,
                None => return Err(EngineError::CheckedMul),
            };
            let ghost prev = allocations_view(out@);
            let sel = self.select_level(&v);
            proof {
                lemma_select_below(lv, v.value(), lv.len() as int);
            }
            match sel {
                None => {
                    out.push(Allocation::Refund { recipient, amount });
                    let ghost rest = settle_run(lv, q.skip(i + 1), price.value(), ds).1;
                    assert(allocations_view(out@) =~= prev.push(out@.last()@));
                    assert(allocations_view(out@) + rest =~= prev + (seq![out@.last()@] + rest));
                },
                Some(li) => {
                    let len = self.levels[li].lots.len();
                    let k = (draws[dk] as usize) % len;
                    assert(ds[0] == draws@[dk as int]);
                    let lot = self.levels[li].lots[k];
                    self.take_one(li, k);
                    out.push(Allocation::Award { recipient, level: li, contract: lot.address, unit: lot.remaining });
                    dk = dk + 1;
                    let ghost rest = settle_run(self.levels_spec(), q.skip(i + 1), price.value(), draws@.skip(dk as int)).1;
                    assert(allocations_view(out@) =~= prev.push(out@.last()@));
                    assert(allocations_view(out@) + rest =~= prev + (seq![out@.last()@] + rest));
                },
            }
            i = i + 1;
        }
        assert(q.skip(n as int).len() == 0);
        assert(allocations_view(out@) + Seq::<AllocationView>::empty() =~= allocations_view(out@));
        self.queue.clear();
        self.pending = false;
        Ok(out)
    }

    /// Takes delivery of the round's random words and resolves the round:
    /// the words are folded into the seed whose stream supplies the draws.
    /// The ticket is not checked against the request.
    pub fn raw_fulfill_random_words(&mut self, ticket: Uint256, words: &Vec<[u8; 32]>, price: Uint256) -> (r: Result<Vec<Allocation>, EngineError>)
        requires
            old(self).wf(),
        ensures
            final(self).wf(),
            value_overflows(old(self).queue@, price.value()) ==> r == Err::<Vec<Allocation>, EngineError>(EngineError::CheckedMul)
                && *final(self) == *old(self),
            !value_overflows(old(self).queue@, price.value()) ==> match r {
                Ok(out) => {
                    let (lv, os) = fulfill_outcome(old(self).levels_spec(), old(self).queue@, price.value(), words@);
                    &&& allocations_view(out@) == os
                    &&& final(self).levels_spec() == lv
                    &&& final(self).queue@.len() == 0
                    &&& !final(self).pending
                    &&& final(self).fee == old(self).fee
                    &&& final(self).version == old(self).version
                },
                Err(_) => false,
            },
    {
        let seed = seed_from_words(words);
        let draws = draw_words(seed, self.queue.len());
        self.settle(price, &draws)
    }
}

} // verus!
