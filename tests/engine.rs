use rand_chacha::rand_core::{RngCore, SeedableRng};
use rand_chacha::ChaCha8Rng;
use vending_machine::codec::{pack_queue_item, unpack_queue_item, unpack_u8, AMOUNT_LIMIT};
use vending_machine::uint::Uint256;
use vending_machine::errors::{EngineError, ErrorKind};
use vending_machine::randomness::{draw_words, seed_from_words};
use vending_machine::resolve::Allocation;
use vending_machine::storage::{StorageNFTDistributable, StorageVendingMachine};
use vending_machine::valuation::{decimals, get_price, latest_round_data_price, normalize_price, SignedAnswer};
use vending_machine::vrf::{calculate_request_price_native, request_random_words_in_native};

fn u(x: u128) -> Uint256 {
    Uint256::from_u128(x)
}

fn addr(b: u8) -> [u8; 20] {
    let mut a = [0u8; 20];
    a[19] = b;
    a[0] = 0xaa;
    a
}

const LOT_A: [u8; 20] = [0xa1; 20];
const LOT_B: [u8; 20] = [0xb2; 20];
const LOT_C: [u8; 20] = [0xc3; 20];

fn machine(tiers: &[(u128, &[([u8; 20], u32)])]) -> StorageVendingMachine {
    let mut m = StorageVendingMachine::new(1);
    for (i, (min, lots)) in tiers.iter().enumerate() {
        m.add_level(u(*min));
        for (a, c) in lots.iter() {
            m.add_lot(i, *a, *c);
        }
    }
    m
}

fn round_data(answer: &[u8]) -> Vec<u8> {
    let mut d = vec![0u8; 160];
    d[64 - answer.len()..64].copy_from_slice(answer);
    d
}

#[test]
fn pack_layout_is_address_then_big_endian_amount() {
    let a = addr(7);
    let w = pack_queue_item(0x0102_0304, a);
    assert_eq!(&w[0..20], &a[..]);
    assert_eq!(&w[20..28], &[0u8; 8]);
    assert_eq!(&w[28..32], &[1, 2, 3, 4]);
}

#[test]
fn pack_unpack_round_trip() {
    for amount in [0u128, 1, 255, 256, 0xdead_beef, AMOUNT_LIMIT - 1] {
        for a in [[0u8; 20], [0xff; 20], addr(3)] {
            assert_eq!(unpack_queue_item(pack_queue_item(amount, a)), (amount, a));
        }
    }
}

#[test]
fn unpack_u8_reads_last_byte_of_word() {
    let mut w = vec![0u8; 32];
    w[31] = 8;
    assert_eq!(unpack_u8(&w), Some(8));
    assert_eq!(unpack_u8(&w[..31]), None);
    assert_eq!(decimals(&w[..31]), Err(EngineError::UnpackU8));
    assert_eq!(decimals(&w), Ok(8));
}

#[test]
fn round_data_decoding() {
    assert_eq!(latest_round_data_price(&[0u8; 159]), Err(EngineError::RoundUnpack));
    let d = round_data(&[0x27, 0x10]);
    assert_eq!(latest_round_data_price(&d), Ok(SignedAnswer { negative: false, bits: u(10_000) }));
    let mut neg = round_data(&[1]);
    neg[32] = 0x80;
    assert_eq!(
        latest_round_data_price(&neg),
        Ok(SignedAnswer { negative: true, bits: Uint256 { limbs: [1, 0, 0, 1 << 63] } })
    );
    let mut minus_one = vec![0u8; 160];
    for b in minus_one[32..64].iter_mut() {
        *b = 0xff;
    }
    assert_eq!(
        latest_round_data_price(&minus_one),
        Ok(SignedAnswer { negative: true, bits: Uint256 { limbs: [u64::MAX; 4] } })
    );
    let mut dec = vec![0u8; 32];
    dec[31] = 8;
    assert_eq!(get_price(&dec, &neg), Err(EngineError::PriceNegative));
    assert_eq!(get_price(&dec, &minus_one), Err(EngineError::PriceNegative));
    assert_eq!(EngineError::PriceNegative.kind(), ErrorKind::Oracle);
    let mut wide = round_data(&[1]);
    wide[40] = 1;
    assert_eq!(
        latest_round_data_price(&wide),
        Ok(SignedAnswer { negative: false, bits: Uint256 { limbs: [1, 0, 1 << 56, 0] } })
    );
}

#[test]
fn price_normalisation() {
    assert_eq!(normalize_price(8, u(123_456_789)), Ok(u(12_345_678)));
    assert_eq!(normalize_price(18, u(123_456_789)), Ok(u(12_345_678)));
    assert_eq!(normalize_price(6, u(123_456_789)), Ok(u(123_456_789)));
    assert_eq!(normalize_price(4, u(123_456_789)), Ok(u(1_234_567)));
    assert_eq!(normalize_price(0, u(123_456_789)), Ok(u(123)));
    assert_eq!(normalize_price(8, Uint256 { limbs: [0, 0, 0, 10] }), Ok(Uint256 { limbs: [0, 0, 0, 1] }));
    let mut dec = vec![0u8; 32];
    dec[31] = 8;
    let d = round_data(&[0x05, 0xf5, 0xe1, 0x00]);
    assert_eq!(get_price(&dec, &d), Ok(u(10_000_000)));
    assert_eq!(get_price(&dec[..3], &d), Err(EngineError::UnpackU8));
    assert_eq!(get_price(&dec, &d[..10]), Err(EngineError::RoundUnpack));
}

#[test]
fn vrf_answers_decode_full_big_endian_words() {
    let mut w = [0u8; 32];
    w[30] = 0x03;
    w[31] = 0xe8;
    assert_eq!(calculate_request_price_native(&w), Ok(u(1000)));
    let mut id = [0xffu8; 32];
    id[0] = 0x12;
    assert_eq!(
        request_random_words_in_native(&id),
        Ok(Uint256 { limbs: [u64::MAX, u64::MAX, u64::MAX, 0x12ff_ffff_ffff_ffff] })
    );
    assert_eq!(calculate_request_price_native(&[7u8; 17]), Err(EngineError::VrfUnpack));
    assert_eq!(EngineError::VrfUnpack.kind(), ErrorKind::Unpack);
}

#[test]
fn seed_folds_words_from_all_ones() {
    assert_eq!(seed_from_words(&vec![]), [0xff; 32]);
    let mut w = [0u8; 32];
    w[0] = 0x0f;
    let s = seed_from_words(&vec![w]);
    assert_eq!(s[0], 0xf0);
    assert_eq!(s[1], 0xff);
    let mut v = [0u8; 32];
    v[0] = 0x01;
    assert_eq!(seed_from_words(&vec![w, v]), seed_from_words(&vec![v, w]));
    assert_eq!(seed_from_words(&vec![w, v])[0], 0xf1);
}

#[test]
fn draws_follow_the_chacha8_stream() {
    let seed = [9u8; 32];
    let mut rng = ChaCha8Rng::from_seed(seed);
    let expected: Vec<u32> = (0..20).map(|_| rng.next_u32()).collect();
    assert_eq!(draw_words(seed, 20), expected);
    assert_ne!(draw_words([1u8; 32], 4), draw_words([2u8; 32], 4));
}

#[test]
fn lockup_errors_in_order() {
    let mut m = StorageVendingMachine::new(0);
    m.add_level(u(0));
    m.add_lot(0, LOT_A, 1);
    assert_eq!(m.lockup(addr(1), u(100), u(10)), Err(EngineError::NotSetup));
    assert_eq!(EngineError::NotSetup.kind(), ErrorKind::Setup);
    let mut m = machine(&[(0, &[(LOT_A, 1)])]);
    assert_eq!(m.lockup([0u8; 20], u(100), u(10)), Err(EngineError::InvalidRecipient));
    assert_eq!(m.lockup(addr(1), u(0), u(10)), Err(EngineError::NoValue));
    assert_eq!(m.lockup(addr(1), Uint256 { limbs: [0, 0, 0, 1] }, u(0)), Err(EngineError::AmountTooLarge));
    assert_eq!(EngineError::InvalidRecipient.kind(), ErrorKind::Validation);
    let mut empty = machine(&[(0, &[]), (5, &[])]);
    assert_eq!(empty.lockup(addr(1), u(100), u(10)), Err(EngineError::NoNfts));
    assert!(m.queue.is_empty());
    assert!(!m.pending);
}

#[test]
fn lockup_underpaid_leaves_state_unchanged() {
    let mut m = machine(&[(0, &[(LOT_A, 1)])]);
    assert_eq!(m.lockup(addr(1), u(5), u(10)), Err(EngineError::CheckedSub));
    assert_eq!(EngineError::CheckedSub.kind(), ErrorKind::Arithmetic);
    assert!(!m.pending);
    assert_eq!(m.fee, u(0));
    assert!(m.queue.is_empty());
    assert_eq!(m.lockup(addr(1), u(100), u(10)), Ok(0));
    assert_eq!(m.lockup(addr(2), u(9), u(0)), Err(EngineError::CheckedSub));
    assert_eq!(m.queue.len(), 1);
    assert_eq!(m.fee, u(10));
}

#[test]
fn tickets_are_sequential_and_fee_is_locked() {
    let mut m = machine(&[(0, &[(LOT_A, 5)])]);
    assert!(m.opens_round());
    assert_eq!(m.lockup(addr(1), u(100), u(10)), Ok(0));
    assert!(!m.opens_round());
    assert_eq!(m.lockup(addr(2), u(200), u(99)), Ok(1));
    assert_eq!(m.lockup(addr(3), u(300), u(1)), Ok(2));
    assert_eq!(m.fee, u(10));
    let nets: Vec<(u128, [u8; 20])> = m.queue.iter().map(|w| unpack_queue_item(*w)).collect();
    assert_eq!(nets, vec![(90, addr(1)), (190, addr(2)), (290, addr(3))]);
}

#[test]
fn empty_top_tier_falls_through() {
    let mut m = machine(&[(100, &[(LOT_A, 1)]), (500, &[])]);
    m.lockup(addr(1), u(16), u(10)).unwrap();
    let out = m.settle(u(100), &vec![12345]).unwrap();
    assert_eq!(out, vec![Allocation::Award { recipient: addr(1), level: 0, contract: LOT_A, unit: 1 }]);
    assert!(m.levels[0].lots.is_empty());
    assert!(m.queue.is_empty());
    assert!(!m.pending);
}

#[test]
fn below_every_minimum_refunds() {
    let mut m = machine(&[(100, &[(LOT_A, 1)]), (500, &[(LOT_B, 1)])]);
    m.lockup(addr(1), u(15), u(10)).unwrap();
    let out = m.settle(u(10), &vec![0]).unwrap();
    assert_eq!(out, vec![Allocation::Refund { recipient: addr(1), amount: 5 }]);
    assert_eq!(m.levels[0].lots.len(), 1);
    assert_eq!(m.levels[1].lots.len(), 1);
}

#[test]
fn minimum_is_inclusive_and_highest_tier_wins() {
    let mut m = machine(&[(100, &[(LOT_A, 3)]), (500, &[(LOT_B, 3)])]);
    m.lockup(addr(1), u(60), u(10)).unwrap();
    m.lockup(addr(2), u(20), u(10)).unwrap();
    let out = m.settle(u(10), &vec![0, 0]).unwrap();
    assert_eq!(
        out,
        vec![
            Allocation::Award { recipient: addr(1), level: 1, contract: LOT_B, unit: 3 },
            Allocation::Award { recipient: addr(2), level: 0, contract: LOT_A, unit: 3 },
        ]
    );
    assert_eq!(m.levels[1].lots[0], StorageNFTDistributable { address: LOT_B, remaining: 2 });
}

#[test]
fn exhausted_lot_is_swapped_out_and_not_drawn_again() {
    let mut m = machine(&[(0, &[(LOT_A, 1), (LOT_B, 2), (LOT_C, 1)])]);
    for i in 1..=5u8 {
        m.lockup(addr(i), u(11), u(10)).unwrap();
    }
    let out = m.settle(u(1), &vec![0, 0, 1, 0, 0]).unwrap();
    assert_eq!(
        out,
        vec![
            Allocation::Award { recipient: addr(1), level: 0, contract: LOT_A, unit: 1 },
            Allocation::Award { recipient: addr(2), level: 0, contract: LOT_C, unit: 1 },
            Allocation::Award { recipient: addr(3), level: 0, contract: LOT_B, unit: 2 },
            Allocation::Award { recipient: addr(4), level: 0, contract: LOT_B, unit: 1 },
            Allocation::Refund { recipient: addr(5), amount: 1 },
        ]
    );
    assert!(m.levels[0].lots.is_empty());
}

#[test]
fn draw_picks_index_modulo_pool_length() {
    let mut m = machine(&[(0, &[(LOT_A, 1), (LOT_B, 1), (LOT_C, 1)])]);
    m.lockup(addr(1), u(11), u(10)).unwrap();
    let out = m.settle(u(1), &vec![7]).unwrap();
    assert_eq!(out, vec![Allocation::Award { recipient: addr(1), level: 0, contract: LOT_B, unit: 1 }]);
    assert_eq!(m.levels[0].lots, vec![
        StorageNFTDistributable { address: LOT_A, remaining: 1 },
        StorageNFTDistributable { address: LOT_C, remaining: 1 },
    ]);
}

#[test]
fn value_overflow_aborts_without_change() {
    let mut m = machine(&[(0, &[(LOT_A, 1)])]);
    m.lockup(addr(1), u(20), u(10)).unwrap();
    m.lockup(addr(2), u(1 << 90), u(10)).unwrap();
    let price = Uint256 { limbs: [0, 0, 0, 1 << 40] };
    let r = m.raw_fulfill_random_words(u(0), &vec![[1u8; 32]], price);
    assert_eq!(r, Err(EngineError::CheckedMul));
    assert_eq!(m.queue.len(), 2);
    assert!(m.pending);
    assert_eq!(m.levels[0].lots.len(), 1);
}

#[test]
fn fulfil_is_deterministic_in_seed_and_snapshot() {
    let build = || {
        let mut m = machine(&[(0, &[(LOT_A, 2), (LOT_B, 2), (LOT_C, 2)]), (1000, &[(LOT_A, 1)])]);
        for i in 1..=6u8 {
            m.lockup(addr(i), u(10 + 60 * i as u128), u(10)).unwrap();
        }
        m
    };
    let mut w1 = [0u8; 32];
    w1[3] = 0x5a;
    let mut w2 = [0u8; 32];
    w2[9] = 0x33;
    let mut a = build();
    let mut b = build();
    let ra = a.raw_fulfill_random_words(u(1), &vec![w1, w2], u(5)).unwrap();
    let rb = b.raw_fulfill_random_words(u(2), &vec![w2, w1], u(5)).unwrap();
    assert_eq!(ra, rb);
    assert_eq!(ra.len(), 6);
    assert_eq!(a.levels[0].lots, b.levels[0].lots);
    let seed = seed_from_words(&vec![w1, w2]);
    let mut c = build();
    let rc = c.settle(u(5), &draw_words(seed, 6)).unwrap();
    assert_eq!(ra, rc);
    assert!(a.queue.is_empty() && !a.pending);
}

#[test]
fn precheck_reports_first_failing_check() {
    let m = machine(&[(0, &[(LOT_A, 1)])]);
    assert_eq!(m.lockup_precheck(&addr(1), &u(1)), Ok(()));
    assert_eq!(m.lockup_precheck(&[0u8; 20], &u(0)), Err(EngineError::InvalidRecipient));
    assert_eq!(m.lockup_precheck(&addr(1), &u(0)), Err(EngineError::NoValue));
    let n = StorageVendingMachine::new(0);
    assert_eq!(n.lockup_precheck(&[0u8; 20], &u(0)), Err(EngineError::NotSetup));
    assert_eq!(n.lockup_precheck(&addr(1), &u(1)), Err(EngineError::NotSetup));
}

#[test]
fn product_above_128_bits_still_resolves() {
    let mut m = machine(&[(0, &[(LOT_A, 1)])]);
    m.lockup(addr(1), u(1 << 90), u(0)).unwrap();
    let price = Uint256 { limbs: [0, 0, 1, 0] };
    let out = m.settle(price, &vec![0]).unwrap();
    assert_eq!(out, vec![Allocation::Award { recipient: addr(1), level: 0, contract: LOT_A, unit: 1 }]);
}

#[test]
fn tier_minimum_above_128_bits() {
    let mut m = StorageVendingMachine::new(1);
    m.add_level(u(0));
    m.add_lot(0, LOT_A, 1);
    m.add_level(Uint256 { limbs: [0, 0, 0, 1] });
    m.add_lot(1, LOT_B, 1);
    m.lockup(addr(1), u(11), u(10)).unwrap();
    m.lockup(addr(2), u(11), u(10)).unwrap();
    let out = m.settle(Uint256 { limbs: [0, 0, 0, 1] }, &vec![0, 0]).unwrap();
    assert_eq!(
        out,
        vec![
            Allocation::Award { recipient: addr(1), level: 1, contract: LOT_B, unit: 1 },
            Allocation::Award { recipient: addr(2), level: 0, contract: LOT_A, unit: 1 },
        ]
    );
}

#[test]
fn error_codes_are_distinct() {
    let all = [
        EngineError::NotSetup,
        EngineError::InvalidRecipient,
        EngineError::NoValue,
        EngineError::NoNfts,
        EngineError::CheckedSub,
        EngineError::CheckedMul,
        EngineError::CheckedDiv,
        EngineError::AmountTooLarge,
        EngineError::PriceNegative,
        EngineError::UnpackU8,
        EngineError::RoundUnpack,
        EngineError::VrfUnpack,
        EngineError::ChainlinkDecimals,
        EngineError::ChainlinkRound,
        EngineError::ChainlinkVrf,
        EngineError::NftTransfer,
        EngineError::RefundTransfer,
    ];
    let codes: Vec<u8> = all.iter().map(|e| e.code()).collect();
    assert_eq!(codes, (1..=17).collect::<Vec<u8>>());
}
