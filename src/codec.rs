//! Byte-level encodings: the packed queue word and decoding of returned data.
use vstd::prelude::*;

verus! {

/// Number of bytes of an address in a packed word.
pub const ADDRESS_BYTES: usize = 20;

/// Number of bytes of the amount in a packed word.
pub const AMOUNT_BYTES: usize = 12;

/// Exclusive upper bound of an amount that fits a packed word (2^96).
pub const AMOUNT_LIMIT: u128 = 0x1_0000_0000_0000_0000_0000_0000;

/// Big-endian value of a byte sequence.
pub open spec fn be_value(s: Seq<u8>) -> nat
    decreases s.len(),
{
    if s.len() == 0 {
        0
    } else {
        be_value(s.drop_last()) * 256 + s.last() as nat
    }
}

/// `256^k`.
pub open spec fn pow256(k: nat) -> nat
    decreases k,
{
    if k == 0 {
        1
    } else {
        256 * pow256((k - 1) as nat)
    }
}

/// The `k` low-order bytes of `n`, most significant first.
pub open spec fn be_bytes(n: nat, k: nat) -> Seq<u8>
    decreases k,
{
    if k == 0 {
        Seq::empty()
    } else {
        be_bytes(n / 256, (k - 1) as nat).push((n % 256) as u8)
    }
}

/// The packed word of a deposit: the address in the high 20 bytes, the
/// amount big-endian in the low 12 bytes.
pub open spec fn pack_spec(amount: nat, address: Seq<u8>) -> Seq<u8> {
    address + be_bytes(amount, AMOUNT_BYTES as nat)
}

/// The amount held by a packed word.
pub open spec fn word_amount(w: Seq<u8>) -> nat {
    be_value(w.subrange(ADDRESS_BYTES as int, 32))
}

/// The address held by a packed word.
pub open spec fn word_address(w: Seq<u8>) -> Seq<u8> {
    w.subrange(0, ADDRESS_BYTES as int)
}

pub proof fn lemma_be_bytes_len(n: nat, k: nat)
    ensures
        be_bytes(n, k).len() == k,
    decreases k,
{
    if k > 0 {
        lemma_be_bytes_len(n / 256, (k - 1) as nat);
    }
}

/// Reading back the `k` bytes of a number below `256^k` gives the number.
pub proof fn lemma_be_value_of_bytes(n: nat, k: nat)
    requires
        n < pow256(k),
    ensures
        be_value(be_bytes(n, k)) == n,
    decreases k,
{
    if k > 0 {
        let m = pow256((k - 1) as nat);
        assert(n / 256 < m) by (nonlinear_arith)
            requires
                n < 256 * m,
        ;
        lemma_be_value_of_bytes(n / 256, (k - 1) as nat);
        let s = be_bytes(n / 256, (k - 1) as nat);
        assert(s.push((n % 256) as u8).drop_last() =~= s);
        assert((n / 256) * 256 + n % 256 == n) by {
            vstd::arithmetic::div_mod::lemma_fundamental_div_mod(n as int, 256);
        }
    }
}

/// Unpacking a packed word gives back the amount and the address, for every
/// amount below 2^96 and every 20-byte address.
pub proof fn lemma_pack_round_trip(amount: nat, address: Seq<u8>)
    requires
        amount < AMOUNT_LIMIT,
        address.len() == ADDRESS_BYTES,
    ensures
        pack_spec(amount, address).len() == 32,
        word_amount(pack_spec(amount, address)) == amount,
        word_address(pack_spec(amount, address)) == address,
{
    lemma_be_bytes_len(amount, 12);
    let w = pack_spec(amount, address);
    assert(w.subrange(0, 20) =~= address);
    assert(w.subrange(20, 32) =~= be_bytes(amount, 12));
    reveal_with_fuel(pow256, 13);
    assert(pow256(12) == AMOUNT_LIMIT);
    lemma_be_value_of_bytes(amount, 12);
}

/// Packs a deposit into one 256-bit word, big-endian: the address in the
/// high 20 bytes, the amount in the low 12.
pub fn pack_queue_item(amount: u128, address: [u8; 20]) -> (r: [u8; 32])
    requires
        amount < AMOUNT_LIMIT,
    ensures
        r@ == pack_spec(amount as nat, address@),
{
    let mut w: [u8; 32] = [0u8; 32];
    let mut i: usize = 0;
    while i < ADDRESS_BYTES
        invariant
            i <= ADDRESS_BYTES,
            forall|j: int| 0 <= j < i ==> w@[j] == address@[j],
        decreases ADDRESS_BYTES - i,
    {
        w[i] = address[i];
        i = i + 1;
    }
    let mut rem: u128 = amount;
    let mut k: usize = 0;
    while k < AMOUNT_BYTES
        invariant
            k <= AMOUNT_BYTES,
            forall|j: int| 0 <= j < ADDRESS_BYTES ==> w@[j] == address@[j],
            be_bytes(amount as nat, AMOUNT_BYTES as nat) == be_bytes(rem as nat, (AMOUNT_BYTES - k) as nat)
                + w@.subrange(32 - k, 32),
        decreases AMOUNT_BYTES - k,
    {
        let ghost before = w@.subrange(32 - k, 32);
        let ghost rest = be_bytes(rem as nat / 256, (AMOUNT_BYTES - k - 1) as nat);
        w[31 - k] = (rem % 256) as u8;
        assert(w@.subrange(32 - (k + 1), 32) =~= seq![(rem % 256) as u8] + before);
        assert(rest.push((rem % 256) as u8) + before =~= rest + (seq![(rem % 256) as u8] + before));
        rem = rem / 256;
        k = k + 1;
    }
    proof {
        lemma_be_bytes_len(amount as nat, 12);
        assert(w@ =~= pack_spec(amount as nat, address@));
    }
    w
}

/// Splits a packed word into its amount and its address.
pub fn unpack_queue_item(w: [u8; 32]) -> (r: (u128, [u8; 20]))
    ensures
        r.0 == word_amount(w@),
        r.1@ == word_address(w@),
{
    let mut address: [u8; 20] = [0u8; 20];
    let mut i: usize = 0;
    while i < ADDRESS_BYTES
        invariant
            i <= ADDRESS_BYTES,
            forall|j: int| 0 <= j < i ==> address@[j] == w@[j],
        decreases ADDRESS_BYTES - i,
    {
        address[i] = w[i];
        i = i + 1;
    }
    let mut amount: u128 = 0;
    let mut k: usize = ADDRESS_BYTES;
    while k < 32
        invariant
            ADDRESS_BYTES <= k <= 32,
            amount == be_value(w@.subrange(ADDRESS_BYTES as int, k as int)),
            amount < pow256((k - ADDRESS_BYTES) as nat),
            pow256((k - ADDRESS_BYTES) as nat) <= AMOUNT_LIMIT,
        decreases 32 - k,
    {
        let ghost m = pow256((k - ADDRESS_BYTES) as nat);
        assert(w@.subrange(ADDRESS_BYTES as int, k + 1).drop_last() =~= w@.subrange(ADDRESS_BYTES as int, k as int));
        proof {
            lemma_pow256_bound((k + 1 - ADDRESS_BYTES) as nat);
        }
        assert(amount * 256 + w@[k as int] < 256 * m) by (nonlinear_arith)
            requires
                amount < m,
                w@[k as int] < 256,
        ;
        amount = amount * 256 + w[k] as u128;
        k = k + 1;
    }
    proof {
        assert(address@ =~= word_address(w@));
    }
    (amount, address)
}

/// `256^k` stays within the packed amount's range for `k <= 12`.
proof fn lemma_pow256_bound(k: nat)
    requires
        k <= AMOUNT_BYTES,
    ensures
        pow256(k) <= AMOUNT_LIMIT,
{
    reveal_with_fuel(pow256, 13);
}

/// Decodes an ABI `uint8` return word: 32 bytes, the value in the last.
pub fn unpack_u8(data: &[u8]) -> (r: Option<u8>)
    ensures
        r == (if data@.len() == 32 { Some(data@[31]) } else { None::<u8> }),
{
    if data.len() != 32 {
        None
    } else {
        Some(data[31])
    }
}

/// The 32 bytes of `data` from `start` on.
pub fn word_at(data: &[u8], start: usize) -> (r: [u8; 32])
    requires
        start + 32 <= data@.len(),
    ensures
        r@ == data@.subrange(start as int, start + 32),
{
    let n = data.len();
    let mut w: [u8; 32] = [0u8; 32];
    let mut i: usize = 0;
    while i < 32
        invariant
            i <= 32,
            n == data@.len(),
            start + 32 <= data@.len(),
            forall|j: int| 0 <= j < i ==> w@[j] == data@[start + j],
        decreases 32 - i,
    {
        w[i] = data[start + i];
        i = i + 1;
    }
    assert(w@ =~= data@.subrange(start as int, start + 32));
    w
}

} // verus!