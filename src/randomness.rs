//! Randomness consumer: folds delivered words into a seed and draws the
//! round's stream of 32-bit words from it.
use vstd::prelude::*;
use rand_chacha::rand_core::{RngCore, SeedableRng};
use rand_chacha::ChaCha8Rng;

verus! {

/// Byte `j` of the seed folded from `words`: all ones, XOR-ed with byte `j`
/// of every word.
pub open spec fn fold_byte(words: Seq<[u8; 32]>, j: int) -> u8
    decreases words.len(),
{
    if words.len() == 0 {
        0xffu8
    } else {
        fold_byte(words.drop_last(), j) ^ words.last()@[j]
    }
}

/// The seed folded from `words`.
pub open spec fn seed_spec(words: Seq<[u8; 32]>) -> Seq<u8> {
    Seq::new(32, |j: int| fold_byte(words, j))
}

/// XOR-folds the delivered random words (each as its 32 little-endian bytes)
/// into one 32-byte seed, starting from all ones.
pub fn seed_from_words(words: &Vec<[u8; 32]>) -> (r: [u8; 32])
    ensures
        r@ == seed_spec(words@),
{
    let mut seed: [u8; 32] = [0xffu8; 32];
    let mut i: usize = 0;
    while i < words.len()
        invariant
            i <= words@.len(),
            forall|j: int| 0 <= j < 32 ==> seed@[j] == fold_byte(words@.subrange(0, i as int), j),
        decreases words@.len() - i,
    {
        let w = words[i];
        let mut j: usize = 0;
        while j < 32
            invariant
                i < words@.len(),
                w == words@[i as int],
                j <= 32,
                forall|m: int| 0 <= m < j ==> seed@[m] == fold_byte(words@.subrange(0, i + 1), m),
                forall|m: int| j <= m < 32 ==> seed@[m] == fold_byte(words@.subrange(0, i as int), m),
            decreases 32 - j,
        {
            assert(words@.subrange(0, i + 1).drop_last() =~= words@.subrange(0, i as int));
            seed[j] = seed[j] ^ w[j];
            j = j + 1;
        }
        i = i + 1;
    }
    assert(words@.subrange(0, words@.len() as int) =~= words@);
    assert(seed@ =~= seed_spec(words@));
    seed
}

/// The 32-bit word at offset `index` of the ChaCha8 stream seeded with `seed`.
pub uninterp spec fn chacha8_word(seed: Seq<u8>, index: nat) -> u32;

/// The first `n` words of the stream seeded with `seed`.
pub open spec fn draws_spec(seed: Seq<u8>, n: nat) -> Seq<u32> {
    Seq::new(n, |k: int| chacha8_word(seed, k as nat))
}

/// Relies on rand_chacha's `ChaCha8Rng`: `from_seed` starts the stream of the
/// seed at offset zero, `set_word_pos` moves to a word offset, and `next_u32`
/// returns the word found there. The result depends on `seed` and `index`
/// alone.
#[verifier::external_body]
fn chacha8_word_at(seed: [u8; 32], index: usize) -> (r: u32)
    ensures
        r == chacha8_word(seed@, index as nat),
{
    let mut rng = ChaCha8Rng::from_seed(seed);
    rng.set_word_pos(index as u128);
    rng.next_u32()
}

/// The first `n` words drawn, in order, from the generator seeded with `seed`.
pub fn draw_words(seed: [u8; 32], n: usize) -> (r: Vec<u32>)
    ensures
        r@ == draws_spec(seed@, n as nat),
{
    let mut r: Vec<u32> = Vec::new();
    let mut k: usize = 0;
    while k < n
        invariant
            k <= n,
            r@ == draws_spec(seed@, k as nat),
        decreases n - k,
    {
        let x = chacha8_word_at(seed, k);
        r.push(x);
        assert(r@ =~= draws_spec(seed@, (k + 1) as nat));
        k = k + 1;
    }
    r
}

} // verus!
