//! The deterministic label stream: ChaCha12 keyed by a 32-byte seed.

use crate::bristol::CircuitError;
use crate::label::{first16, WireLabel};
use rand::{RngCore, SeedableRng};
use rand_chacha::ChaCha12Rng;
use vstd::prelude::*;

verus! {

/// The sixteen bytes of the ChaCha12 key stream for `seed` (stream 0) that start at the 32-bit
/// word with position `word_pos`.
pub uninterp spec fn chacha12_block(seed: Seq<u8>, word_pos: nat) -> Seq<u8>;

/// The 32-bit word with position `word_pos` of the ChaCha12 key stream for `seed` (stream 0).
pub uninterp spec fn chacha12_word(seed: Seq<u8>, word_pos: nat) -> u32;

/// Seeds a `rand_chacha::ChaCha12Rng` with `seed`, moves it to `word_pos` with `set_word_pos`
/// and draws sixteen bytes with `fill_bytes`. Trusted: the bytes depend on the seed and the
/// position alone.
#[verifier::external_body]
fn keystream_block(seed: &[u8; 32], word_pos: u128) -> (block: [u8; 16])
    requires
        word_pos < 0x10_0000_0000_0000_0000,
    ensures
        block@ == chacha12_block(seed@, word_pos as nat),
{
    let mut rng = ChaCha12Rng::from_seed(*seed);
    rng.set_word_pos(word_pos);
    let mut block = [0u8; 16];
    rng.fill_bytes(&mut block);
    block
}

/// Seeds a `rand_chacha::ChaCha12Rng` with `seed`, moves it to `word_pos` with `set_word_pos`
/// and draws one word with `next_u32`. Trusted: the word depends on the seed and the position
/// alone.
#[verifier::external_body]
fn keystream_word(seed: &[u8; 32], word_pos: u128) -> (word: u32)
    requires
        word_pos < 0x10_0000_0000_0000_0000,
    ensures
        word == chacha12_word(seed@, word_pos as nat),
{
    let mut rng = ChaCha12Rng::from_seed(*seed);
    rng.set_word_pos(word_pos);
    rng.next_u32()
}

/// The number of 32-bit words in one period of the stream.
pub open spec fn stream_words() -> nat {
    0x10_0000_0000_0000_0000
}

/// The label that the stream for `seed` gives at the word position `word_pos`: the sixteen
/// bytes of the four words from there.
pub open spec fn label_at(seed: Seq<u8>, word_pos: nat) -> WireLabel {
    WireLabel(first16(chacha12_block(seed, word_pos)))
}

/// The bit that the stream for `seed` gives at the word position `word_pos`: the lowest bit of
/// the word there.
pub open spec fn bit_at(seed: Seq<u8>, word_pos: nat) -> bool {
    chacha12_word(seed, word_pos) & 1 == 1
}

/// A position in the stream of a seed. A label takes four words of the stream, a bit takes one.
pub struct LabelRng {
    seed: [u8; 32],
    position: u128,
}

impl LabelRng {
    /// The seed of the stream.
    pub closed spec fn seed(&self) -> Seq<u8> {
        self.seed@
    }

    /// How many words of the stream were taken so far.
    pub closed spec fn position(&self) -> nat {
        self.position as nat
    }

    /// The start of the stream for `seed`.
    pub fn from_seed(seed: [u8; 32]) -> (rng: LabelRng)
        ensures
            rng.seed() == seed@,
            rng.position() == 0,
    {
        LabelRng { seed, position: 0 }
    }

    /// Whether the stream can give another label before its period ends.
    pub fn has_label(&self) -> (b: bool)
        ensures
            b == (self.position() + 4 <= stream_words()),
    {
        self.position <= 0x10_0000_0000_0000_0000 - 4
    }

    /// Whether the stream can give another bit before its period ends.
    pub fn has_bit(&self) -> (b: bool)
        ensures
            b == (self.position() + 1 <= stream_words()),
    {
        self.position < 0x10_0000_0000_0000_0000
    }

    /// Draws the next label of the stream.
    pub fn next_label(&mut self) -> (label: WireLabel)
        requires
            old(self).position() + 4 <= stream_words(),
        ensures
            label == label_at(old(self).seed(), old(self).position()),
            final(self).seed() == old(self).seed(),
            final(self).position() == old(self).position() + 4,
    {
        let block: [u8; 16] = keystream_block(&self.seed, self.position);
        self.position = self.position + 4;
        assert(block =~= first16(block@));
        WireLabel(block)
    }

    /// Draws the next bit of the stream.
    pub fn next_bit(&mut self) -> (bit: bool)
        requires
            old(self).position() + 1 <= stream_words(),
        ensures
            bit == bit_at(old(self).seed(), old(self).position()),
            final(self).seed() == old(self).seed(),
            final(self).position() == old(self).position() + 1,
    {
        let word: u32 = keystream_word(&self.seed, self.position);
        self.position = self.position + 1;
        word & 1 == 1
    }
}

/// Takes the content of a seed file as a seed: it must hold exactly 32 bytes.
pub fn seed_from_bytes(data: &[u8]) -> (r: Result<[u8; 32], CircuitError>)
    ensures
        data@.len() == 32 ==> r is Ok && r->Ok_0@ == data@,
        data@.len() != 32 ==> r == Err::<[u8; 32], CircuitError>(
            CircuitError::InvalidSeedLength { length: data@.len() as u64 },
        ),
{
    if data.len() != 32 {
        return Err(CircuitError::InvalidSeedLength { length: data.len() as u64 });
    }
    let mut seed: [u8; 32] = [0u8;32];
    let mut i: usize = 0;
    while i < 32
        invariant
            i <= 32,
            data@.len() == 32,
            forall|j: int| 0 <= j < i ==> seed[j] == data@[j],
        decreases 32 - i,
    {
        seed[i] = data[i];
        i += 1;
    }
    assert(seed@ =~= data@);
    Ok(seed)
}

impl WireLabel {
    /// Draws the next label of a stream.
    pub fn random(rng: &mut LabelRng) -> (label: WireLabel)
        requires
            old(rng).position() + 4 <= stream_words(),
        ensures
            label == label_at(old(rng).seed(), old(rng).position()),
            final(rng).seed() == old(rng).seed(),
            final(rng).position() == old(rng).position() + 4,
    {
        rng.next_label()
    }
}

} // verus!
