//! 128-bit wire labels and their XOR algebra.

use vstd::prelude::*;

verus! {

/// A 128-bit wire label.
#[derive(Debug, Clone, Copy, PartialEq, Eq)]
pub struct WireLabel(pub [u8; 16]);

/// Bytewise XOR of two 16-byte blocks.
pub open spec fn xor16(a: [u8; 16], b: [u8; 16]) -> [u8; 16] {
    [
        a[0] ^ b[0],
        a[1] ^ b[1],
        a[2] ^ b[2],
        a[3] ^ b[3],
        a[4] ^ b[4],
        a[5] ^ b[5],
        a[6] ^ b[6],
        a[7] ^ b[7],
        a[8] ^ b[8],
        a[9] ^ b[9],
        a[10] ^ b[10],
        a[11] ^ b[11],
        a[12] ^ b[12],
        a[13] ^ b[13],
        a[14] ^ b[14],
        a[15] ^ b[15],
    ]
}

/// The 16-byte block that holds the first sixteen elements of `s`.
pub open spec fn first16(s: Seq<u8>) -> [u8; 16] {
    [
        s[0],
        s[1],
        s[2],
        s[3],
        s[4],
        s[5],
        s[6],
        s[7],
        s[8],
        s[9],
        s[10],
        s[11],
        s[12],
        s[13],
        s[14],
        s[15],
    ]
}

/// The block made of the first sixteen elements of a sequence holds those elements.
pub proof fn lemma_first16(s: Seq<u8>)
    requires
        s.len() >= 16,
    ensures
        first16(s)@ == s.subrange(0, 16),
{
    let b = first16(s);
    assert(b[0] == s[0] && b[1] == s[1] && b[2] == s[2] && b[3] == s[3]);
    assert(b[4] == s[4] && b[5] == s[5] && b[6] == s[6] && b[7] == s[7]);
    assert(b[8] == s[8] && b[9] == s[9] && b[10] == s[10] && b[11] == s[11]);
    assert(b[12] == s[12] && b[13] == s[13] && b[14] == s[14] && b[15] == s[15]);
    assert(b@ =~= s.subrange(0, 16));
}

/// The block of sixteen zero bytes.
pub open spec fn zero16() -> [u8; 16] {
    [0u8, 0u8, 0u8, 0u8, 0u8, 0u8, 0u8, 0u8, 0u8, 0u8, 0u8, 0u8, 0u8, 0u8, 0u8, 0u8]
}

/// Facts about XOR on single bytes.
pub proof fn lemma_xor_u8(a: u8, b: u8, c: u8)
    ensures
        a ^ b == b ^ a,
        (a ^ b) ^ c == a ^ (b ^ c),
        (a ^ b) ^ b == a,
        a ^ (a ^ b) == b,
        a ^ a == 0u8,
        a ^ 0u8 == a,
{
    assert(a ^ (a ^ b) == b) by (bit_vector);
    assert(a ^ b == b ^ a) by (bit_vector);
    assert((a ^ b) ^ c == a ^ (b ^ c)) by (bit_vector);
    assert((a ^ b) ^ b == a) by (bit_vector);
    assert(a ^ a == 0u8) by (bit_vector);
    assert(a ^ 0u8 == a) by (bit_vector);
}

/// XOR on blocks is commutative.
pub proof fn lemma_xor16_commutes(a: [u8; 16], b: [u8; 16])
    ensures
        xor16(a, b) == xor16(b, a),
{
    assert forall|i: int| 0 <= i < 16 implies xor16(a, b)[i] == xor16(b, a)[i] by {
        lemma_xor_u8(a[i], b[i], 0);
    }
    assert(xor16(a, b) =~= xor16(b, a));
}

/// XOR on blocks is associative.
pub proof fn lemma_xor16_associates(a: [u8; 16], b: [u8; 16], c: [u8; 16])
    ensures
        xor16(xor16(a, b), c) == xor16(a, xor16(b, c)),
{
    assert forall|i: int| 0 <= i < 16 implies xor16(xor16(a, b), c)[i] == xor16(
        a,
        xor16(b, c),
    )[i] by {
        lemma_xor_u8(a[i], b[i], c[i]);
    }
    assert(xor16(xor16(a, b), c) =~= xor16(a, xor16(b, c)));
}

/// XOR with the same block twice gives the first block back.
pub proof fn lemma_xor16_cancels(a: [u8; 16], b: [u8; 16])
    ensures
        xor16(xor16(a, b), b) == a,
        xor16(b, xor16(b, a)) == a,
{
    assert forall|i: int| 0 <= i < 16 implies xor16(xor16(a, b), b)[i] == a[i] && xor16(
        b,
        xor16(b, a),
    )[i] == a[i] by {
        lemma_xor_u8(a[i], b[i], 0);
        lemma_xor_u8(b[i], a[i], 0);
        lemma_xor_u8(b[i], b[i], a[i]);
    }
    assert(xor16(xor16(a, b), b) =~= a);
    assert(xor16(b, xor16(b, a)) =~= a);
}

/// XOR with the zero block changes nothing; a block XOR itself is the zero block.
pub proof fn lemma_xor16_zero(a: [u8; 16])
    ensures
        xor16(a, zero16()) == a,
        xor16(a, a) == zero16(),
{
    assert forall|i: int| 0 <= i < 16 implies xor16(a, zero16())[i] == a[i] && xor16(a, a)[i]
        == 0u8 by {
        lemma_xor_u8(a[i], 0, 0);
    }
    assert(xor16(a, zero16()) =~= a);
    assert(xor16(a, a) =~= zero16());
}

/// Computes the bytewise XOR of two 16-byte blocks.
pub fn xor_blocks(a: &[u8; 16], b: &[u8; 16]) -> (out: [u8; 16])
    ensures
        out == xor16(*a, *b),
{
    let mut out: [u8; 16] = [0u8;16];
    let mut i: usize = 0;
    while i < 16
        invariant
            i <= 16,
            forall|j: int| 0 <= j < i ==> out[j] == a[j] ^ b[j],
        decreases 16 - i,
    {
        out[i] = a[i] ^ b[i];
        i += 1;
    }
    assert(out =~= xor16(*a, *b));
    out
}

impl View for WireLabel {
    type V = Seq<u8>;

    /// The label's sixteen bytes.
    open spec fn view(&self) -> Seq<u8> {
        self.0@
    }
}

impl WireLabel {
    /// The bytewise XOR of two labels.
    pub open spec fn spec_xor(self, other: WireLabel) -> WireLabel {
        WireLabel(xor16(self.0, other.0))
    }

    /// This label if `bit` is false, and this label XOR `delta` if it is true: the label that
    /// stands for `bit` on a wire whose label for false is this one.
    pub open spec fn offset_by(self, bit: bool, delta: WireLabel) -> WireLabel {
        if bit {
            self.spec_xor(delta)
        } else {
            self
        }
    }

    /// Wraps sixteen bytes as a label.
    pub fn new(bytes: [u8; 16]) -> (label: WireLabel)
        ensures
            label == WireLabel(bytes),
    {
        WireLabel(bytes)
    }

    /// The bytewise XOR of two labels.
    pub fn xor(&self, other: &WireLabel) -> (result: WireLabel)
        ensures
            result == self.spec_xor(*other),
    {
        WireLabel(xor_blocks(&self.0, &other.0))
    }

    /// The label's sixteen bytes.
    pub fn as_bytes(&self) -> (bytes: &[u8; 16])
        ensures
            *bytes == self.0,
    {
        &self.0
    }
}

/// XOR on labels is commutative and associative, and XOR with the same label twice cancels.
pub proof fn lemma_label_xor(a: WireLabel, b: WireLabel, c: WireLabel)
    ensures
        a.spec_xor(b) == b.spec_xor(a),
        a.spec_xor(b).spec_xor(c) == a.spec_xor(b.spec_xor(c)),
        a.spec_xor(b).spec_xor(b) == a,
{
    lemma_xor16_commutes(a.0, b.0);
    lemma_xor16_associates(a.0, b.0, c.0);
    lemma_xor16_cancels(a.0, b.0);
}

} // verus!
