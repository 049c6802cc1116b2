//! The garbling PRF: the first sixteen bytes of SHA-256 over the labels' bytes.

use crate::label::{first16, WireLabel};
use sha2::{Digest, Sha256};
use vstd::prelude::*;

verus! {

/// The SHA-256 digest of a byte string.
pub uninterp spec fn sha256(data: Seq<u8>) -> Seq<u8>;

/// Calls `sha2::Sha256::digest` on `data`. Trusted: the 32 bytes that come back are taken to be
/// the SHA-256 digest of `data`, which depends on `data` alone.
#[verifier::external_body]
fn sha256_digest(data: &[u8]) -> (digest: [u8; 32])
    ensures
        digest@ == sha256(data@),
{
    let hash = Sha256::digest(data);
    let mut digest = [0u8; 32];
    digest.copy_from_slice(&hash);
    digest
}

/// The bytes of the labels, one label after the other.
pub open spec fn label_bytes(labels: Seq<WireLabel>) -> Seq<u8>
    decreases labels.len(),
{
    if labels.len() == 0 {
        Seq::empty()
    } else {
        label_bytes(labels.drop_last()) + labels.last()@
    }
}

/// The garbling PRF of a sequence of labels.
pub open spec fn prf(labels: Seq<WireLabel>) -> [u8; 16] {
    first16(sha256(label_bytes(labels)))
}

/// The garbling PRF of a pair of labels.
pub open spec fn prf2(a: WireLabel, b: WireLabel) -> [u8; 16] {
    prf(seq![a, b])
}

/// Hashes a sequence of labels to a 16-byte key: the first sixteen bytes of the SHA-256 digest
/// of the labels' bytes, taken in order.
pub fn garbling_hash(input_labels: &[WireLabel]) -> (key: [u8; 16])
    ensures
        key == prf(input_labels@),
{
    let mut data: Vec<u8> = Vec::new();
    let mut i: usize = 0;
    while i < input_labels.len()
        invariant
            i <= input_labels@.len(),
            data@ == label_bytes(input_labels@.take(i as int)),
        decreases input_labels@.len() - i,
    {
        let label: &WireLabel = &input_labels[i];
        let ghost before = data@;
        let mut j: usize = 0;
        while j < 16
            invariant
                j <= 16,
                i < input_labels@.len(),
                *label == input_labels@[i as int],
                data@ == before + label@.take(j as int),
            decreases 16 - j,
        {
            data.push(label.0[j]);
            proof {
                assert(label@.take(j as int).push(label@[j as int]) == label@.take(j + 1));
            }
            j += 1;
        }
        proof {
            assert(label@.take(16) == label@);
            assert(input_labels@.take(i + 1).drop_last() == input_labels@.take(i as int));
        }
        i += 1;
    }
    proof {
        assert(input_labels@.take(i as int) == input_labels@);
    }
    let digest: [u8; 32] = sha256_digest(data.as_slice());
    let mut key: [u8; 16] = [0u8;16];
    let mut k: usize = 0;
    while k < 16
        invariant
            k <= 16,
            forall|j: int| 0 <= j < k ==> key[j] == digest[j],
        decreases 16 - k,
    {
        key[k] = digest[k];
        k += 1;
    }
    assert(key =~= first16(digest@));
    key
}

} // verus!
