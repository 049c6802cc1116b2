//! Wire liveness: remaining-use counters decide when a wire's value is dropped.
//!
//! A wire whose counter stands at 255 is permanent: it is never counted down and never dropped.

use std::collections::HashMap;
use vstd::prelude::*;

verus! {

broadcast use vstd::std_specs::hash::group_hash_axioms;

/// The counters and the live values after one read of wire `w`: a counter between 1 and 254 goes
/// down by one, and the wire's value is dropped when its counter reaches zero. A counter of 0 or
/// 255, and a wire without a counter, change nothing.
pub open spec fn release<V>(usage: Seq<u8>, active: Map<u32, V>, w: u32) -> (Seq<u8>, Map<u32, V>) {
    if w < usage.len() && usage[w as int] > 0 {
        let left: u8 = if usage[w as int] < 255 {
            (usage[w as int] - 1) as u8
        } else {
            255u8
        };
        (
            usage.update(w as int, left),
            if left == 0 {
                active.remove(w)
            } else {
                active
            },
        )
    } else {
        (usage, active)
    }
}

/// The counters and the live values after a gate has read `a` and then `b`.
pub open spec fn release_pair<V>(usage: Seq<u8>, active: Map<u32, V>, a: u32, b: u32) -> (
    Seq<u8>,
    Map<u32, V>,
) {
    let (u1, m1) = release(usage, active, a);
    release(u1, m1, b)
}

/// Counts one read of wire `w` and drops its value if that was the last one.
pub fn release_wire<V>(usage: &mut Vec<u8>, active: &mut HashMap<u32, V>, w: u32)
    requires
        w < old(usage)@.len(),
    ensures
        (final(usage)@, final(active)@) == release(old(usage)@, old(active)@, w),
{
    let i: usize = w as usize;
    let left: u8 = usage[i];
    if left > 0 {
        let next: u8 = if left < 255 {
            left - 1
        } else {
            255
        };
        usage[i] = next;
        if next == 0 {
            active.remove(&w);
        }
    }
}

/// A read never brings a wire into the live set, and a wire that a read has counted down to
/// zero is not live afterwards.
pub proof fn lemma_release_drops<V>(usage: Seq<u8>, active: Map<u32, V>, w: u32)
    ensures
        release(usage, active, w).1.dom().subset_of(active.dom()),
        release(usage, active, w).0.len() == usage.len(),
        w < usage.len() && usage[w as int] > 0 && release(usage, active, w).0[w as int] == 0
            ==> !release(usage, active, w).1.contains_key(w),
{
}

} // verus!
