//! Wire ids of a map, in ascending order.

use crate::wire_analyzer::strictly_ascending;
use std::collections::HashMap;
use vstd::prelude::*;
use vstd::std_specs::iter::IteratorSpec;

verus! {

broadcast use vstd::std_specs::hash::group_hash_axioms;

/// The keys of a map, in the order in which the map hands them out.
fn unordered_keys<V>(m: &HashMap<u32, V>) -> (keys: Vec<u32>)
    ensures
        keys@.no_duplicates(),
        keys@.to_set() == m@.dom(),
{
    let mut keys: Vec<u32> = Vec::new();
    let it = m.keys();
    let ghost all = it.remaining();
    assert(all.unref().to_set() == m@.dom());
    for k in iter: it
        invariant
            iter.seq() == all,
            keys@.len() == iter.index(),
            forall|j: int| 0 <= j < keys@.len() ==> keys@[j] == *iter.seq()[j],
    {
        keys.push(*k);
    }
    assert(keys@ =~= all.unref());
    keys
}

/// Whether `s` lists exactly the keys of `m`, in ascending order.
pub open spec fn lists_keys<V>(s: Seq<u32>, m: Map<u32, V>) -> bool {
    &&& strictly_ascending(s)
    &&& forall|w: u32| s.contains(w) <==> m.contains_key(w)
}

/// Merges two ascending lists that share no element into one ascending list.
fn merge(a: &Vec<u32>, b: &Vec<u32>) -> (out: Vec<u32>)
    requires
        strictly_ascending(a@),
        strictly_ascending(b@),
        forall|w: u32| !(a@.contains(w) && b@.contains(w)),
    ensures
        strictly_ascending(out@),
        forall|w: u32| out@.contains(w) <==> (a@.contains(w) || b@.contains(w)),
{
    let mut out: Vec<u32> = Vec::new();
    let mut i: usize = 0;
    let mut j: usize = 0;
    while i < a.len() || j < b.len()
        invariant
            i <= a@.len(),
            j <= b@.len(),
            strictly_ascending(a@),
            strictly_ascending(b@),
            forall|w: u32| !(a@.contains(w) && b@.contains(w)),
            strictly_ascending(out@),
            forall|k: int| 0 <= k < out@.len() && i < a@.len() ==> out@[k] < a@[i as int],
            forall|k: int| 0 <= k < out@.len() && j < b@.len() ==> out@[k] < b@[j as int],
            forall|w: u32|
                out@.contains(w) <==> (a@.take(i as int).contains(w) || b@.take(j as int).contains(
                    w,
                )),
        decreases a@.len() - i + b@.len() - j,
    {
        let from_a: bool = if i < a.len() && j < b.len() {
            a[i] < b[j]
        } else {
            i < a.len()
        };
        let ghost before = out@;
        let ghost i0 = i;
        let ghost j0 = j;
        let x: u32 = if from_a {
            a[i]
        } else {
            b[j]
        };
        proof {
            if i < a@.len() && j < b@.len() {
                assert(a@.contains(a@[i as int]));
                assert(b@.contains(b@[j as int]));
            }
        }
        out.push(x);
        if from_a {
            i += 1;
        } else {
            j += 1;
        }
        proof {
            let ta = a@.take(i0 as int);
            let tb = b@.take(j0 as int);
            let na = a@.take(i as int);
            let nb = b@.take(j as int);
            if from_a {
                assert(na == ta.push(x));
                assert(nb == tb);
            } else {
                assert(nb == tb.push(x));
                assert(na == ta);
            }
            assert forall|w: u32| out@.contains(w) <==> (na.contains(w) || nb.contains(w)) by {
                if out@.contains(w) {
                    let k = choose|k: int| 0 <= k < out@.len() && out@[k] == w;
                    if k < before.len() {
                        assert(before[k] == w);
                        assert(before.contains(w));
                        if ta.contains(w) {
                            let m = choose|m: int| 0 <= m < ta.len() && ta[m] == w;
                            assert(na[m] == w);
                        } else {
                            let m = choose|m: int| 0 <= m < tb.len() && tb[m] == w;
                            assert(nb[m] == w);
                        }
                    } else if from_a {
                        assert(na[i0 as int] == w);
                    } else {
                        assert(nb[j0 as int] == w);
                    }
                }
                if na.contains(w) {
                    let m = choose|m: int| 0 <= m < na.len() && na[m] == w;
                    if m < ta.len() {
                        assert(ta[m] == w);
                        assert(ta.contains(w));
                        assert(before.contains(w));
                        let k = choose|k: int| 0 <= k < before.len() && before[k] == w;
                        assert(out@[k] == w);
                    } else {
                        assert(out@[before.len() as int] == w);
                    }
                }
                if nb.contains(w) {
                    let m = choose|m: int| 0 <= m < nb.len() && nb[m] == w;
                    if m < tb.len() {
                        assert(tb[m] == w);
                        assert(tb.contains(w));
                        assert(before.contains(w));
                        let k = choose|k: int| 0 <= k < before.len() && before[k] == w;
                        assert(out@[k] == w);
                    } else {
                        assert(out@[before.len() as int] == w);
                    }
                }
            }
        }
    }
    proof {
        assert(a@.take(i as int) == a@);
        assert(b@.take(j as int) == b@);
    }
    out
}

/// The elements `v[lo..hi]` of a list without repetitions, in ascending order.
fn sorted_range(v: &Vec<u32>, lo: usize, hi: usize) -> (out: Vec<u32>)
    requires
        lo <= hi <= v@.len(),
        v@.no_duplicates(),
    ensures
        strictly_ascending(out@),
        forall|w: u32| out@.contains(w) <==> v@.subrange(lo as int, hi as int).contains(w),
    decreases hi - lo,
{
    let ghost part = v@.subrange(lo as int, hi as int);
    if hi - lo == 0 {
        let out: Vec<u32> = Vec::new();
        assert forall|w: u32| out@.contains(w) <==> part.contains(w) by {
            if part.contains(w) {
                let k = choose|k: int| 0 <= k < part.len() && part[k] == w;
            }
        }
        return out;
    }
    if hi - lo == 1 {
        let mut out: Vec<u32> = Vec::new();
        out.push(v[lo]);
        assert forall|w: u32| out@.contains(w) <==> part.contains(w) by {
            if part.contains(w) {
                let k = choose|k: int| 0 <= k < part.len() && part[k] == w;
                assert(out@[0] == w);
            }
            if out@.contains(w) {
                assert(part[0] == w);
            }
        }
        return out;
    }
    let mid: usize = lo + (hi - lo) / 2;
    let left: Vec<u32> = sorted_range(v, lo, mid);
    let right: Vec<u32> = sorted_range(v, mid, hi);
    let ghost pl = v@.subrange(lo as int, mid as int);
    let ghost pr = v@.subrange(mid as int, hi as int);
    proof {
        assert forall|w: u32| !(left@.contains(w) && right@.contains(w)) by {
            if left@.contains(w) && right@.contains(w) {
                let x = choose|x: int| 0 <= x < pl.len() && pl[x] == w;
                let y = choose|y: int| 0 <= y < pr.len() && pr[y] == w;
                assert(v@[lo + x] == v@[mid + y]);
            }
        }
    }
    let out: Vec<u32> = merge(&left, &right);
    proof {
        assert forall|w: u32| out@.contains(w) <==> part.contains(w) by {
            if pl.contains(w) {
                let x = choose|x: int| 0 <= x < pl.len() && pl[x] == w;
                assert(part[x] == w);
            }
            if pr.contains(w) {
                let y = choose|y: int| 0 <= y < pr.len() && pr[y] == w;
                assert(part[mid - lo + y] == w);
            }
            if part.contains(w) {
                let k = choose|k: int| 0 <= k < part.len() && part[k] == w;
                if k < mid - lo {
                    assert(pl[k] == w);
                } else {
                    assert(pr[k - (mid - lo)] == w);
                }
            }
        }
    }
    out
}

/// The wire ids that a map holds, in ascending order.
pub fn wire_ids<V>(m: &HashMap<u32, V>) -> (ids: Vec<u32>)
    ensures
        lists_keys(ids@, m@),
{
    let keys: Vec<u32> = unordered_keys(m);
    let ids: Vec<u32> = sorted_range(&keys, 0, keys.len());
    proof {
        assert(keys@.subrange(0, keys@.len() as int) == keys@);
        assert forall|w: u32| ids@.contains(w) <==> m@.contains_key(w) by {
            assert(keys@.contains(w) <==> keys@.to_set().contains(w));
        }
    }
    ids
}

} // verus!
