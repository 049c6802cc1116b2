//! The input selector, which stands in for oblivious transfer: for each primary input wire it
//! picks the label that stands for the chosen bit.

use crate::bristol::CircuitError;
use crate::garbler::WireLabels;
use crate::keystream::{bit_at, LabelRng};
use crate::label::WireLabel;
use crate::wire_analyzer::strictly_ascending;
use crate::wires::{lists_keys, wire_ids};
use std::collections::HashMap;
use vstd::prelude::*;

verus! {

broadcast use vstd::std_specs::hash::group_hash_axioms;

/// The label picked for one input wire, and the bit that it stands for.
#[derive(Debug, Clone, Copy, PartialEq, Eq)]
pub struct SelectedInput {
    /// The picked label.
    pub label: WireLabel,
    /// The bit that the label stands for.
    pub bit_value: bool,
}

/// The picked labels of all primary input wires.
#[derive(Debug)]
pub struct OTResult {
    /// For each primary input wire, the picked label and its bit.
    pub selected_inputs: HashMap<u32, SelectedInput>,
}

impl OTResult {
    /// The picked label of a wire, if the wire has one.
    pub fn get_selected_input(&self, wire_id: u32) -> (r: Option<&SelectedInput>)
        ensures
            match r {
                Some(s) => self.selected_inputs@.contains_key(wire_id) && *s
                    == self.selected_inputs@[wire_id],
                None => !self.selected_inputs@.contains_key(wire_id),
            },
    {
        self.selected_inputs.get(&wire_id)
    }
}

/// The selection for the bits `bits`: every wire with a label for 0 gets the label that stands
/// for its bit, which is the label for 0 itself, or that label XOR `delta`.
pub open spec fn selection(
    input_labels: Map<u32, WireLabel>,
    delta: WireLabel,
    bits: Map<u32, bool>,
) -> Map<u32, SelectedInput> {
    Map::new(
        |w: u32| input_labels.contains_key(w),
        |w: u32|
            SelectedInput {
                label: input_labels[w].offset_by(bits[w], delta),
                bit_value: bits[w],
            },
    )
}

/// The bits that a seed chooses for the wires `order`: the wire at position `i` gets bit `i` of
/// the seed's stream.
pub open spec fn seeded_bits(seed: Seq<u8>, order: Seq<u32>) -> Map<u32, bool>
    decreases order.len(),
{
    if order.len() == 0 {
        Map::empty()
    } else {
        seeded_bits(seed, order.drop_last()).insert(
            order.last(),
            bit_at(seed, (order.len() - 1) as nat),
        )
    }
}

/// Picks, for every primary input wire, the label that stands for the bit that `inputs` gives
/// it. Every primary input wire needs a bit; bits of other wires are not looked at. Where bits
/// are missing, the smallest wire without one is reported.
pub fn create_ot_result_with_specific_inputs(
    wire_labels: &WireLabels,
    inputs: &HashMap<u32, bool>,
) -> (r: Result<OTResult, CircuitError>)
    ensures
        match r {
            Ok(ot) => {
                &&& forall|w: u32|
                    wire_labels.input_labels@.contains_key(w) ==> inputs@.contains_key(w)
                &&& ot.selected_inputs@ == selection(
                    wire_labels.input_labels@,
                    wire_labels.delta,
                    inputs@,
                )
            },
            Err(e) => exists|wire: u32|
                {
                    &&& e == CircuitError::MissingInputBit { wire }
                    &&& wire_labels.input_labels@.contains_key(wire)
                    &&& !inputs@.contains_key(wire)
                    &&& forall|w: u32|
                        w < wire && wire_labels.input_labels@.contains_key(w)
                            ==> inputs@.contains_key(w)
                },
        },
{
    let ids: Vec<u32> = wire_ids(&wire_labels.input_labels);
    let mut selected_inputs: HashMap<u32, SelectedInput> = HashMap::new();
    let ghost labels = wire_labels.input_labels@;
    let ghost delta = wire_labels.delta;
    let mut i: usize = 0;
    while i < ids.len()
        invariant
            i <= ids@.len(),
            labels == wire_labels.input_labels@,
            delta == wire_labels.delta,
            lists_keys(ids@, labels),
            forall|j: int| 0 <= j < i ==> inputs@.contains_key(#[trigger] ids@[j]),
            selected_inputs@ == selection(labels, delta, inputs@).restrict(
                ids@.take(i as int).to_set(),
            ),
        decreases ids@.len() - i,
    {
        let w: u32 = ids[i];
        assert(ids@.contains(w));
        let label_0: WireLabel = match wire_labels.input_labels.get(&w) {
            None => {
                assert(false);
                return Err(CircuitError::MissingInputBit { wire: w });
            },
            Some(l) => *l,
        };
        let bit: bool = match inputs.get(&w) {
            None => {
                proof {
                    assert forall|v: u32| v < w && labels.contains_key(v) implies inputs@.contains_key(
                        v,
                    ) by {
                        assert(ids@.contains(v));
                        let j = choose|j: int| 0 <= j < ids@.len() && ids@[j] == v;
                        if j >= i {
                            assert(ids@[i as int] <= ids@[j]);
                        }
                    }
                }
                return Err(CircuitError::MissingInputBit { wire: w });
            },
            Some(b) => *b,
        };
        let label: WireLabel = if bit {
            label_0.xor(&wire_labels.delta)
        } else {
            label_0
        };
        selected_inputs.insert(w, SelectedInput { label, bit_value: bit });
        proof {
            let full = selection(labels, delta, inputs@);
            let before = ids@.take(i as int).to_set();
            let t0 = ids@.take(i as int);
            let t1 = ids@.take(i + 1);
            let after = t1.to_set();
            assert(t1 == t0.push(w));
            assert(after =~= before.insert(w)) by {
                assert forall|v: u32| after.contains(v) <==> before.insert(w).contains(v) by {
                    if after.contains(v) {
                        let j = choose|j: int| 0 <= j < t1.len() && t1[j] == v;
                        if j < i {
                            assert(t0[j] == v);
                        }
                    }
                    if before.contains(v) {
                        let j = choose|j: int| 0 <= j < t0.len() && t0[j] == v;
                        assert(t1[j] == v);
                    }
                    if v == w {
                        assert(t1[i as int] == w);
                    }
                }
            }
            assert(selected_inputs@ =~= full.restrict(after));
        }
        i += 1;
    }
    proof {
        let full = selection(labels, delta, inputs@);
        assert(ids@.take(i as int) == ids@);
        assert(full.restrict(ids@.to_set()) =~= full);
        assert forall|w: u32| labels.contains_key(w) implies inputs@.contains_key(w) by {
            assert(ids@.contains(w));
        }
    }
    Ok(OTResult { selected_inputs })
}

/// Whether `order` lists exactly the wires that have an input label, in ascending order.
pub open spec fn is_input_order(order: Seq<u32>, input_labels: Map<u32, WireLabel>) -> bool {
    lists_keys(order, input_labels)
}

/// Picks a label for every primary input wire, with bits that the seed chooses: the input wires
/// are taken in ascending order, and each takes the next bit of the seed's stream.
pub fn simulate_ot(wire_labels: &WireLabels, seed_data: &[u8; 32]) -> (r: Result<
    OTResult,
    CircuitError,
>)
    ensures
        r is Ok,
        exists|order: Seq<u32>|
            {
                &&& is_input_order(order, wire_labels.input_labels@)
                &&& r->Ok_0.selected_inputs@ == selection(
                    wire_labels.input_labels@,
                    wire_labels.delta,
                    seeded_bits(seed_data@, order),
                )
            },
{
    let ids: Vec<u32> = wire_ids(&wire_labels.input_labels);
    let mut rng = LabelRng::from_seed(*seed_data);
    let mut bits: HashMap<u32, bool> = HashMap::new();
    let mut i: usize = 0;
    while i < ids.len()
        invariant
            i <= ids@.len(),
            rng.seed() == seed_data@,
            rng.position() == i,
            bits@ == seeded_bits(seed_data@, ids@.take(i as int)),
            forall|j: int| 0 <= j < i ==> bits@.contains_key(#[trigger] ids@[j]),
        decreases ids@.len() - i,
    {
        let bit: bool = rng.next_bit();
        bits.insert(ids[i], bit);
        proof {
            assert(ids@.take(i + 1).drop_last() == ids@.take(i as int));
        }
        i += 1;
    }
    proof {
        assert(ids@.take(i as int) == ids@);
    }
    let r = create_ot_result_with_specific_inputs(wire_labels, &bits);
    proof {
        if r is Err {
            let wire = choose|wire: u32|
                wire_labels.input_labels@.contains_key(wire) && !bits@.contains_key(wire);
            assert(ids@.contains(wire));
        }
        assert(is_input_order(ids@, wire_labels.input_labels@));
    }
    r
}

} // verus!
