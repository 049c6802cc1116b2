//! What holds of the passes taken together: the garbled path computes what the circuit
//! computes, garbling is a function of its inputs, and the analyzer's report partitions the
//! wires.

use crate::bristol::{
    binary_gate, parse_binary_gate, parse_gate, parse_header_tokens, BinaryGate, CircuitError,
    GateSpec, GateType,
};
use crate::evaluator::{
    and_output, collect_results, evaluate_gate, evaluate_line, evaluate_lines, evaluation,
    initial_active, row_index, table_bytes, tables_in, xor_output, EvaluatorState, LabelWithBit,
    OutputResult,
};
use crate::garbler::{
    and_table, collect_outputs, garble_gate, garble_line, garble_lines, garbles_to, garbling,
    initial_labels, initial_state, GarbledTable, GarblerState, Garbling, GarblingResult,
};
use crate::hash::prf2;
use crate::keystream::label_at;
use crate::label::{
    lemma_xor16_associates, lemma_xor16_cancels, lemma_xor16_commutes, xor16, WireLabel,
};
use crate::liveness::{release, release_pair};
use crate::ot_simulation::{is_input_order, seeded_bits, selection, SelectedInput};
use crate::plain_evaluator::{
    collect_bits, declares_binary, gate_bit, parse_plain_gate, plain_evaluation, plain_gate,
    plain_line, plain_lines,
};
use crate::text::{lines, tokens};
use crate::wire_analyzer::{
    class_count, class_of, input_uses, is_produced, lemma_class_counts_sum, lists_class,
    occurrences, strictly_ascending, WireClass, WireUsageReport,
};
use vstd::prelude::*;

verus! {

/// XOR of the labels that stand for two bits is the label that stands for the XOR of the bits:
/// the offsets cancel or add up to one offset.
pub proof fn lemma_offset_xor(a: WireLabel, b: WireLabel, x: bool, y: bool, delta: WireLabel)
    ensures
        a.offset_by(x, delta).spec_xor(b.offset_by(y, delta)) == a.spec_xor(b).offset_by(
            x != y,
            delta,
        ),
{
    let d = delta.0;
    lemma_xor16_associates(a.0, d, b.0);
    lemma_xor16_commutes(d, b.0);
    lemma_xor16_associates(a.0, b.0, d);
    lemma_xor16_associates(a.0, d, xor16(b.0, d));
    lemma_xor16_commutes(b.0, d);
    lemma_xor16_cancels(b.0, d);
}

/// The row of an `AND` gate's table for the input bits `(x, y)` hides the output label for
/// `x AND y` under the PRF of the input labels for `x` and `y`.
pub proof fn lemma_and_table_row(
    la: WireLabel,
    lb: WireLabel,
    lc: WireLabel,
    delta: WireLabel,
    x: bool,
    y: bool,
)
    ensures
        and_table(la, lb, lc, delta).ciphertexts[row_index(x, y)] == xor16(
            lc.offset_by(x && y, delta).0,
            prf2(la.offset_by(x, delta), lb.offset_by(y, delta)),
        ),
{
}

/// Opening an `AND` gate's table with the labels that stand for the input bits gives the output
/// label that stands for the AND of the bits.
pub proof fn lemma_and_gate_opens(
    la: WireLabel,
    lb: WireLabel,
    lc: WireLabel,
    delta: WireLabel,
    a: LabelWithBit,
    b: LabelWithBit,
)
    requires
        a.label == la.offset_by(a.bit_value, delta),
        b.label == lb.offset_by(b.bit_value, delta),
    ensures
        and_output(a, b, and_table(la, lb, lc, delta)).label == lc.offset_by(
            a.bit_value && b.bit_value,
            delta,
        ),
        and_output(a, b, and_table(la, lb, lc, delta)).bit_value == (a.bit_value && b.bit_value),
{
    lemma_and_table_row(la, lb, lc, delta, a.bit_value, b.bit_value);
    lemma_xor16_cancels(lc.offset_by(a.bit_value && b.bit_value, delta).0, prf2(a.label, b.label));
}

/// A line that both readers accept states the same gate for both.
pub proof fn lemma_readers_agree(line: Seq<u8>, line_no: u64)
    ensures
        parse_binary_gate(line, line_no) is Ok && parse_plain_gate(line, line_no) is Ok
            ==> parse_binary_gate(line, line_no) == parse_plain_gate(line, line_no),
{
}

/// Whether `tables` starts with the tables `made`.
pub open spec fn starts_with(tables: Seq<GarbledTable>, made: Seq<GarbledTable>) -> bool {
    &&& made.len() <= tables.len()
    &&& forall|i: int| 0 <= i < made.len() ==> made[i] == tables[i]
}

/// Whether the garbler and the evaluator hold the same counters and the same live wires, and the
/// evaluator has used as many tables as the garbler has made.
pub open spec fn paired(gs: GarblerState, es: EvaluatorState) -> bool {
    &&& gs.usage == es.usage
    &&& gs.active.dom() == es.active.dom()
    &&& es.used == gs.tables.len()
}

/// A gate that the garbler accepts is accepted by the evaluator that is paired with it and has
/// the garbler's tables, and the two stay paired.
pub proof fn lemma_gate_keeps_pair(
    seed: Seq<u8>,
    delta: WireLabel,
    tables: Seq<GarbledTable>,
    gs: GarblerState,
    es: EvaluatorState,
    g: BinaryGate,
    line: u64,
)
    requires
        paired(gs, es),
        garble_gate(seed, delta, gs, g, line) is Ok,
        starts_with(tables, garble_gate(seed, delta, gs, g, line)->Ok_0.tables),
    ensures
        evaluate_gate(tables, es, g, line) is Ok,
        paired(
            garble_gate(seed, delta, gs, g, line)->Ok_0,
            evaluate_gate(tables, es, g, line)->Ok_0,
        ),
{
    assert(es.active.dom().contains(g.a));
    assert(es.active.dom().contains(g.b));
    let a = es.active[g.a];
    let b = es.active[g.b];
    let (lc, out) = match g.kind {
        GateType::XOR => (gs.active[g.a].spec_xor(gs.active[g.b]), xor_output(a, b)),
        GateType::AND => (label_at(seed, gs.position), and_output(a, b, tables[es.used as int])),
    };
    let gmid = gs.active.insert(g.c, lc);
    let emid = es.active.insert(g.c, out);
    assert(gmid.dom() =~= emid.dom());
    let (u1, g1) = release(gs.usage, gmid, g.a);
    let (u1e, e1) = release(es.usage, emid, g.a);
    assert(g1.dom() =~= e1.dom());
    let (u2, g2) = release(u1, g1, g.b);
    let (u2e, e2) = release(u1e, e1, g.b);
    assert(g2.dom() =~= e2.dom());
}

/// Gate lines that the garbler accepts are accepted by the evaluator that starts paired with it
/// and has the garbler's tables, and the two end paired.
pub proof fn lemma_lines_keep_pair(
    seed: Seq<u8>,
    delta: WireLabel,
    tables: Seq<GarbledTable>,
    ginit: GarblerState,
    einit: EvaluatorState,
    ls: Seq<Seq<u8>>,
)
    requires
        paired(ginit, einit),
        garble_lines(seed, delta, ginit, ls) is Ok,
        starts_with(tables, garble_lines(seed, delta, ginit, ls)->Ok_0.tables),
    ensures
        evaluate_lines(tables, einit, ls) is Ok,
        paired(
            garble_lines(seed, delta, ginit, ls)->Ok_0,
            evaluate_lines(tables, einit, ls)->Ok_0,
        ),
    decreases ls.len(),
{
    if ls.len() > 0 {
        let prev = ls.drop_last();
        let line_no = #[verifier::truncate] (ls.len() as u64);
        let gs = garble_lines(seed, delta, ginit, prev)->Ok_0;
        let g = parse_binary_gate(ls.last(), line_no)->Ok_0;
        lemma_tables_grow(seed, delta, gs, g, line_no);
        assert(starts_with(tables, gs.tables));
        lemma_lines_keep_pair(seed, delta, tables, ginit, einit, prev);
        let es = evaluate_lines(tables, einit, prev)->Ok_0;
        lemma_gate_keeps_pair(seed, delta, tables, gs, es, g, line_no);
    }
}

/// Outputs that can be collected from the garbler's live wires can be collected from the
/// evaluator's, if the two hold the same live wires.
pub proof fn lemma_outputs_are_live(
    gactive: Map<u32, WireLabel>,
    eactive: Map<u32, LabelWithBit>,
    outputs: Seq<u32>,
)
    requires
        gactive.dom() == eactive.dom(),
        collect_outputs(gactive, outputs) is Ok,
    ensures
        collect_results(eactive, outputs) is Ok,
    decreases outputs.len(),
{
    if outputs.len() > 0 {
        lemma_outputs_are_live(gactive, eactive, outputs.drop_last());
        assert(gactive.dom().contains(outputs.last()));
    }
}

/// The evaluator accepts what the garbler accepts: if garbling a circuit succeeds and every
/// primary input wire has a bit, then evaluating the circuit with the selected labels and the
/// garbler's tables succeeds.
pub proof fn lemma_evaluation_succeeds(
    text: Seq<u8>,
    usage: Seq<u8>,
    inputs: Seq<u32>,
    outputs: Seq<u32>,
    seed: Seq<u8>,
    bits: Map<u32, bool>,
)
    requires
        garbling(text, usage, inputs, outputs, seed) is Ok,
    ensures
        evaluation(
            text,
            usage,
            outputs,
            selection(
                garbling(text, usage, inputs, outputs, seed)->Ok_0.input_labels,
                garbling(text, usage, inputs, outputs, seed)->Ok_0.delta,
                bits,
            ),
            garbling(text, usage, inputs, outputs, seed)->Ok_0.tables,
        ) is Ok,
{
    let g = garbling(text, usage, inputs, outputs, seed)->Ok_0;
    let selected = selection(g.input_labels, g.delta, bits);
    let gl = lines(text).drop_first();
    let delta = label_at(seed, 0);
    let ginit = initial_state(seed, usage, inputs);
    let einit = EvaluatorState { usage, active: initial_active(selected), used: 0 };
    assert(ginit.active.dom() =~= einit.active.dom());
    let gs = garble_lines(seed, delta, ginit, gl)->Ok_0;
    lemma_lines_keep_pair(seed, delta, g.tables, ginit, einit, gl);
    let es = evaluate_lines(g.tables, einit, gl)->Ok_0;
    lemma_outputs_are_live(gs.active, es.active, outputs);
}

/// What ties the three passes together between two gates: the garbler and the evaluator hold the
/// same counters and the same live wires; every live wire's label at the evaluator is the
/// garbler's label for 0, offset by `delta` if the wire's bit is 1; and that bit is the bit that
/// the plain evaluator holds for the wire.
pub open spec fn in_step(
    delta: WireLabel,
    gs: GarblerState,
    es: EvaluatorState,
    values: Map<u32, bool>,
) -> bool {
    &&& gs.usage == es.usage
    &&& gs.active.dom() == es.active.dom()
    &&& es.used == gs.tables.len()
    &&& forall|w: u32| #[trigger]
        es.active.contains_key(w) ==> {
            &&& es.active[w].label == gs.active[w].offset_by(es.active[w].bit_value, delta)
            &&& values.contains_key(w)
            &&& values[w] == es.active[w].bit_value
        }
}

/// One gate keeps the three passes in step.
pub proof fn lemma_gate_keeps_step(
    seed: Seq<u8>,
    delta: WireLabel,
    tables: Seq<GarbledTable>,
    num_wires: u32,
    gs: GarblerState,
    es: EvaluatorState,
    values: Map<u32, bool>,
    g: BinaryGate,
    line: u64,
)
    requires
        in_step(delta, gs, es, values),
        garble_gate(seed, delta, gs, g, line) is Ok,
        evaluate_gate(tables, es, g, line) is Ok,
        plain_gate(num_wires, values, g, line) is Ok,
        starts_with(tables, garble_gate(seed, delta, gs, g, line)->Ok_0.tables),
    ensures
        in_step(
            delta,
            garble_gate(seed, delta, gs, g, line)->Ok_0,
            evaluate_gate(tables, es, g, line)->Ok_0,
            plain_gate(num_wires, values, g, line)->Ok_0,
        ),
{
    let gs1 = garble_gate(seed, delta, gs, g, line)->Ok_0;
    let es1 = evaluate_gate(tables, es, g, line)->Ok_0;
    let v1 = plain_gate(num_wires, values, g, line)->Ok_0;
    let la = gs.active[g.a];
    let lb = gs.active[g.b];
    let a = es.active[g.a];
    let b = es.active[g.b];
    assert(es.active.contains_key(g.a));
    assert(es.active.contains_key(g.b));
    let (lc, out) = match g.kind {
        GateType::XOR => (la.spec_xor(lb), xor_output(a, b)),
        GateType::AND => (label_at(seed, gs.position), and_output(a, b, tables[es.used as int])),
    };
    let gmid = gs.active.insert(g.c, lc);
    let emid = es.active.insert(g.c, out);
    assert(out.label == lc.offset_by(out.bit_value, delta) && out.bit_value == gate_bit(
        g.kind,
        a.bit_value,
        b.bit_value,
    )) by {
        match g.kind {
            GateType::XOR => {
                lemma_offset_xor(la, lb, a.bit_value, b.bit_value, delta);
            },
            GateType::AND => {
                let t = and_table(la, lb, lc, delta);
                assert(gs1.tables == gs.tables.push(t));
                assert(gs1.tables[gs.tables.len() as int] == t);
                lemma_and_gate_opens(la, lb, lc, delta, a, b);
            },
        }
    }
    assert(gmid.dom() =~= emid.dom());
    let (u1, g1) = release(gs.usage, gmid, g.a);
    let (u1e, e1) = release(es.usage, emid, g.a);
    assert(g1.dom() =~= e1.dom());
    let (u2, g2) = release(u1, g1, g.b);
    let (u2e, e2) = release(u1e, e1, g.b);
    assert(g2.dom() =~= e2.dom());
    assert(gs1.active == g2);
    assert(es1.active == e2);
    assert forall|w: u32| #[trigger] es1.active.contains_key(w) implies {
        &&& es1.active[w].label == gs1.active[w].offset_by(es1.active[w].bit_value, delta)
        &&& v1.contains_key(w)
        &&& v1[w] == es1.active[w].bit_value
    } by {
        assert(emid.contains_key(w));
        assert(e2[w] == emid[w]);
        assert(g2[w] == gmid[w]);
        if w != g.c {
            assert(es.active.contains_key(w));
        }
    }
}

/// The tables that the garbler has made after some lines are still the first tables after one
/// more line.
pub proof fn lemma_tables_grow(seed: Seq<u8>, delta: WireLabel, s: GarblerState, g: BinaryGate, line: u64)
    requires
        garble_gate(seed, delta, s, g, line) is Ok,
    ensures
        starts_with(garble_gate(seed, delta, s, g, line)->Ok_0.tables, s.tables),
{
}

/// After any number of gate lines that all three passes accept, the passes are in step.
pub proof fn lemma_lines_keep_step(
    seed: Seq<u8>,
    delta: WireLabel,
    tables: Seq<GarbledTable>,
    num_wires: u32,
    ginit: GarblerState,
    einit: EvaluatorState,
    vinit: Map<u32, bool>,
    ls: Seq<Seq<u8>>,
)
    requires
        in_step(delta, ginit, einit, vinit),
        garble_lines(seed, delta, ginit, ls) is Ok,
        evaluate_lines(tables, einit, ls) is Ok,
        plain_lines(num_wires, vinit, ls) is Ok,
        starts_with(tables, garble_lines(seed, delta, ginit, ls)->Ok_0.tables),
    ensures
        in_step(
            delta,
            garble_lines(seed, delta, ginit, ls)->Ok_0,
            evaluate_lines(tables, einit, ls)->Ok_0,
            plain_lines(num_wires, vinit, ls)->Ok_0,
        ),
    decreases ls.len(),
{
    if ls.len() > 0 {
        let prev = ls.drop_last();
        let line = ls.last();
        let line_no = #[verifier::truncate] (ls.len() as u64);
        let gs = garble_lines(seed, delta, ginit, prev)->Ok_0;
        let es = evaluate_lines(tables, einit, prev)->Ok_0;
        let vs = plain_lines(num_wires, vinit, prev)->Ok_0;
        let gs1 = garble_lines(seed, delta, ginit, ls)->Ok_0;
        lemma_readers_agree(line, line_no);
        let g = parse_binary_gate(line, line_no)->Ok_0;
        assert(garble_gate(seed, delta, gs, g, line_no) == Ok::<GarblerState, CircuitError>(gs1));
        lemma_tables_grow(seed, delta, gs, g, line_no);
        assert(starts_with(tables, gs.tables));
        lemma_lines_keep_step(seed, delta, tables, num_wires, ginit, einit, vinit, prev);
        lemma_gate_keeps_step(seed, delta, tables, num_wires, gs, es, vs, g, line_no);
    }
}

/// Every collected output is a live wire, with the label and bit that the wire holds.
pub proof fn lemma_collected_results(active: Map<u32, LabelWithBit>, outputs: Seq<u32>)
    requires
        collect_results(active, outputs) is Ok,
    ensures
        forall|w: u32| #[trigger]
            collect_results(active, outputs)->Ok_0.contains_key(w) ==> {
                &&& active.contains_key(w)
                &&& outputs.contains(w)
                &&& collect_results(active, outputs)->Ok_0[w] == (OutputResult {
                    label: active[w].label,
                    bit_value: active[w].bit_value,
                })
            },
        forall|i: int|
            0 <= i < outputs.len() ==> collect_results(active, outputs)->Ok_0.contains_key(
                #[trigger] outputs[i],
            ),
    decreases outputs.len(),
{
    if outputs.len() > 0 {
        let prev = outputs.drop_last();
        lemma_collected_results(active, prev);
        let m = collect_results(active, outputs)->Ok_0;
        assert forall|w: u32| #[trigger] m.contains_key(w) implies outputs.contains(w) by {
            if w == outputs.last() {
                assert(outputs[outputs.len() - 1] == w);
            } else {
                let i = choose|i: int| 0 <= i < prev.len() && prev[i] == w;
                assert(outputs[i] == w);
            }
        }
        assert forall|i: int| 0 <= i < outputs.len() implies m.contains_key(
            #[trigger] outputs[i],
        ) by {
            if i < prev.len() {
                assert(prev[i] == outputs[i]);
            }
        }
    }
}

/// Every collected output label is the label of a live wire.
pub proof fn lemma_collected_outputs(active: Map<u32, WireLabel>, outputs: Seq<u32>)
    requires
        collect_outputs(active, outputs) is Ok,
    ensures
        forall|w: u32| #[trigger]
            collect_outputs(active, outputs)->Ok_0.contains_key(w) ==> {
                &&& active.contains_key(w)
                &&& outputs.contains(w)
                &&& collect_outputs(active, outputs)->Ok_0[w] == active[w]
            },
        forall|i: int|
            0 <= i < outputs.len() ==> collect_outputs(active, outputs)->Ok_0.contains_key(
                #[trigger] outputs[i],
            ),
    decreases outputs.len(),
{
    if outputs.len() > 0 {
        let prev = outputs.drop_last();
        lemma_collected_outputs(active, prev);
        let m = collect_outputs(active, outputs)->Ok_0;
        assert forall|w: u32| #[trigger] m.contains_key(w) implies outputs.contains(w) by {
            if w == outputs.last() {
                assert(outputs[outputs.len() - 1] == w);
            } else {
                let i = choose|i: int| 0 <= i < prev.len() && prev[i] == w;
                assert(outputs[i] == w);
            }
        }
        assert forall|i: int| 0 <= i < outputs.len() implies m.contains_key(
            #[trigger] outputs[i],
        ) by {
            if i < prev.len() {
                assert(prev[i] == outputs[i]);
            }
        }
    }
}

/// Every collected bit is the bit that the wire holds.
pub proof fn lemma_collected_bits(num_wires: u32, values: Map<u32, bool>, outputs: Seq<u32>)
    requires
        collect_bits(num_wires, values, outputs) is Ok,
    ensures
        forall|w: u32| #[trigger]
            collect_bits(num_wires, values, outputs)->Ok_0.contains_key(w) ==> {
                &&& values.contains_key(w)
                &&& collect_bits(num_wires, values, outputs)->Ok_0[w] == values[w]
            },
    decreases outputs.len(),
{
    if outputs.len() > 0 {
        lemma_collected_bits(num_wires, values, outputs.drop_last());
    }
}

/// Correctness of the garbled path. Garble a circuit, select the input labels for the bits
/// `bits`, and evaluate the garbled circuit with the garbler's tables. Then every output bit is
/// the bit that the plain evaluator computes for that wire from `bits`, and every output label is
/// the garbler's label for that wire, offset by `delta` if the bit is 1.
///
/// This is stated for the circuits that the garbler and the plain evaluator both accept; the
/// evaluator then accepts them too.
pub proof fn lemma_garbled_path_is_correct(
    text: Seq<u8>,
    usage: Seq<u8>,
    inputs: Seq<u32>,
    outputs: Seq<u32>,
    seed: Seq<u8>,
    bits: Map<u32, bool>,
    plain_outputs: Seq<u32>,
)
    requires
        garbling(text, usage, inputs, outputs, seed) is Ok,
        forall|w: u32|
            garbling(text, usage, inputs, outputs, seed)->Ok_0.input_labels.contains_key(w)
                ==> bits.contains_key(w),
        plain_evaluation(text, bits, plain_outputs) is Ok,
    ensures
        evaluation(
            text,
            usage,
            outputs,
            selection(
                garbling(text, usage, inputs, outputs, seed)->Ok_0.input_labels,
                garbling(text, usage, inputs, outputs, seed)->Ok_0.delta,
                bits,
            ),
            garbling(text, usage, inputs, outputs, seed)->Ok_0.tables,
        ) is Ok,
        ({
            let g = garbling(text, usage, inputs, outputs, seed)->Ok_0;
            let e = evaluation(
                text,
                usage,
                outputs,
                selection(g.input_labels, g.delta, bits),
                g.tables,
            )->Ok_0;
            let p = plain_evaluation(text, bits, plain_outputs)->Ok_0;
            &&& forall|w: u32|
                #![trigger e.contains_key(w)]
                #![trigger p.contains_key(w)]
                e.contains_key(w) && p.contains_key(w) ==> e[w].bit_value == p[w]
            &&& forall|w: u32| #[trigger]
                e.contains_key(w) ==> g.output_labels.contains_key(w) && e[w].label
                    == g.output_labels[w].offset_by(e[w].bit_value, g.delta)
        }),
{
    lemma_evaluation_succeeds(text, usage, inputs, outputs, seed, bits);
    let g = garbling(text, usage, inputs, outputs, seed)->Ok_0;
    let selected = selection(g.input_labels, g.delta, bits);
    let e = evaluation(text, usage, outputs, selected, g.tables)->Ok_0;
    let p = plain_evaluation(text, bits, plain_outputs)->Ok_0;
    let ls = lines(text);
    let gl = ls.drop_first();
    let h = parse_header_tokens(tokens(ls[0]))->Ok_0;
    let delta = label_at(seed, 0);
    let ginit = initial_state(seed, usage, inputs);
    let einit = EvaluatorState { usage, active: initial_active(selected), used: 0 };
    assert(g.input_labels == initial_labels(seed, inputs));
    assert(ginit.active.dom() =~= einit.active.dom());
    assert(in_step(delta, ginit, einit, bits));
    let gs = garble_lines(seed, delta, ginit, gl)->Ok_0;
    assert(g.tables == gs.tables);
    lemma_lines_keep_step(seed, delta, g.tables, h.num_wires, ginit, einit, bits, gl);
    let es = evaluate_lines(g.tables, einit, gl)->Ok_0;
    let vs = plain_lines(h.num_wires, bits, gl)->Ok_0;
    lemma_collected_results(es.active, outputs);
    lemma_collected_outputs(gs.active, outputs);
    lemma_collected_bits(h.num_wires, vs, plain_outputs);
    assert forall|w: u32| #[trigger] e.contains_key(w) implies g.output_labels.contains_key(w)
        && e[w].label == g.output_labels[w].offset_by(e[w].bit_value, g.delta) by {
        assert(es.active.contains_key(w));
        let i = choose|i: int| 0 <= i < outputs.len() && outputs[i] == w;
        assert(g.output_labels.contains_key(outputs[i]));
    }
    assert forall|w: u32|
        #![trigger e.contains_key(w)]
        #![trigger p.contains_key(w)]
        e.contains_key(w) && p.contains_key(w) implies e[w].bit_value == p[w] by {
        assert(es.active.contains_key(w));
    }
}

/// Garbling is a function of the circuit, the report and the seed: two runs on the same inputs
/// fail alike or give the same labels, the same `delta` and the same tables, whose bytes in a
/// table file are then the same too.
pub proof fn lemma_garbling_is_deterministic(
    r1: Result<GarblingResult, CircuitError>,
    r2: Result<GarblingResult, CircuitError>,
    text: Seq<u8>,
    usage: Seq<u8>,
    inputs: Seq<u32>,
    outputs: Seq<u32>,
    seed: Seq<u8>,
)
    requires
        garbles_to(r1, text, usage, inputs, outputs, seed),
        garbles_to(r2, text, usage, inputs, outputs, seed),
    ensures
        r1 is Ok <==> r2 is Ok,
        r1 is Err ==> r1->Err_0 == r2->Err_0,
        r1 is Ok ==> {
            &&& r1->Ok_0.wire_labels.input_labels@ == r2->Ok_0.wire_labels.input_labels@
            &&& r1->Ok_0.wire_labels.output_labels@ == r2->Ok_0.wire_labels.output_labels@
            &&& r1->Ok_0.wire_labels.delta == r2->Ok_0.wire_labels.delta
            &&& r1->Ok_0.garbled_tables@ == r2->Ok_0.garbled_tables@
            &&& table_bytes(r1->Ok_0.garbled_tables@) == table_bytes(r2->Ok_0.garbled_tables@)
        },
{
}

/// Two strictly ascending lists with the same elements are the same list.
pub proof fn lemma_ascending_lists_equal(s: Seq<u32>, t: Seq<u32>)
    requires
        strictly_ascending(s),
        strictly_ascending(t),
        forall|w: u32| s.contains(w) <==> t.contains(w),
    ensures
        s == t,
    decreases s.len(),
{
    if s.len() == 0 {
        if t.len() > 0 {
            assert(t.contains(t[0]));
        }
        assert(s =~= t);
    } else {
        let x = s.last();
        assert(s.contains(x));
        assert(t.contains(x));
        let i = choose|i: int| 0 <= i < t.len() && t[i] == x;
        assert(t.contains(t.last()));
        let j = choose|j: int| 0 <= j < s.len() && s[j] == t.last();
        assert(t.last() == x);
        let s0 = s.drop_last();
        let t0 = t.drop_last();
        assert forall|w: u32| s0.contains(w) <==> t0.contains(w) by {
            if s0.contains(w) {
                let k = choose|k: int| 0 <= k < s0.len() && s0[k] == w;
                assert(s[k] == w);
                assert(s.contains(w));
                let m = choose|m: int| 0 <= m < t.len() && t[m] == w;
                assert(w < x);
                assert(t0[m] == w);
            }
            if t0.contains(w) {
                let k = choose|k: int| 0 <= k < t0.len() && t0[k] == w;
                assert(t[k] == w);
                assert(t.contains(w));
                let m = choose|m: int| 0 <= m < s.len() && s[m] == w;
                assert(w < x);
                assert(s0[m] == w);
            }
        }
        lemma_ascending_lists_equal(s0, t0);
        assert(s =~= s0.push(x));
        assert(t =~= t0.push(x));
    }
}

/// The selection that a seed makes is a function of the labels and the seed: the input wires have
/// one ascending order only, so two selections for the same labels and seed are the same.
pub proof fn lemma_seeded_selection_is_deterministic(
    input_labels: Map<u32, WireLabel>,
    delta: WireLabel,
    seed: Seq<u8>,
    order1: Seq<u32>,
    order2: Seq<u32>,
)
    requires
        is_input_order(order1, input_labels),
        is_input_order(order2, input_labels),
    ensures
        order1 == order2,
        selection(input_labels, delta, seeded_bits(seed, order1)) == selection(
            input_labels,
            delta,
            seeded_bits(seed, order2),
        ),
{
    lemma_ascending_lists_equal(order1, order2);
}

/// Circuits whose wires are read equally often and produced alike have the same numbers of
/// wires of each kind.
pub proof fn lemma_class_counts_equal(g1: Seq<GateSpec>, g2: Seq<GateSpec>, n: nat, c: WireClass)
    requires
        n <= 0x1_0000_0000,
        forall|w: u32| w < n ==> class_of(g1, w) == class_of(g2, w),
    ensures
        class_count(g1, n, c) == class_count(g2, n, c),
    decreases n,
{
    if n > 0 {
        lemma_class_counts_equal(g1, g2, (n - 1) as nat, c);
    }
}

/// The report of a circuit is sorted and partitions the wires: the lists of primary inputs and
/// of primary outputs are strictly ascending, no wire is on both, no wire on either is an
/// intermediate wire, and the four counts add up to the number of wires.
pub proof fn lemma_report_partitions_wires(
    report: WireUsageReport,
    num_wires: u32,
    gates: Seq<GateSpec>,
)
    requires
        report.describes(num_wires, gates),
    ensures
        strictly_ascending(report.primary_input_wires@),
        strictly_ascending(report.primary_output_wires@),
        forall|w: u32|
            !(report.primary_input_wires@.contains(w) && report.primary_output_wires@.contains(w)),
        forall|w: u32|
            report.primary_input_wires@.contains(w) || report.primary_output_wires@.contains(w)
                ==> w < num_wires && class_of(gates, w) != WireClass::Intermediate,
        report.primary_inputs + report.intermediate_wires + report.primary_outputs
            + report.missing_wires_count == report.total_wires,
{
    lemma_class_counts_sum(gates, num_wires as nat);
}

/// The report depends on the circuit only through the number of wires, how often each wire is
/// read and whether it is produced. So two texts of the same circuit, however they are spaced,
/// ordered or worded, have the same report.
pub proof fn lemma_report_is_determined(
    r1: WireUsageReport,
    r2: WireUsageReport,
    num_wires: u32,
    g1: Seq<GateSpec>,
    g2: Seq<GateSpec>,
)
    requires
        r1.describes(num_wires, g1),
        r2.describes(num_wires, g2),
        forall|w: u32|
            w < num_wires ==> input_uses(g1, w) == input_uses(g2, w) && is_produced(g1, w)
                == is_produced(g2, w),
    ensures
        r1.total_wires == r2.total_wires,
        r1.primary_inputs == r2.primary_inputs,
        r1.intermediate_wires == r2.intermediate_wires,
        r1.primary_outputs == r2.primary_outputs,
        r1.missing_wires_count == r2.missing_wires_count,
        r1.wire_usage_counts@ == r2.wire_usage_counts@,
        r1.primary_input_wires@ == r2.primary_input_wires@,
        r1.primary_output_wires@ == r2.primary_output_wires@,
{
    let n = num_wires as nat;
    lemma_class_counts_equal(g1, g2, n, WireClass::PrimaryInput);
    lemma_class_counts_equal(g1, g2, n, WireClass::PrimaryOutput);
    lemma_class_counts_equal(g1, g2, n, WireClass::Intermediate);
    lemma_class_counts_equal(g1, g2, n, WireClass::Missing);
    lemma_ascending_lists_equal(r1.primary_input_wires@, r2.primary_input_wires@);
    lemma_ascending_lists_equal(r1.primary_output_wires@, r2.primary_output_wires@);
    assert forall|i: int| 0 <= i < num_wires implies r1.wire_usage_counts@[i]
        == r2.wire_usage_counts@[i] by {
        let w = i as u32;
        assert(r1.wire_usage_counts@[w as int] == r2.wire_usage_counts@[w as int]);
    }
    assert(r1.wire_usage_counts@ =~= r2.wire_usage_counts@);
}

/// Taking one gate out of a list takes its reads out of the count.
pub proof fn lemma_input_uses_remove(gates: Seq<GateSpec>, j: int, w: u32)
    requires
        0 <= j < gates.len(),
    ensures
        input_uses(gates, w) == input_uses(gates.remove(j), w) + occurrences(gates[j].inputs, w),
    decreases gates.len(),
{
    let last = gates.len() - 1;
    if j == last {
        assert(gates.remove(j) == gates.drop_last());
    } else {
        lemma_input_uses_remove(gates.drop_last(), j, w);
        assert(gates.remove(j).drop_last() == gates.drop_last().remove(j));
        assert(gates.remove(j).last() == gates.last());
    }
}

/// The order of the gates does not matter to the analyzer: two lists that hold the same gates,
/// each as often as the other, read every wire equally often and produce the same wires.
pub proof fn lemma_gate_order_is_irrelevant(g1: Seq<GateSpec>, g2: Seq<GateSpec>, w: u32)
    requires
        g1.to_multiset() == g2.to_multiset(),
    ensures
        input_uses(g1, w) == input_uses(g2, w),
        is_produced(g1, w) == is_produced(g2, w),
    decreases g1.len(),
{
    broadcast use vstd::multiset::group_multiset_axioms;

    g1.to_multiset_ensures();
    g2.to_multiset_ensures();
    if is_produced(g1, w) {
        let k = choose|k: int| 0 <= k < g1.len() && (#[trigger] g1[k]).outputs.contains(w);
        assert(g1.contains(g1[k]));
        assert(g2.to_multiset().count(g1[k]) > 0);
        assert(g2.contains(g1[k]));
        let m = choose|m: int| 0 <= m < g2.len() && g2[m] == g1[k];
        assert(g2[m].outputs.contains(w));
    }
    if is_produced(g2, w) {
        let k = choose|k: int| 0 <= k < g2.len() && (#[trigger] g2[k]).outputs.contains(w);
        assert(g2.contains(g2[k]));
        assert(g1.to_multiset().count(g2[k]) > 0);
        assert(g1.contains(g2[k]));
        let m = choose|m: int| 0 <= m < g1.len() && g1[m] == g2[k];
        assert(g1[m].outputs.contains(w));
    }
    if g1.len() == 0 {
        assert(g2.len() == 0);
    } else {
        let x = g1.last();
        assert(g1.contains(x));
        assert(g2.to_multiset().count(x) > 0);
        assert(g2.contains(x));
        let j = choose|j: int| 0 <= j < g2.len() && g2[j] == x;
        let last = g1.len() - 1;
        assert(g1.remove(last) == g1.drop_last());
        assert(g1.drop_last().to_multiset() == g2.remove(j).to_multiset());
        lemma_input_uses_remove(g2, j, w);
        lemma_gate_order_is_irrelevant(g1.drop_last(), g2.remove(j), w);
    }
}

/// A wire that a gate of the garbler has counted down to zero is not live after that gate, and
/// no gate makes a wire other than its output live.
pub proof fn lemma_garbler_drops_spent_wires(
    seed: Seq<u8>,
    delta: WireLabel,
    s: GarblerState,
    g: BinaryGate,
    line: u64,
    w: u32,
)
    requires
        garble_gate(seed, delta, s, g, line) is Ok,
    ensures
        ({
            let s1 = garble_gate(seed, delta, s, g, line)->Ok_0;
            &&& w < s.usage.len() && s.usage[w as int] > 0 && s1.usage[w as int] == 0
                ==> !s1.active.contains_key(w)
            &&& s1.active.contains_key(w) ==> w == g.c || s.active.contains_key(w)
            &&& s1.usage.len() == s.usage.len()
        }),
{
}

/// A wire that a gate of the evaluator has counted down to zero is not live after that gate, and
/// no gate makes a wire other than its output live.
pub proof fn lemma_evaluator_drops_spent_wires(
    tables: Seq<GarbledTable>,
    s: EvaluatorState,
    g: BinaryGate,
    line: u64,
    w: u32,
)
    requires
        evaluate_gate(tables, s, g, line) is Ok,
    ensures
        ({
            let s1 = evaluate_gate(tables, s, g, line)->Ok_0;
            &&& w < s.usage.len() && s.usage[w as int] > 0 && s1.usage[w as int] == 0
                ==> !s1.active.contains_key(w)
            &&& s1.active.contains_key(w) ==> w == g.c || s.active.contains_key(w)
            &&& s1.usage.len() == s.usage.len()
        }),
{
}

/// How many of all gate lines `ls`, numbered from 1, state an `AND` gate.
pub open spec fn and_gate_count(ls: Seq<Seq<u8>>) -> nat
    decreases ls.len(),
{
    if ls.len() == 0 {
        0
    } else {
        and_gate_count(ls.drop_last()) + if parse_binary_gate(ls.last(), ls.len() as u64) matches Ok(
            g,
        ) && g.kind == GateType::AND {
            1nat
        } else {
            0nat
        }
    }
}

/// The garbler makes one table and draws one label for each `AND` gate, in the order of the
/// gates, and none for an `XOR` gate.
pub proof fn lemma_one_table_per_and_gate(
    seed: Seq<u8>,
    delta: WireLabel,
    init: GarblerState,
    ls: Seq<Seq<u8>>,
)
    requires
        garble_lines(seed, delta, init, ls) is Ok,
    ensures
        garble_lines(seed, delta, init, ls)->Ok_0.tables.len() == init.tables.len()
            + and_gate_count(ls),
        garble_lines(seed, delta, init, ls)->Ok_0.position == init.position + 4 * and_gate_count(
            ls,
        ),
        starts_with(garble_lines(seed, delta, init, ls)->Ok_0.tables, init.tables),
    decreases ls.len(),
{
    if ls.len() > 0 {
        lemma_one_table_per_and_gate(seed, delta, init, ls.drop_last());
    }
}

/// The evaluator uses one table for each `AND` gate, in the order of the gates.
pub proof fn lemma_one_table_used_per_and_gate(
    tables: Seq<GarbledTable>,
    init: EvaluatorState,
    ls: Seq<Seq<u8>>,
)
    requires
        evaluate_lines(tables, init, ls) is Ok,
    ensures
        evaluate_lines(tables, init, ls)->Ok_0.used == init.used + and_gate_count(ls),
    decreases ls.len(),
{
    if ls.len() > 0 {
        lemma_one_table_used_per_and_gate(tables, init, ls.drop_last());
    }
}

/// Whether every live wire has a counter that is not zero.
pub open spec fn all_live_wires_counted<V>(usage: Seq<u8>, active: Map<u32, V>) -> bool {
    forall|w: u32| #[trigger] active.contains_key(w) ==> w < usage.len() && usage[w as int] > 0
}

/// Liveness at the garbler: if no live wire has a counter of zero before a gate, none has after
/// it, unless it is the output of that gate. A wire is made live with a counter of zero only if
/// no gate reads it, which is so for the primary outputs.
pub proof fn lemma_garbler_keeps_liveness(
    seed: Seq<u8>,
    delta: WireLabel,
    s: GarblerState,
    g: BinaryGate,
    line: u64,
)
    requires
        garble_gate(seed, delta, s, g, line) is Ok,
        all_live_wires_counted(s.usage, s.active),
    ensures
        ({
            let s1 = garble_gate(seed, delta, s, g, line)->Ok_0;
            &&& all_live_wires_counted(s1.usage, s1.active.remove(g.c))
            &&& (g.c < s1.usage.len() && s1.usage[g.c as int] > 0) ==> all_live_wires_counted(
                s1.usage,
                s1.active,
            )
        }),
{
    let s1 = garble_gate(seed, delta, s, g, line)->Ok_0;
    assert forall|w: u32| #[trigger] s1.active.remove(g.c).contains_key(w) implies w
        < s1.usage.len() && s1.usage[w as int] > 0 by {
        assert(s.active.contains_key(w));
    }
    if g.c < s1.usage.len() && s1.usage[g.c as int] > 0 {
        assert forall|w: u32| #[trigger] s1.active.contains_key(w) implies w < s1.usage.len()
            && s1.usage[w as int] > 0 by {
            if w != g.c {
                assert(s1.active.remove(g.c).contains_key(w));
            }
        }
    }
}

/// Liveness at the evaluator: if no live wire has a counter of zero before a gate, none has
/// after it, unless it is the output of that gate.
pub proof fn lemma_evaluator_keeps_liveness(
    tables: Seq<GarbledTable>,
    s: EvaluatorState,
    g: BinaryGate,
    line: u64,
)
    requires
        evaluate_gate(tables, s, g, line) is Ok,
        all_live_wires_counted(s.usage, s.active),
    ensures
        ({
            let s1 = evaluate_gate(tables, s, g, line)->Ok_0;
            &&& all_live_wires_counted(s1.usage, s1.active.remove(g.c))
            &&& (g.c < s1.usage.len() && s1.usage[g.c as int] > 0) ==> all_live_wires_counted(
                s1.usage,
                s1.active,
            )
        }),
{
    let s1 = evaluate_gate(tables, s, g, line)->Ok_0;
    assert forall|w: u32| #[trigger] s1.active.remove(g.c).contains_key(w) implies w
        < s1.usage.len() && s1.usage[w as int] > 0 by {
        assert(s.active.contains_key(w));
    }
    if g.c < s1.usage.len() && s1.usage[g.c as int] > 0 {
        assert forall|w: u32| #[trigger] s1.active.contains_key(w) implies w < s1.usage.len()
            && s1.usage[w as int] > 0 by {
            if w != g.c {
                assert(s1.active.remove(g.c).contains_key(w));
            }
        }
    }
}

/// An `XOR` gate is free at the garbler: it makes no table and draws no label, and the label of
/// its output, where the output stays live, is the XOR of the labels of its inputs.
pub proof fn lemma_garbler_xor_is_free(
    seed: Seq<u8>,
    delta: WireLabel,
    s: GarblerState,
    g: BinaryGate,
    line: u64,
)
    requires
        g.kind == GateType::XOR,
        garble_gate(seed, delta, s, g, line) is Ok,
    ensures
        ({
            let s1 = garble_gate(seed, delta, s, g, line)->Ok_0;
            &&& s1.tables == s.tables
            &&& s1.position == s.position
            &&& s1.active.contains_key(g.c) ==> s1.active[g.c] == s.active[g.a].spec_xor(
                s.active[g.b],
            )
        }),
{
}

/// An `XOR` gate at the evaluator uses no table; the label of its output, where the output stays
/// live, is the XOR of the labels of its inputs, and its bit is the XOR of their bits.
pub proof fn lemma_evaluator_xor_is_free(
    tables: Seq<GarbledTable>,
    s: EvaluatorState,
    g: BinaryGate,
    line: u64,
)
    requires
        g.kind == GateType::XOR,
        evaluate_gate(tables, s, g, line) is Ok,
    ensures
        ({
            let s1 = evaluate_gate(tables, s, g, line)->Ok_0;
            &&& s1.used == s.used
            &&& s1.active.contains_key(g.c) ==> {
                &&& s1.active[g.c].label == s.active[g.a].label.spec_xor(s.active[g.b].label)
                &&& s1.active[g.c].bit_value == (s.active[g.a].bit_value
                    != s.active[g.b].bit_value)
            }
        }),
{
}

/// Where byte `c` of row `r` of table `i` stands in a table file.
#[verifier::rlimit(50)]
proof fn lemma_table_position(i: int, r: int, c: int)
    requires
        0 <= i,
        0 <= r < 4,
        0 <= c < 16,
    ensures
        (64 * i + 16 * r + c) / 64 == i,
        ((64 * i + 16 * r + c) % 64) / 16 == r,
        (64 * i + 16 * r + c) % 16 == c,
{
    let m = 16 * r + c;
    let k = 64 * i + m;
    assert(0 <= m < 64);
    assert(k / 64 == i && k % 64 == m);
    assert(m / 16 == r && m % 16 == c);
    assert(k == 16 * (4 * i + r) + c);
    assert(k % 16 == c);
}

/// Byte `c` of row `r` of table `i` stands at position `64 i + 16 r + c` of the table file.
proof fn lemma_table_byte(tables: Seq<GarbledTable>, i: int, r: int, c: int)
    requires
        0 <= i < tables.len(),
        0 <= r < 4,
        0 <= c < 16,
    ensures
        64 * i + 16 * r + c < table_bytes(tables).len(),
        table_bytes(tables)[64 * i + 16 * r + c] == tables[i].ciphertexts[r][c],
{
    lemma_table_position(i, r, c);
}

/// Sixteen bytes of a table file, read as a block, are one row of one table.
#[verifier::rlimit(50)]
proof fn lemma_table_row(tables: Seq<GarbledTable>, i: int, r: int)
    requires
        0 <= i < tables.len(),
        0 <= r < 4,
    ensures
        crate::label::first16(
            table_bytes(tables).subrange(64 * i + 16 * r, 64 * i + 16 * r + 16),
        ) == tables[i].ciphertexts[r],
{
    let data = table_bytes(tables);
    let at = 64 * i + 16 * r;
    let part = data.subrange(at, at + 16);
    let row = crate::label::first16(part);
    let want = tables[i].ciphertexts[r];
    lemma_table_byte(tables, i, r, 15);
    crate::label::lemma_first16(part);
    assert(part.subrange(0, 16) == part);
    assert forall|c: int| 0 <= c < 16 implies part[c] == want@[c] by {
        lemma_table_byte(tables, i, r, c);
        assert(part[c] == data[at + c]);
    }
    assert(row@ =~= want@);
    assert(row =~= want);
}

/// One table survives the way through a table file.
#[verifier::rlimit(50)]
proof fn lemma_table_round_trip(tables: Seq<GarbledTable>, i: int)
    requires
        0 <= i < tables.len(),
    ensures
        tables_in(table_bytes(tables))[i] == tables[i],
{
    let data = table_bytes(tables);
    let t = tables_in(data)[i];
    lemma_table_row(tables, i, 0);
    lemma_table_row(tables, i, 1);
    lemma_table_row(tables, i, 2);
    lemma_table_row(tables, i, 3);
    assert(t.ciphertexts[0] == tables[i].ciphertexts[0]);
    assert(t.ciphertexts[1] == tables[i].ciphertexts[1]);
    assert(t.ciphertexts[2] == tables[i].ciphertexts[2]);
    assert(t.ciphertexts[3] == tables[i].ciphertexts[3]);
    assert(t.ciphertexts =~= tables[i].ciphertexts);
}

/// Writing tables to a table file and reading the file gives the tables back.
pub proof fn lemma_table_file_round_trip(tables: Seq<GarbledTable>)
    ensures
        table_bytes(tables).len() % 64 == 0,
        tables_in(table_bytes(tables)) == tables,
{
    let data = table_bytes(tables);
    assert(data.len() == 64 * tables.len());
    assert(tables_in(data).len() == tables.len());
    assert forall|i: int| 0 <= i < tables.len() implies tables_in(data)[i] == tables[i] by {
        lemma_table_round_trip(tables, i);
    }
    assert(tables_in(data) =~= tables);
}

} // verus!
