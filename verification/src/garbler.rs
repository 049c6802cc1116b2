//! The garbler: one pass over a circuit that gives every wire a label for the bit 0 and every
//! `AND` gate a table of four ciphertexts. The label for the bit 1 is the label for 0 XOR a
//! global offset `delta`, so `XOR` gates need no table.

use crate::bristol::{
    parse_binary_gate, parse_header, parse_header_tokens, read_binary_gate, BinaryGate,
    CircuitError, GateType,
};
use crate::hash::{garbling_hash, prf2};
use crate::keystream::{label_at, stream_words, LabelRng};
use crate::label::{xor16, xor_blocks, WireLabel};
use crate::liveness::{release_pair, release_wire};
use crate::text::{lines, piece, ranges_are_lines, split_lines, tokens};
use crate::wire_analyzer::WireUsageReport;
use std::collections::HashMap;
use vstd::prelude::*;
use vstd::slice::slice_to_vec;

verus! {

broadcast use vstd::std_specs::hash::group_hash_axioms;

/// The labels of the primary input and output wires. Only the label for the bit 0 is kept; the
/// label for 1 is that label XOR `delta`.
#[derive(Debug)]
pub struct WireLabels {
    /// For each primary input wire, its label for 0.
    pub input_labels: HashMap<u32, WireLabel>,
    /// For each primary output wire, its label for 0.
    pub output_labels: HashMap<u32, WireLabel>,
    /// The global offset between the two labels of a wire.
    pub delta: WireLabel,
}

/// The garbled truth table of one `AND` gate: one ciphertext for each of the input rows
/// `(0,0)`, `(0,1)`, `(1,0)`, `(1,1)`, in this order.
#[derive(Debug, Clone, Copy, PartialEq, Eq)]
pub struct GarbledTable {
    pub ciphertexts: [[u8; 16]; 4],
}

/// What garbling a circuit gives.
#[derive(Debug)]
pub struct GarblingResult {
    /// The labels of the primary inputs and outputs, and `delta`.
    pub wire_labels: WireLabels,
    /// One table for each `AND` gate, in the order of the gates.
    pub garbled_tables: Vec<GarbledTable>,
}

/// The mathematical content of a [`GarblingResult`].
pub struct Garbling {
    pub input_labels: Map<u32, WireLabel>,
    pub output_labels: Map<u32, WireLabel>,
    pub delta: WireLabel,
    pub tables: Seq<GarbledTable>,
}

impl View for GarblingResult {
    type V = Garbling;

    open spec fn view(&self) -> Garbling {
        Garbling {
            input_labels: self.wire_labels.input_labels@,
            output_labels: self.wire_labels.output_labels@,
            delta: self.wire_labels.delta,
            tables: self.garbled_tables@,
        }
    }
}

/// The two labels of a wire whose label for 0 is `label_0`.
pub open spec fn label_pair(label_0: WireLabel, delta: WireLabel) -> [WireLabel; 2] {
    [label_0, label_0.spec_xor(delta)]
}

impl WireLabels {
    /// Both labels of a wire: the label for 0 and the label for 1. An input wire is looked up
    /// first, then an output wire; any other wire has none.
    pub fn get_wire_labels(&self, wire_id: u32) -> (r: Option<[WireLabel; 2]>)
        ensures
            r == if self.input_labels@.contains_key(wire_id) {
                Some(label_pair(self.input_labels@[wire_id], self.delta))
            } else if self.output_labels@.contains_key(wire_id) {
                Some(label_pair(self.output_labels@[wire_id], self.delta))
            } else {
                None
            },
    {
        match self.input_labels.get(&wire_id) {
            Some(label_0) => {
                let pair: [WireLabel; 2] = [*label_0, label_0.xor(&self.delta)];
                assert(pair =~= label_pair(*label_0, self.delta));
                Some(pair)
            },
            None => match self.output_labels.get(&wire_id) {
                Some(label_0) => {
                    let pair: [WireLabel; 2] = [*label_0, label_0.xor(&self.delta)];
                    assert(pair =~= label_pair(*label_0, self.delta));
                    Some(pair)
                },
                None => None,
            },
        }
    }
}

impl GarbledTable {
    /// The table as 64 bytes: the four ciphertexts one after the other.
    pub fn as_binary(&self) -> (bytes: [u8; 64])
        ensures
            forall|i: int, j: int|
                0 <= i < 4 && 0 <= j < 16 ==> bytes[16 * i + j] == self.ciphertexts[i][j],
    {
        let mut bytes: [u8; 64] = [0u8;64];
        let mut i: usize = 0;
        while i < 4
            invariant
                i <= 4,
                forall|r: int, j: int|
                    0 <= r < i && 0 <= j < 16 ==> bytes[16 * r + j] == self.ciphertexts[r][j],
            decreases 4 - i,
        {
            let mut j: usize = 0;
            while j < 16
                invariant
                    i < 4,
                    j <= 16,
                    forall|r: int, c: int|
                        0 <= r < i && 0 <= c < 16 ==> bytes[16 * r + c] == self.ciphertexts[r][c],
                    forall|c: int| 0 <= c < j ==> bytes[16 * i + c] == self.ciphertexts[i as int][c],
                decreases 16 - j,
            {
                bytes[16 * i + j] = self.ciphertexts[i][j];
                j += 1;
            }
            i += 1;
        }
        bytes
    }
}

/// The table of an `AND` gate whose input wires have the label pairs `ins[0]` and `ins[1]` and
/// whose output wire has the pair `outs`: the row for input bits `(i, j)` is the output label
/// for `i AND j`, XOR the PRF of the two input labels for `i` and `j`.
pub open spec fn table_of(ins: [[WireLabel; 2]; 2], outs: [WireLabel; 2]) -> GarbledTable {
    GarbledTable {
        ciphertexts: [
            xor16(outs[0].0, prf2(ins[0][0], ins[1][0])),
            xor16(outs[0].0, prf2(ins[0][0], ins[1][1])),
            xor16(outs[0].0, prf2(ins[0][1], ins[1][0])),
            xor16(outs[1].0, prf2(ins[0][1], ins[1][1])),
        ],
    }
}

/// The table of an `AND` gate in a garbling with offset `delta`, from the labels for 0 of its
/// input wires `la`, `lb` and of its output wire `lc`.
pub open spec fn and_table(
    la: WireLabel,
    lb: WireLabel,
    lc: WireLabel,
    delta: WireLabel,
) -> GarbledTable {
    table_of([label_pair(la, delta), label_pair(lb, delta)], label_pair(lc, delta))
}

/// One row of a garbled table.
fn encrypt_row(plain: &WireLabel, a: WireLabel, b: WireLabel) -> (ct: [u8; 16])
    ensures
        ct == xor16(plain.0, prf2(a, b)),
{
    let pair: [WireLabel; 2] = [a, b];
    assert(pair@ =~= seq![a, b]);
    let key: [u8; 16] = garbling_hash(&pair);
    xor_blocks(&plain.0, &key)
}

/// Garbles one `AND` gate: four ciphertexts, one for each row of the truth table.
pub fn garble_and_gate(input_labels: &[[WireLabel; 2]; 2], output_labels: &[WireLabel; 2]) -> (table:
    GarbledTable)
    ensures
        table == table_of(*input_labels, *output_labels),
{
    let a: &[WireLabel; 2] = &input_labels[0];
    let b: &[WireLabel; 2] = &input_labels[1];
    let c0: [u8; 16] = encrypt_row(&output_labels[0], a[0], b[0]);
    let c1: [u8; 16] = encrypt_row(&output_labels[0], a[0], b[1]);
    let c2: [u8; 16] = encrypt_row(&output_labels[0], a[1], b[0]);
    let c3: [u8; 16] = encrypt_row(&output_labels[1], a[1], b[1]);
    let ciphertexts: [[u8; 16]; 4] = [c0, c1, c2, c3];
    assert(ciphertexts =~= table_of(*input_labels, *output_labels).ciphertexts);
    GarbledTable { ciphertexts }
}

/// What the garbler holds between two gates.
pub struct GarblerState {
    /// For each wire, how many reads are still to come (255: permanent).
    pub usage: Seq<u8>,
    /// The live wires with their labels for 0.
    pub active: Map<u32, WireLabel>,
    /// The tables made so far.
    pub tables: Seq<GarbledTable>,
    /// How many words of the stream were taken so far.
    pub position: nat,
}

/// The labels that the primary input wires get: the wire at position `i` of the list gets the
/// label at word `4 (i + 1)` of the stream (the label at word 0 is `delta`). A wire listed twice
/// keeps its last label.
pub open spec fn initial_labels(seed: Seq<u8>, inputs: Seq<u32>) -> Map<u32, WireLabel>
    decreases inputs.len(),
{
    if inputs.len() == 0 {
        Map::empty()
    } else {
        initial_labels(seed, inputs.drop_last()).insert(
            inputs.last(),
            label_at(seed, 4 * inputs.len()),
        )
    }
}

/// The garbler's state before the first gate.
pub open spec fn initial_state(seed: Seq<u8>, usage: Seq<u8>, inputs: Seq<u32>) -> GarblerState {
    GarblerState {
        usage,
        active: initial_labels(seed, inputs),
        tables: Seq::empty(),
        position: 4 * (1 + inputs.len()),
    }
}

/// The garbler's state after one gate, or why that gate is refused.
///
/// Both inputs must be live and must have a counter. An `XOR` gate gives its output the XOR of
/// the input labels. An `AND` gate draws a fresh label for its output and adds a table. Then the
/// two reads are counted, first `a`, then `b`.
pub open spec fn garble_gate(
    seed: Seq<u8>,
    delta: WireLabel,
    s: GarblerState,
    g: BinaryGate,
    line: u64,
) -> Result<GarblerState, CircuitError> {
    if !s.active.contains_key(g.a) {
        Err(CircuitError::InputNotFound { line, wire: g.a })
    } else if !s.active.contains_key(g.b) {
        Err(CircuitError::InputNotFound { line, wire: g.b })
    } else if g.a >= s.usage.len() {
        Err(CircuitError::WireOutOfRange { line, wire: g.a })
    } else if g.b >= s.usage.len() {
        Err(CircuitError::WireOutOfRange { line, wire: g.b })
    } else {
        let la = s.active[g.a];
        let lb = s.active[g.b];
        match g.kind {
            GateType::XOR => {
                let (usage, active) = release_pair(
                    s.usage,
                    s.active.insert(g.c, la.spec_xor(lb)),
                    g.a,
                    g.b,
                );
                Ok(GarblerState { usage, active, tables: s.tables, position: s.position })
            },
            GateType::AND => if s.position + 4 > stream_words() {
                Err(CircuitError::LabelsExhausted { line })
            } else {
                let lc = label_at(seed, s.position);
                let (usage, active) = release_pair(s.usage, s.active.insert(g.c, lc), g.a, g.b);
                Ok(
                    GarblerState {
                        usage,
                        active,
                        tables: s.tables.push(and_table(la, lb, lc, delta)),
                        position: s.position + 4,
                    },
                )
            },
        }
    }
}

/// The garbler's state after one gate line; `line_no` is the number that a fault is reported
/// with.
pub open spec fn garble_line(
    seed: Seq<u8>,
    delta: WireLabel,
    s: GarblerState,
    line: Seq<u8>,
    line_no: u64,
) -> Result<GarblerState, CircuitError> {
    match parse_binary_gate(line, line_no) {
        Err(e) => Err(e),
        Ok(g) => garble_gate(seed, delta, s, g, line_no),
    }
}

/// The garbler's state after gate lines `ls`, numbered from 1, or the first fault.
pub open spec fn garble_lines(
    seed: Seq<u8>,
    delta: WireLabel,
    init: GarblerState,
    ls: Seq<Seq<u8>>,
) -> Result<GarblerState, CircuitError>
    decreases ls.len(),
{
    if ls.len() == 0 {
        Ok(init)
    } else {
        match garble_lines(seed, delta, init, ls.drop_last()) {
            Err(e) => Err(e),
            Ok(s) => garble_line(seed, delta, s, ls.last(), ls.len() as u64),
        }
    }
}

/// The values of the wires `outputs`, taken from the live wires; or the first wire of the list
/// that is not live.
pub open spec fn collect_outputs<V>(active: Map<u32, V>, outputs: Seq<u32>) -> Result<
    Map<u32, V>,
    CircuitError,
>
    decreases outputs.len(),
{
    if outputs.len() == 0 {
        Ok(Map::empty())
    } else {
        match collect_outputs(active, outputs.drop_last()) {
            Err(e) => Err(e),
            Ok(m) => if active.contains_key(outputs.last()) {
                Ok(m.insert(outputs.last(), active[outputs.last()]))
            } else {
                Err(CircuitError::OutputNotFound { wire: outputs.last() })
            },
        }
    }
}

/// What garbling the circuit `text` gives, with the usage counts `usage`, the primary input
/// wires `inputs`, the primary output wires `outputs` and the seed `seed`.
///
/// The first label of the stream is `delta`; the next ones go to the primary inputs in the order
/// of `inputs`; each `AND` gate takes the next one for its output. A fault in the header or in a
/// gate line, a gate that reads a wire that is not live, and an output wire that is not live at
/// the end are errors.
pub open spec fn garbling(
    text: Seq<u8>,
    usage: Seq<u8>,
    inputs: Seq<u32>,
    outputs: Seq<u32>,
    seed: Seq<u8>,
) -> Result<Garbling, CircuitError> {
    let ls = lines(text);
    if ls.len() == 0 {
        Err(CircuitError::MissingHeader)
    } else {
        match parse_header_tokens(tokens(ls[0])) {
            Err(e) => Err(e),
            Ok(_) => {
                let delta = label_at(seed, 0);
                match garble_lines(
                    seed,
                    delta,
                    initial_state(seed, usage, inputs),
                    ls.drop_first(),
                ) {
                    Err(e) => Err(e),
                    Ok(s) => match collect_outputs(s.active, outputs) {
                        Err(e) => Err(e),
                        Ok(output_labels) => Ok(
                            Garbling {
                                input_labels: initial_labels(seed, inputs),
                                output_labels,
                                delta,
                                tables: s.tables,
                            },
                        ),
                    },
                }
            },
        }
    }
}

/// Whether `r` is what garbling the circuit `text` with these inputs gives: the error of
/// [`garbling`], or a result whose content is the garbling.
pub open spec fn garbles_to(
    r: Result<GarblingResult, CircuitError>,
    text: Seq<u8>,
    usage: Seq<u8>,
    inputs: Seq<u32>,
    outputs: Seq<u32>,
    seed: Seq<u8>,
) -> bool {
    match garbling(text, usage, inputs, outputs, seed) {
        Err(e) => r == Err::<GarblingResult, CircuitError>(e),
        Ok(g) => r is Ok && r->Ok_0@ == g,
    }
}

/// A garbling pass in progress: feed it gate lines one by one, then ask for the result.
pub struct Garbler {
    rng: LabelRng,
    delta: WireLabel,
    usage: Vec<u8>,
    active: HashMap<u32, WireLabel>,
    input_labels: HashMap<u32, WireLabel>,
    tables: Vec<GarbledTable>,
}

impl Garbler {
    /// The seed of the label stream.
    pub closed spec fn seed(&self) -> Seq<u8> {
        self.rng.seed()
    }

    /// The global offset.
    pub closed spec fn delta(&self) -> WireLabel {
        self.delta
    }

    /// The labels given to the primary inputs.
    pub closed spec fn input_labels(&self) -> Map<u32, WireLabel> {
        self.input_labels@
    }

    /// What the pass holds at this point.
    pub closed spec fn state(&self) -> GarblerState {
        GarblerState {
            usage: self.usage@,
            active: self.active@,
            tables: self.tables@,
            position: self.rng.position(),
        }
    }

    /// Starts a pass: checks the header line, draws `delta` and one label for each primary
    /// input wire of the report.
    pub fn new(header_line: &[u8], wire_report: &WireUsageReport, seed_data: &[u8; 32]) -> (r:
        Result<Garbler, CircuitError>)
        ensures
            match parse_header_tokens(tokens(header_line@)) {
                Err(e) => r == Err::<Garbler, CircuitError>(e),
                Ok(_) => {
                    &&& r is Ok
                    &&& r->Ok_0.seed() == seed_data@
                    &&& r->Ok_0.delta() == label_at(seed_data@, 0)
                    &&& r->Ok_0.input_labels() == initial_labels(
                        seed_data@,
                        wire_report.primary_input_wires@,
                    )
                    &&& r->Ok_0.state() == initial_state(
                        seed_data@,
                        wire_report.wire_usage_counts@,
                        wire_report.primary_input_wires@,
                    )
                },
            },
    {
        match parse_header(header_line) {
            Err(e) => {
                return Err(e);
            },
            Ok(_) => {},
        }
        let mut rng = LabelRng::from_seed(*seed_data);
        let delta: WireLabel = rng.next_label();
        let usage: Vec<u8> = slice_to_vec(wire_report.wire_usage_counts.as_slice());
        let mut active: HashMap<u32, WireLabel> = HashMap::new();
        let mut input_labels: HashMap<u32, WireLabel> = HashMap::new();
        let inputs: &Vec<u32> = &wire_report.primary_input_wires;
        let mut i: usize = 0;
        while i < inputs.len()
            invariant
                i <= inputs@.len(),
                rng.seed() == seed_data@,
                rng.position() == 4 * (1 + i),
                active@ == initial_labels(seed_data@, inputs@.take(i as int)),
                input_labels@ == active@,
            decreases inputs@.len() - i,
        {
            let label: WireLabel = rng.next_label();
            active.insert(inputs[i], label);
            input_labels.insert(inputs[i], label);
            proof {
                assert(inputs@.take(i + 1).drop_last() == inputs@.take(i as int));
            }
            i += 1;
        }
        proof {
            assert(inputs@.take(i as int) == inputs@);
        }
        Ok(Garbler { rng, delta, usage, active, input_labels, tables: Vec::new() })
    }

    /// Garbles one gate line. A refused line leaves the pass as it was.
    pub fn process_line(&mut self, line: &[u8], line_no: u64) -> (r: Result<(), CircuitError>)
        ensures
            final(self).seed() == old(self).seed(),
            final(self).delta() == old(self).delta(),
            final(self).input_labels() == old(self).input_labels(),
            match garble_line(old(self).seed(), old(self).delta(), old(self).state(), line@, line_no) {
                Err(e) => r == Err::<(), CircuitError>(e) && final(self).state() == old(
                    self,
                ).state(),
                Ok(s) => r is Ok && final(self).state() == s,
            },
    {
        let gate: BinaryGate = match read_binary_gate(line, line_no) {
            Err(e) => {
                return Err(e);
            },
            Ok(g) => g,
        };
        let la: WireLabel = match self.active.get(&gate.a) {
            None => {
                return Err(CircuitError::InputNotFound { line: line_no, wire: gate.a });
            },
            Some(l) => *l,
        };
        let lb: WireLabel = match self.active.get(&gate.b) {
            None => {
                return Err(CircuitError::InputNotFound { line: line_no, wire: gate.b });
            },
            Some(l) => *l,
        };
        if gate.a as usize >= self.usage.len() {
            return Err(CircuitError::WireOutOfRange { line: line_no, wire: gate.a });
        }
        if gate.b as usize >= self.usage.len() {
            return Err(CircuitError::WireOutOfRange { line: line_no, wire: gate.b });
        }
        match gate.kind {
            GateType::XOR => {
                self.active.insert(gate.c, la.xor(&lb));
            },
            GateType::AND => {
                if !self.rng.has_label() {
                    return Err(CircuitError::LabelsExhausted { line: line_no });
                }
                let lc: WireLabel = self.rng.next_label();
                let ins: [[WireLabel; 2]; 2] = [
                    [la, la.xor(&self.delta)],
                    [lb, lb.xor(&self.delta)],
                ];
                let outs: [WireLabel; 2] = [lc, lc.xor(&self.delta)];
                let table: GarbledTable = garble_and_gate(&ins, &outs);
                proof {
                    assert(ins[0] =~= label_pair(la, self.delta));
                    assert(ins[1] =~= label_pair(lb, self.delta));
                    assert(outs =~= label_pair(lc, self.delta));
                    assert(ins =~= [label_pair(la, self.delta), label_pair(lb, self.delta)]);
                }
                self.tables.push(table);
                self.active.insert(gate.c, lc);
            },
        }
        release_wire(&mut self.usage, &mut self.active, gate.a);
        release_wire(&mut self.usage, &mut self.active, gate.b);
        Ok(())
    }

    /// Ends the pass: every primary output wire of the report must be live; its label goes to
    /// the result.
    pub fn finish(self, wire_report: &WireUsageReport) -> (r: Result<GarblingResult, CircuitError>)
        ensures
            match collect_outputs(self.state().active, wire_report.primary_output_wires@) {
                Err(e) => r == Err::<GarblingResult, CircuitError>(e),
                Ok(output_labels) => r is Ok && r->Ok_0@ == (Garbling {
                    input_labels: self.input_labels(),
                    output_labels,
                    delta: self.delta(),
                    tables: self.state().tables,
                }),
            },
    {
        let outputs: &Vec<u32> = &wire_report.primary_output_wires;
        let mut output_labels: HashMap<u32, WireLabel> = HashMap::new();
        let mut i: usize = 0;
        while i < outputs.len()
            invariant
                i <= outputs@.len(),
                outputs@ == wire_report.primary_output_wires@,
                collect_outputs(self.active@, outputs@.take(i as int)) == Ok::<
                    Map<u32, WireLabel>,
                    CircuitError,
                >(output_labels@),
            decreases outputs@.len() - i,
        {
            proof {
                assert(outputs@.take(i + 1).drop_last() == outputs@.take(i as int));
                assert(outputs@.take(i + 1).last() == outputs@[i as int]);
                lemma_collect_outputs_err(self.active@, outputs@, i + 1);
            }
            match self.active.get(&outputs[i]) {
                None => {
                    return Err(CircuitError::OutputNotFound { wire: outputs[i] });
                },
                Some(l) => {
                    output_labels.insert(outputs[i], *l);
                },
            }
            i += 1;
        }
        proof {
            assert(outputs@.take(i as int) == outputs@);
        }
        Ok(
            GarblingResult {
                wire_labels: WireLabels {
                    input_labels: self.input_labels,
                    output_labels,
                    delta: self.delta,
                },
                garbled_tables: self.tables,
            },
        )
    }
}

/// A missing wire among the first `k` outputs is the fault of the whole list.
pub proof fn lemma_collect_outputs_err<V>(active: Map<u32, V>, outputs: Seq<u32>, k: int)
    requires
        0 <= k <= outputs.len(),
    ensures
        collect_outputs(active, outputs.take(k)) is Err ==> collect_outputs(active, outputs)
            == collect_outputs(active, outputs.take(k)),
    decreases outputs.len() - k,
{
    if k < outputs.len() {
        lemma_collect_outputs_err(active, outputs, k + 1);
        assert(outputs.take(k + 1).drop_last() == outputs.take(k));
    } else {
        assert(outputs.take(k) == outputs);
    }
}

/// A fault in the first `k` gate lines is the fault of all the lines.
pub proof fn lemma_garble_lines_err(
    seed: Seq<u8>,
    delta: WireLabel,
    init: GarblerState,
    ls: Seq<Seq<u8>>,
    k: int,
)
    requires
        0 <= k <= ls.len(),
    ensures
        garble_lines(seed, delta, init, ls.take(k)) is Err ==> garble_lines(seed, delta, init, ls)
            == garble_lines(seed, delta, init, ls.take(k)),
    decreases ls.len() - k,
{
    if k < ls.len() {
        lemma_garble_lines_err(seed, delta, init, ls, k + 1);
        assert(ls.take(k + 1).drop_last() == ls.take(k));
    } else {
        assert(ls.take(k) == ls);
    }
}

/// Garbles a circuit text with the usage report of its analysis and a 32-byte seed.
///
/// Gate lines are numbered from 1, the header not counted.
pub fn garble_circuit(text: &[u8], wire_report: &WireUsageReport, seed_data: &[u8; 32]) -> (r:
    Result<GarblingResult, CircuitError>)
    ensures
        garbles_to(
            r,
            text@,
            wire_report.wire_usage_counts@,
            wire_report.primary_input_wires@,
            wire_report.primary_output_wires@,
            seed_data@,
        ),
{
    let ranges = split_lines(text);
    if ranges.len() == 0 {
        return Err(CircuitError::MissingHeader);
    }
    let ghost ls = lines(text@);
    let ghost gl = ls.drop_first();
    let mut garbler = match Garbler::new(piece(text, ranges[0]), wire_report, seed_data) {
        Err(e) => {
            return Err(e);
        },
        Ok(g) => g,
    };
    let ghost seed = seed_data@;
    let ghost delta = label_at(seed, 0);
    let ghost init = initial_state(
        seed,
        wire_report.wire_usage_counts@,
        wire_report.primary_input_wires@,
    );
    let mut k: usize = 1;
    while k < ranges.len()
        invariant
            1 <= k <= ranges.len(),
            ranges_are_lines(text@, ranges@),
            ls == lines(text@),
            gl == ls.drop_first(),
            ls.len() == ranges.len(),
            parse_header_tokens(tokens(ls[0])) is Ok,
            seed == seed_data@,
            delta == label_at(seed, 0),
            init == initial_state(
                seed,
                wire_report.wire_usage_counts@,
                wire_report.primary_input_wires@,
            ),
            garbler.seed() == seed,
            garbler.delta() == delta,
            garbler.input_labels() == initial_labels(seed, wire_report.primary_input_wires@),
            garble_lines(seed, delta, init, gl.take(k - 1)) == Ok::<GarblerState, CircuitError>(
                garbler.state(),
            ),
        decreases ranges.len() - k,
    {
        let line = piece(text, ranges[k]);
        proof {
            assert(gl.take(k as int).drop_last() == gl.take(k - 1));
            assert(gl.take(k as int).last() == ls[k as int]);
            assert(gl.take(k as int).len() == k);
            assert(ls[k as int] == line@);
            lemma_garble_lines_err(seed, delta, init, gl, k as int);
        }
        match garbler.process_line(line, k as u64) {
            Err(e) => {
                return Err(e);
            },
            Ok(()) => {},
        }
        k += 1;
    }
    proof {
        assert(gl.take(k - 1) == gl);
    }
    garbler.finish(wire_report)
}

} // verus!
