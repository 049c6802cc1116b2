//! The evaluator: one pass over a circuit that carries, for every live wire, one label and the
//! bit that it stands for, and opens one row of each `AND` gate's table.

use crate::bristol::{
    parse_binary_gate, parse_header, parse_header_tokens, read_binary_gate, BinaryGate,
    CircuitError, GateType,
};
use crate::garbler::GarbledTable;
use crate::hash::{garbling_hash, prf2};
use crate::label::{xor16, xor_blocks, WireLabel};
use crate::liveness::{release_pair, release_wire};
use crate::ot_simulation::{OTResult, SelectedInput};
use crate::text::{lines, piece, ranges_are_lines, split_lines, tokens};
use crate::wire_analyzer::WireUsageReport;
use crate::wires::{lists_keys, wire_ids};
use std::collections::HashMap;
use vstd::prelude::*;
use vstd::slice::slice_to_vec;

verus! {

broadcast use vstd::std_specs::hash::group_hash_axioms;

/// The label and bit of one output wire.
#[derive(Debug, Clone, Copy, PartialEq, Eq)]
pub struct OutputResult {
    /// The label that the wire carries.
    pub label: WireLabel,
    /// The bit that the label stands for.
    pub bit_value: bool,
}

/// What evaluating a garbled circuit gives.
#[derive(Debug)]
pub struct EvaluationResult {
    /// For each primary output wire, its label and bit.
    pub output_results: HashMap<u32, OutputResult>,
}

/// A label together with the bit that it stands for.
#[derive(Debug, Clone, Copy, PartialEq, Eq)]
pub struct LabelWithBit {
    pub label: WireLabel,
    pub bit_value: bool,
}

/// The row of a table that belongs to the input bits `(a, b)`.
pub open spec fn row_index(a: bool, b: bool) -> int {
    (if a {
        2int
    } else {
        0int
    }) + (if b {
        1int
    } else {
        0int
    })
}

/// What an `AND` gate gives for the inputs `a` and `b`: the bit is the AND of the two bits, and
/// the label is the row of the table for these bits, XOR the PRF of the two labels.
pub open spec fn and_output(a: LabelWithBit, b: LabelWithBit, table: GarbledTable) -> LabelWithBit {
    LabelWithBit {
        label: WireLabel(
            xor16(table.ciphertexts[row_index(a.bit_value, b.bit_value)], prf2(a.label, b.label)),
        ),
        bit_value: a.bit_value && b.bit_value,
    }
}

/// What an `XOR` gate gives for the inputs `a` and `b`: the XOR of the labels and of the bits.
pub open spec fn xor_output(a: LabelWithBit, b: LabelWithBit) -> LabelWithBit {
    LabelWithBit { label: a.label.spec_xor(b.label), bit_value: a.bit_value != b.bit_value }
}

/// Evaluates one `AND` gate: with the bits of both inputs known, the row of the table is known
/// too, and is opened with the PRF of the two input labels.
pub fn evaluate_and_gate(input_labels_with_bits: &[LabelWithBit; 2], garbled_table: &GarbledTable) -> (r:
    Result<LabelWithBit, CircuitError>)
    ensures
        r == Ok::<LabelWithBit, CircuitError>(
            and_output(input_labels_with_bits[0], input_labels_with_bits[1], *garbled_table),
        ),
{
    let a: LabelWithBit = input_labels_with_bits[0];
    let b: LabelWithBit = input_labels_with_bits[1];
    let row: usize = (if a.bit_value {
        2usize
    } else {
        0usize
    }) + (if b.bit_value {
        1usize
    } else {
        0usize
    });
    let pair: [WireLabel; 2] = [a.label, b.label];
    assert(pair@ =~= seq![a.label, b.label]);
    let key: [u8; 16] = garbling_hash(&pair);
    let plain: [u8; 16] = xor_blocks(&garbled_table.ciphertexts[row], &key);
    Ok(LabelWithBit { label: WireLabel(plain), bit_value: a.bit_value && b.bit_value })
}

/// The tables that a table file holds: one for each 64 bytes, four ciphertexts of 16 bytes each.
pub open spec fn tables_in(data: Seq<u8>) -> Seq<GarbledTable> {
    Seq::new(
        data.len() / 64,
        |i: int|
            GarbledTable {
                ciphertexts: [
                    crate::label::first16(data.subrange(64 * i, 64 * i + 16)),
                    crate::label::first16(data.subrange(64 * i + 16, 64 * i + 32)),
                    crate::label::first16(data.subrange(64 * i + 32, 64 * i + 48)),
                    crate::label::first16(data.subrange(64 * i + 48, 64 * i + 64)),
                ],
            },
    )
}

/// The bytes of a table file that holds these tables.
pub open spec fn table_bytes(tables: Seq<GarbledTable>) -> Seq<u8> {
    Seq::new(64 * tables.len(), |k: int| tables[k / 64].ciphertexts[(k % 64) / 16][k % 16])
}

/// Sixteen bytes of `data`, starting at `at`.
fn block_at(data: &[u8], at: usize) -> (block: [u8; 16])
    requires
        at + 16 <= data@.len(),
    ensures
        block == crate::label::first16(data@.subrange(at as int, at + 16)),
{
    let mut block: [u8; 16] = [0u8;16];
    let len: usize = data.len();
    let mut j: usize = 0;
    while j < 16
        invariant
            j <= 16,
            len == data@.len(),
            at + 16 <= len,
            forall|c: int| 0 <= c < j ==> block[c] == data@[at + c],
        decreases 16 - j,
    {
        block[j] = data[at + j];
        j += 1;
    }
    assert(block =~= crate::label::first16(data@.subrange(at as int, at + 16)));
    block
}

/// Reads the tables of a table file. The size of the file must be a multiple of 64.
pub fn load_garbled_tables(data: &[u8]) -> (r: Result<Vec<GarbledTable>, CircuitError>)
    ensures
        data@.len() % 64 != 0 ==> r == Err::<Vec<GarbledTable>, CircuitError>(
            CircuitError::InvalidTablesSize { size: data@.len() as u64 },
        ),
        data@.len() % 64 == 0 ==> r is Ok && r->Ok_0@ == tables_in(data@),
{
    if data.len() % 64 != 0 {
        return Err(CircuitError::InvalidTablesSize { size: data.len() as u64 });
    }
    let len: usize = data.len();
    let n: usize = len / 64;
    let mut tables: Vec<GarbledTable> = Vec::new();
    let mut i: usize = 0;
    while i < n
        invariant
            i <= n,
            len == data@.len(),
            n == len / 64,
            len % 64 == 0,
            tables@ == tables_in(data@).take(i as int),
        decreases n - i,
    {
        let at: usize = 64 * i;
        let c0: [u8; 16] = block_at(data, at);
        let c1: [u8; 16] = block_at(data, at + 16);
        let c2: [u8; 16] = block_at(data, at + 32);
        let c3: [u8; 16] = block_at(data, at + 48);
        let ciphertexts: [[u8; 16]; 4] = [c0, c1, c2, c3];
        let table = GarbledTable { ciphertexts };
        proof {
            assert(ciphertexts =~= tables_in(data@)[i as int].ciphertexts);
            assert(tables_in(data@).take(i as int).push(table) == tables_in(data@).take(i + 1));
        }
        tables.push(table);
        i += 1;
    }
    proof {
        assert(tables_in(data@).take(i as int) == tables_in(data@));
    }
    Ok(tables)
}

/// Writes tables as the bytes of a table file: 64 bytes for each table, in order.
pub fn tables_to_bytes(tables: &Vec<GarbledTable>) -> (data: Vec<u8>)
    ensures
        data@ == table_bytes(tables@),
{
    let mut data: Vec<u8> = Vec::new();
    let mut i: usize = 0;
    while i < tables.len()
        invariant
            i <= tables@.len(),
            data@ == table_bytes(tables@.take(i as int)),
        decreases tables@.len() - i,
    {
        let bytes: [u8; 64] = tables[i].as_binary();
        let ghost before = data@;
        let mut k: usize = 0;
        while k < 64
            invariant
                k <= 64,
                i < tables@.len(),
                before == table_bytes(tables@.take(i as int)),
                forall|r: int, c: int|
                    0 <= r < 4 && 0 <= c < 16 ==> bytes[16 * r + c]
                        == tables@[i as int].ciphertexts[r][c],
                data@.len() == 64 * i + k,
                forall|x: int| 0 <= x < 64 * i ==> data@[x] == before[x],
                forall|x: int| 0 <= x < k ==> data@[64 * i + x] == bytes[x],
            decreases 64 - k,
        {
            data.push(bytes[k]);
            k += 1;
        }
        proof {
            let next = table_bytes(tables@.take(i + 1));
            assert forall|x: int| 0 <= x < 64 * (i + 1) implies data@[x] == next[x] by {
                if x < 64 * i {
                    assert(x / 64 < i);
                    assert(tables@.take(i as int)[x / 64] == tables@.take(i + 1)[x / 64]);
                    assert(data@[x] == before[x]);
                } else {
                    let y = x - 64 * i;
                    assert(x / 64 == i);
                    assert(x % 64 == y);
                    assert(16 * (y / 16) + y % 16 == y);
                    assert(0 <= y / 16 < 4);
                    assert(data@[64 * i + y] == bytes[y]);
                    assert(bytes[16 * (y / 16) + y % 16] == tables@[i as int].ciphertexts[y
                        / 16][y % 16]);
                    assert(tables@.take(i + 1)[i as int] == tables@[i as int]);
                }
            }
            assert(data@ =~= next);
        }
        i += 1;
    }
    proof {
        assert(tables@.take(i as int) == tables@);
    }
    data
}

/// What the evaluator holds between two gates.
pub struct EvaluatorState {
    /// For each wire, how many reads are still to come (255: permanent).
    pub usage: Seq<u8>,
    /// The live wires with their labels and bits.
    pub active: Map<u32, LabelWithBit>,
    /// How many tables were used so far.
    pub used: nat,
}

/// The selected inputs as labels with bits.
pub open spec fn initial_active(selected: Map<u32, SelectedInput>) -> Map<u32, LabelWithBit> {
    Map::new(
        |w: u32| selected.contains_key(w),
        |w: u32| LabelWithBit { label: selected[w].label, bit_value: selected[w].bit_value },
    )
}

/// The evaluator's state after one gate, or why that gate is refused.
///
/// Both inputs must be live and must have a counter. An `AND` gate uses the next table, which
/// must exist. Then the two reads are counted, first `a`, then `b`.
pub open spec fn evaluate_gate(
    tables: Seq<GarbledTable>,
    s: EvaluatorState,
    g: BinaryGate,
    line: u64,
) -> Result<EvaluatorState, CircuitError> {
    if !s.active.contains_key(g.a) {
        Err(CircuitError::InputNotFound { line, wire: g.a })
    } else if !s.active.contains_key(g.b) {
        Err(CircuitError::InputNotFound { line, wire: g.b })
    } else if g.a >= s.usage.len() {
        Err(CircuitError::WireOutOfRange { line, wire: g.a })
    } else if g.b >= s.usage.len() {
        Err(CircuitError::WireOutOfRange { line, wire: g.b })
    } else {
        let a = s.active[g.a];
        let b = s.active[g.b];
        match g.kind {
            GateType::XOR => {
                let (usage, active) = release_pair(
                    s.usage,
                    s.active.insert(g.c, xor_output(a, b)),
                    g.a,
                    g.b,
                );
                Ok(EvaluatorState { usage, active, used: s.used })
            },
            GateType::AND => if s.used >= tables.len() {
                Err(CircuitError::NotEnoughTables { line })
            } else {
                let (usage, active) = release_pair(
                    s.usage,
                    s.active.insert(g.c, and_output(a, b, tables[s.used as int])),
                    g.a,
                    g.b,
                );
                Ok(EvaluatorState { usage, active, used: s.used + 1 })
            },
        }
    }
}

/// The evaluator's state after one gate line; `line_no` is the number that a fault is reported
/// with.
pub open spec fn evaluate_line(
    tables: Seq<GarbledTable>,
    s: EvaluatorState,
    line: Seq<u8>,
    line_no: u64,
) -> Result<EvaluatorState, CircuitError> {
    match parse_binary_gate(line, line_no) {
        Err(e) => Err(e),
        Ok(g) => evaluate_gate(tables, s, g, line_no),
    }
}

/// The evaluator's state after gate lines `ls`, numbered from 1, or the first fault.
pub open spec fn evaluate_lines(
    tables: Seq<GarbledTable>,
    init: EvaluatorState,
    ls: Seq<Seq<u8>>,
) -> Result<EvaluatorState, CircuitError>
    decreases ls.len(),
{
    if ls.len() == 0 {
        Ok(init)
    } else {
        match evaluate_lines(tables, init, ls.drop_last()) {
            Err(e) => Err(e),
            Ok(s) => evaluate_line(tables, s, ls.last(), ls.len() as u64),
        }
    }
}

/// The results of the wires `outputs`, taken from the live wires; or the first wire of the list
/// that is not live.
pub open spec fn collect_results(active: Map<u32, LabelWithBit>, outputs: Seq<u32>) -> Result<
    Map<u32, OutputResult>,
    CircuitError,
>
    decreases outputs.len(),
{
    if outputs.len() == 0 {
        Ok(Map::empty())
    } else {
        match collect_results(active, outputs.drop_last()) {
            Err(e) => Err(e),
            Ok(m) => if active.contains_key(outputs.last()) {
                Ok(
                    m.insert(
                        outputs.last(),
                        OutputResult {
                            label: active[outputs.last()].label,
                            bit_value: active[outputs.last()].bit_value,
                        },
                    ),
                )
            } else {
                Err(CircuitError::OutputNotFound { wire: outputs.last() })
            },
        }
    }
}

/// What evaluating the circuit `text` gives, with the usage counts `usage`, the primary output
/// wires `outputs`, the selected inputs `selected` and the tables `tables`.
pub open spec fn evaluation(
    text: Seq<u8>,
    usage: Seq<u8>,
    outputs: Seq<u32>,
    selected: Map<u32, SelectedInput>,
    tables: Seq<GarbledTable>,
) -> Result<Map<u32, OutputResult>, CircuitError> {
    let ls = lines(text);
    if ls.len() == 0 {
        Err(CircuitError::MissingHeader)
    } else {
        match parse_header_tokens(tokens(ls[0])) {
            Err(e) => Err(e),
            Ok(_) => match evaluate_lines(
                tables,
                EvaluatorState { usage, active: initial_active(selected), used: 0 },
                ls.drop_first(),
            ) {
                Err(e) => Err(e),
                Ok(s) => collect_results(s.active, outputs),
            },
        }
    }
}

/// An evaluation pass in progress: feed it gate lines one by one, then ask for the result.
pub struct Evaluator {
    usage: Vec<u8>,
    active: HashMap<u32, LabelWithBit>,
    used: usize,
}

impl Evaluator {
    /// What the pass holds at this point.
    pub closed spec fn state(&self) -> EvaluatorState {
        EvaluatorState { usage: self.usage@, active: self.active@, used: self.used as nat }
    }

    /// Starts a pass: checks the header line and makes every selected input live.
    pub fn new(header_line: &[u8], wire_report: &WireUsageReport, ot_result: &OTResult) -> (r:
        Result<Evaluator, CircuitError>)
        ensures
            match parse_header_tokens(tokens(header_line@)) {
                Err(e) => r == Err::<Evaluator, CircuitError>(e),
                Ok(_) => r is Ok && r->Ok_0.state() == (EvaluatorState {
                    usage: wire_report.wire_usage_counts@,
                    active: initial_active(ot_result.selected_inputs@),
                    used: 0,
                }),
            },
    {
        match parse_header(header_line) {
            Err(e) => {
                return Err(e);
            },
            Ok(_) => {},
        }
        let usage: Vec<u8> = slice_to_vec(wire_report.wire_usage_counts.as_slice());
        let ids: Vec<u32> = wire_ids(&ot_result.selected_inputs);
        let mut active: HashMap<u32, LabelWithBit> = HashMap::new();
        let ghost selected = ot_result.selected_inputs@;
        let mut i: usize = 0;
        while i < ids.len()
            invariant
                i <= ids@.len(),
                selected == ot_result.selected_inputs@,
                lists_keys(ids@, selected),
                active@ == initial_active(selected).restrict(ids@.take(i as int).to_set()),
            decreases ids@.len() - i,
        {
            let w: u32 = ids[i];
            assert(ids@.contains(w));
            match ot_result.selected_inputs.get(&w) {
                None => {
                    assert(false);
                },
                Some(s) => {
                    active.insert(w, LabelWithBit { label: s.label, bit_value: s.bit_value });
                },
            }
            proof {
                let t0 = ids@.take(i as int);
                let t1 = ids@.take(i + 1);
                assert(t1 == t0.push(w));
                assert(t1.to_set() =~= t0.to_set().insert(w)) by {
                    assert forall|v: u32| t1.to_set().contains(v) <==> t0.to_set().insert(
                        w,
                    ).contains(v) by {
                        if t1.contains(v) {
                            let j = choose|j: int| 0 <= j < t1.len() && t1[j] == v;
                            if j < i {
                                assert(t0[j] == v);
                            }
                        }
                        if t0.contains(v) {
                            let j = choose|j: int| 0 <= j < t0.len() && t0[j] == v;
                            assert(t1[j] == v);
                        }
                        if v == w {
                            assert(t1[i as int] == w);
                        }
                    }
                }
                assert(active@ =~= initial_active(selected).restrict(t1.to_set()));
            }
            i += 1;
        }
        proof {
            assert(ids@.take(i as int) == ids@);
            assert(initial_active(selected).restrict(ids@.to_set()) =~= initial_active(selected));
        }
        Ok(Evaluator { usage, active, used: 0 })
    }

    /// Evaluates one gate line. A refused line leaves the pass as it was.
    pub fn process_line(
        &mut self,
        line: &[u8],
        line_no: u64,
        garbled_tables: &[GarbledTable],
    ) -> (r: Result<(), CircuitError>)
        ensures
            match evaluate_line(garbled_tables@, old(self).state(), line@, line_no) {
                Err(e) => r == Err::<(), CircuitError>(e) && final(self).state() == old(
                    self,
                ).state(),
                Ok(s) => r is Ok && final(self).state() == s,
            },
    {
        let gate: BinaryGate = match read_binary_gate(line, line_no) {
            Err(e) => {
                return Err(e);
            },
            Ok(g) => g,
        };
        let a: LabelWithBit = match self.active.get(&gate.a) {
            None => {
                return Err(CircuitError::InputNotFound { line: line_no, wire: gate.a });
            },
            Some(l) => *l,
        };
        let b: LabelWithBit = match self.active.get(&gate.b) {
            None => {
                return Err(CircuitError::InputNotFound { line: line_no, wire: gate.b });
            },
            Some(l) => *l,
        };
        if gate.a as usize >= self.usage.len() {
            return Err(CircuitError::WireOutOfRange { line: line_no, wire: gate.a });
        }
        if gate.b as usize >= self.usage.len() {
            return Err(CircuitError::WireOutOfRange { line: line_no, wire: gate.b });
        }
        match gate.kind {
            GateType::XOR => {
                let out = LabelWithBit {
                    label: a.label.xor(&b.label),
                    bit_value: a.bit_value != b.bit_value,
                };
                self.active.insert(gate.c, out);
            },
            GateType::AND => {
                if self.used >= garbled_tables.len() {
                    return Err(CircuitError::NotEnoughTables { line: line_no });
                }
                let pair: [LabelWithBit; 2] = [a, b];
                let out = match evaluate_and_gate(&pair, &garbled_tables[self.used]) {
                    Err(e) => {
                        return Err(e);
                    },
                    Ok(o) => o,
                };
                self.active.insert(gate.c, out);
                self.used = self.used + 1;
            },
        }
        release_wire(&mut self.usage, &mut self.active, gate.a);
        release_wire(&mut self.usage, &mut self.active, gate.b);
        Ok(())
    }

    /// Ends the pass: every primary output wire of the report must be live; its label and bit
    /// go to the result.
    pub fn finish(self, wire_report: &WireUsageReport) -> (r: Result<EvaluationResult, CircuitError>)
        ensures
            match collect_results(self.state().active, wire_report.primary_output_wires@) {
                Err(e) => r == Err::<EvaluationResult, CircuitError>(e),
                Ok(m) => r is Ok && r->Ok_0.output_results@ == m,
            },
    {
        let outputs: &Vec<u32> = &wire_report.primary_output_wires;
        let mut output_results: HashMap<u32, OutputResult> = HashMap::new();
        let mut i: usize = 0;
        while i < outputs.len()
            invariant
                i <= outputs@.len(),
                outputs@ == wire_report.primary_output_wires@,
                collect_results(self.active@, outputs@.take(i as int)) == Ok::<
                    Map<u32, OutputResult>,
                    CircuitError,
                >(output_results@),
            decreases outputs@.len() - i,
        {
            proof {
                assert(outputs@.take(i + 1).drop_last() == outputs@.take(i as int));
                assert(outputs@.take(i + 1).last() == outputs@[i as int]);
                lemma_collect_results_err(self.active@, outputs@, i + 1);
            }
            match self.active.get(&outputs[i]) {
                None => {
                    return Err(CircuitError::OutputNotFound { wire: outputs[i] });
                },
                Some(l) => {
                    output_results.insert(
                        outputs[i],
                        OutputResult { label: l.label, bit_value: l.bit_value },
                    );
                },
            }
            i += 1;
        }
        proof {
            assert(outputs@.take(i as int) == outputs@);
        }
        Ok(EvaluationResult { output_results })
    }
}

/// A missing wire among the first `k` outputs is the fault of the whole list.
pub proof fn lemma_collect_results_err(active: Map<u32, LabelWithBit>, outputs: Seq<u32>, k: int)
    requires
        0 <= k <= outputs.len(),
    ensures
        collect_results(active, outputs.take(k)) is Err ==> collect_results(active, outputs)
            == collect_results(active, outputs.take(k)),
    decreases outputs.len() - k,
{
    if k < outputs.len() {
        lemma_collect_results_err(active, outputs, k + 1);
        assert(outputs.take(k + 1).drop_last() == outputs.take(k));
    } else {
        assert(outputs.take(k) == outputs);
    }
}

/// A fault in the first `k` gate lines is the fault of all the lines.
pub proof fn lemma_evaluate_lines_err(
    tables: Seq<GarbledTable>,
    init: EvaluatorState,
    ls: Seq<Seq<u8>>,
    k: int,
)
    requires
        0 <= k <= ls.len(),
    ensures
        evaluate_lines(tables, init, ls.take(k)) is Err ==> evaluate_lines(tables, init, ls)
            == evaluate_lines(tables, init, ls.take(k)),
    decreases ls.len() - k,
{
    if k < ls.len() {
        lemma_evaluate_lines_err(tables, init, ls, k + 1);
        assert(ls.take(k + 1).drop_last() == ls.take(k));
    } else {
        assert(ls.take(k) == ls);
    }
}

/// Evaluates a garbled circuit: the circuit text, the usage report of its analysis, the selected
/// input labels and the garbler's tables, in the order of the `AND` gates.
///
/// Gate lines are numbered from 1, the header not counted.
pub fn evaluate_circuit(
    text: &[u8],
    wire_report: &WireUsageReport,
    ot_result: &OTResult,
    garbled_tables: &[GarbledTable],
) -> (r: Result<EvaluationResult, CircuitError>)
    ensures
        match evaluation(
            text@,
            wire_report.wire_usage_counts@,
            wire_report.primary_output_wires@,
            ot_result.selected_inputs@,
            garbled_tables@,
        ) {
            Err(e) => r == Err::<EvaluationResult, CircuitError>(e),
            Ok(m) => r is Ok && r->Ok_0.output_results@ == m,
        },
{
    let ranges = split_lines(text);
    if ranges.len() == 0 {
        return Err(CircuitError::MissingHeader);
    }
    let ghost ls = lines(text@);
    let ghost gl = ls.drop_first();
    let mut evaluator = match Evaluator::new(piece(text, ranges[0]), wire_report, ot_result) {
        Err(e) => {
            return Err(e);
        },
        Ok(e) => e,
    };
    let ghost tables = garbled_tables@;
    let ghost init = evaluator.state();
    let mut k: usize = 1;
    while k < ranges.len()
        invariant
            1 <= k <= ranges.len(),
            ranges_are_lines(text@, ranges@),
            ls == lines(text@),
            gl == ls.drop_first(),
            ls.len() == ranges.len(),
            parse_header_tokens(tokens(ls[0])) is Ok,
            tables == garbled_tables@,
            init == (EvaluatorState {
                usage: wire_report.wire_usage_counts@,
                active: initial_active(ot_result.selected_inputs@),
                used: 0,
            }),
            evaluate_lines(tables, init, gl.take(k - 1)) == Ok::<EvaluatorState, CircuitError>(
                evaluator.state(),
            ),
        decreases ranges.len() - k,
    {
        let line = piece(text, ranges[k]);
        proof {
            assert(gl.take(k as int).drop_last() == gl.take(k - 1));
            assert(gl.take(k as int).last() == ls[k as int]);
            assert(gl.take(k as int).len() == k);
            assert(ls[k as int] == line@);
            lemma_evaluate_lines_err(tables, init, gl, k as int);
        }
        match evaluator.process_line(line, k as u64, garbled_tables) {
            Err(e) => {
                return Err(e);
            },
            Ok(()) => {},
        }
        k += 1;
    }
    proof {
        assert(gl.take(k - 1) == gl);
    }
    evaluator.finish(wire_report)
}

} // verus!
