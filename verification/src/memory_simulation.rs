//! Simulates how many wires are live while a circuit is executed with the liveness counters of
//! its usage report.

use crate::bristol::{parse_gate_line, parse_header, CircuitError, Gate, GateSpec};
use crate::constants::PROGRESS_UPDATE_INTERVAL;
use crate::decimal::{decimal, push_decimal};
use crate::liveness::{release, release_wire};
use crate::single_use_analyzer::circuit_gates;
use crate::text::{lines, piece, ranges_are_lines, split_lines, tokens};
use crate::wire_analyzer::{lemma_parse_gate_lines_err, parse_gate_lines, WireUsageReport};
use std::collections::HashMap;
use vstd::prelude::*;
use vstd::slice::slice_to_vec;
use vstd::string::StringExecFns;

verus! {

broadcast use vstd::std_specs::hash::group_hash_axioms;

/// The number of live wires after some gate.
#[derive(Debug, Clone, Copy, PartialEq, Eq)]
pub struct MemorySnapshot {
    /// How many gates were executed when the snapshot was taken.
    pub gate_number: usize,
    /// How many wires were live then.
    pub live_wire_count: usize,
}

/// What a memory simulation finds.
#[derive(Debug)]
pub struct MemorySimulationReport {
    /// The largest number of live wires seen, before the first gate or after any gate.
    pub max_live_wires: usize,
    /// The number of live wires after the last gate.
    pub final_live_wires: usize,
    /// The number of gates executed.
    pub total_gates_processed: usize,
    /// One snapshot after the first gate and after every thousandth gate from there.
    pub snapshots: Vec<MemorySnapshot>,
}

/// The rows of the snapshots in CSV: for each snapshot a line with its two numbers, separated
/// by a comma.
pub open spec fn csv_rows(snapshots: Seq<MemorySnapshot>) -> Seq<char>
    decreases snapshots.len(),
{
    if snapshots.len() == 0 {
        Seq::empty()
    } else {
        csv_rows(snapshots.drop_last()) + decimal(snapshots.last().gate_number as nat) + seq![',']
            + decimal(snapshots.last().live_wire_count as nat) + seq!['\n']
    }
}

impl MemorySimulationReport {
    /// The snapshots as CSV text: a line with the two column names, then one line for each
    /// snapshot.
    pub fn csv(&self) -> (text: String)
        ensures
            text@ == "gate_number,live_wire_count\n"@ + csv_rows(self.snapshots@),
    {
        let mut text = String::new();
        text.append("gate_number,live_wire_count\n");
        let ghost head = text@;
        assert(head =~= "gate_number,live_wire_count\n"@);
        proof {
            reveal_strlit(",");
            reveal_strlit("\n");
        }
        let mut i: usize = 0;
        while i < self.snapshots.len()
            invariant
                i <= self.snapshots@.len(),
                text@ == head + csv_rows(self.snapshots@.take(i as int)),
                ","@ =~= seq![','],
                "\n"@ =~= seq!['\n'],
            decreases self.snapshots@.len() - i,
        {
            let ghost before = text@;
            let snapshot: &MemorySnapshot = &self.snapshots[i];
            push_decimal(&mut text, snapshot.gate_number as u64);
            text.append(",");
            push_decimal(&mut text, snapshot.live_wire_count as u64);
            text.append("\n");
            proof {
                let done = self.snapshots@.take(i as int);
                let next = self.snapshots@.take(i + 1);
                assert(next.drop_last() == done);
                assert(next.last() == *snapshot);
                assert(text@ =~= head + csv_rows(next));
            }
            i += 1;
        }
        proof {
            assert(self.snapshots@.take(i as int) == self.snapshots@);
        }
        text
    }
}

/// What the simulation holds between two gates.
pub struct MemoryState {
    /// For each wire, how many reads are still to come (255: permanent).
    pub usage: Seq<u8>,
    /// The live wires.
    pub active: Map<u32, ()>,
    /// The largest number of live wires so far.
    pub max_live: nat,
    /// The snapshots taken so far.
    pub snapshots: Seq<MemorySnapshot>,
}

/// The counters and the live wires after the reads `ws`, one after the other.
pub open spec fn release_all(usage: Seq<u8>, active: Map<u32, ()>, ws: Seq<u32>) -> (
    Seq<u8>,
    Map<u32, ()>,
)
    decreases ws.len(),
{
    if ws.len() == 0 {
        (usage, active)
    } else {
        let (u, m) = release_all(usage, active, ws.drop_last());
        release(u, m, ws.last())
    }
}

/// The live wires after the wires `ws` have become live.
pub open spec fn insert_all(active: Map<u32, ()>, ws: Seq<u32>) -> Map<u32, ()>
    decreases ws.len(),
{
    if ws.len() == 0 {
        active
    } else {
        insert_all(active, ws.drop_last()).insert(ws.last(), ())
    }
}

/// The state after one gate, which is gate number `gate_number`, counted from 1: the reads of
/// its inputs are counted, its outputs become live, and a snapshot is taken if the gates before
/// it are a multiple of the interval.
pub open spec fn simulate_gate(s: MemoryState, g: GateSpec, gate_number: nat) -> MemoryState {
    let (usage, released) = release_all(s.usage, s.active, g.inputs);
    let active = insert_all(released, g.outputs);
    let live = active.len();
    MemoryState {
        usage,
        active,
        max_live: if live > s.max_live {
            live
        } else {
            s.max_live
        },
        snapshots: if (gate_number - 1) % (PROGRESS_UPDATE_INTERVAL as int) == 0 {
            s.snapshots.push(
                MemorySnapshot {
                    gate_number: gate_number as usize,
                    live_wire_count: live as usize,
                },
            )
        } else {
            s.snapshots
        },
    }
}

/// The state after the gates `gates`.
pub open spec fn simulate_gates(init: MemoryState, gates: Seq<GateSpec>) -> MemoryState
    decreases gates.len(),
{
    if gates.len() == 0 {
        init
    } else {
        simulate_gate(simulate_gates(init, gates.drop_last()), gates.last(), gates.len())
    }
}

/// The state before the first gate: the primary inputs are live.
pub open spec fn initial_memory(usage: Seq<u8>, inputs: Seq<u32>) -> MemoryState {
    let active = insert_all(Map::empty(), inputs);
    MemoryState { usage, active, max_live: active.len(), snapshots: Seq::empty() }
}

/// Counts the reads of the wires `ws`.
fn release_wires(usage: &mut Vec<u8>, active: &mut HashMap<u32, ()>, ws: &Vec<u32>)
    ensures
        (final(usage)@, final(active)@) == release_all(old(usage)@, old(active)@, ws@),
{
    let mut i: usize = 0;
    while i < ws.len()
        invariant
            i <= ws@.len(),
            (usage@, active@) == release_all(old(usage)@, old(active)@, ws@.take(i as int)),
        decreases ws@.len() - i,
    {
        proof {
            assert(ws@.take(i + 1).drop_last() == ws@.take(i as int));
            assert(ws@.take(i + 1).last() == ws@[i as int]);
        }
        let w: u32 = ws[i];
        if (w as usize) < usage.len() {
            release_wire(usage, active, w);
        }
        i += 1;
    }
    proof {
        assert(ws@.take(i as int) == ws@);
    }
}

/// Makes the wires `ws` live.
fn insert_wires(active: &mut HashMap<u32, ()>, ws: &Vec<u32>)
    ensures
        final(active)@ == insert_all(old(active)@, ws@),
{
    let mut i: usize = 0;
    while i < ws.len()
        invariant
            i <= ws@.len(),
            active@ == insert_all(old(active)@, ws@.take(i as int)),
        decreases ws@.len() - i,
    {
        proof {
            assert(ws@.take(i + 1).drop_last() == ws@.take(i as int));
            assert(ws@.take(i + 1).last() == ws@[i as int]);
        }
        active.insert(ws[i], ());
        i += 1;
    }
    proof {
        assert(ws@.take(i as int) == ws@);
    }
}

/// Simulates the execution of a circuit text with the usage report of its analysis, and
/// reports how many wires are live on the way.
///
/// Gate lines are numbered from 1, the header not counted. Gates of any kind and any number of
/// inputs and outputs are accepted. A wire without a counter is never dropped.
pub fn simulate_memory_usage(text: &[u8], wire_report: &WireUsageReport) -> (r: Result<
    MemorySimulationReport,
    CircuitError,
>)
    ensures
        match circuit_gates(text@) {
            Err(e) => r == Err::<MemorySimulationReport, CircuitError>(e),
            Ok(gates) => r is Ok && {
                let s = simulate_gates(
                    initial_memory(
                        wire_report.wire_usage_counts@,
                        wire_report.primary_input_wires@,
                    ),
                    gates,
                );
                &&& r->Ok_0.max_live_wires == s.max_live
                &&& r->Ok_0.final_live_wires == s.active.len()
                &&& r->Ok_0.total_gates_processed == gates.len()
                &&& r->Ok_0.snapshots@ == s.snapshots
            },
        },
{
    let ranges = split_lines(text);
    if ranges.len() == 0 {
        return Err(CircuitError::MissingHeader);
    }
    match parse_header(piece(text, ranges[0])) {
        Err(e) => {
            return Err(e);
        },
        Ok(_) => {},
    }
    let ghost ls = lines(text@);
    let ghost gl = ls.drop_first();
    let ghost init = initial_memory(
        wire_report.wire_usage_counts@,
        wire_report.primary_input_wires@,
    );
    let ghost mut gates: Seq<GateSpec> = Seq::empty();
    let mut usage: Vec<u8> = slice_to_vec(wire_report.wire_usage_counts.as_slice());
    let mut active: HashMap<u32, ()> = HashMap::new();
    insert_wires(&mut active, &wire_report.primary_input_wires);
    let mut max_live: usize = active.len();
    let mut snapshots: Vec<MemorySnapshot> = Vec::new();
    let mut k: usize = 1;
    while k < ranges.len()
        invariant
            1 <= k <= ranges.len(),
            ranges_are_lines(text@, ranges@),
            ls == lines(text@),
            gl == ls.drop_first(),
            ls.len() == ranges.len(),
            init == initial_memory(
                wire_report.wire_usage_counts@,
                wire_report.primary_input_wires@,
            ),
            crate::bristol::parse_header_tokens(tokens(ls[0])) is Ok,
            parse_gate_lines(gl.take(k - 1), crate::bristol::no_bound(), 0) == Ok::<
                Seq<GateSpec>,
                CircuitError,
            >(gates),
            gates.len() == k - 1,
            simulate_gates(init, gates) == (MemoryState {
                usage: usage@,
                active: active@,
                max_live: max_live as nat,
                snapshots: snapshots@,
            }),
        decreases ranges.len() - k,
    {
        let line = piece(text, ranges[k]);
        proof {
            assert(gl.take(k as int).drop_last() == gl.take(k - 1));
            assert(gl.take(k as int).last() == ls[k as int]);
            assert(gl.take(k as int).len() == k);
            assert(ls[k as int] == line@);
            lemma_parse_gate_lines_err(gl, k as int, crate::bristol::no_bound(), 0);
        }
        let gate: Gate = match parse_gate_line(line) {
            Err(e) => {
                return Err(CircuitError::Gate { line: k as u64, error: e });
            },
            Ok(g) => g,
        };
        proof {
            assert(gates.push(gate@).drop_last() == gates);
            gates = gates.push(gate@);
        }
        release_wires(&mut usage, &mut active, &gate.inputs);
        insert_wires(&mut active, &gate.outputs);
        let live: usize = active.len();
        if live > max_live {
            max_live = live;
        }
        if (k - 1) % (PROGRESS_UPDATE_INTERVAL as usize) == 0 {
            snapshots.push(MemorySnapshot { gate_number: k, live_wire_count: live });
        }
        k += 1;
    }
    proof {
        assert(gl.take(k - 1) == gl);
    }
    Ok(
        MemorySimulationReport {
            max_live_wires: max_live,
            final_live_wires: active.len(),
            total_gates_processed: k - 1,
            snapshots,
        },
    )
}

} // verus!
