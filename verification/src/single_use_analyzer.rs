//! Counts the wires that are read exactly once, by the kind of gate that produces them.

use crate::bristol::{
    is_and, is_xor, kind_and, kind_xor, lemma_gate_token_count, no_bound, parse_gate,
    parse_gate_line, parse_header, parse_header_tokens, CircuitError, Gate, GateSpec,
};
use crate::text::{
    lemma_tokens_count, lines, piece, ranges_are_lines, split_lines, tokens,
};
use crate::wire_analyzer::{lemma_parse_gate_lines_err, parse_gate_lines, WireUsageReport};
use vstd::prelude::*;

verus! {

/// How many single-use wires a circuit has, and how many gates of each kind produce one.
#[derive(Debug, Clone, Copy, PartialEq, Eq)]
pub struct SingleUseGateAnalysis {
    /// Number of `AND` gates with an output that is read exactly once.
    pub single_use_and_gates: usize,
    /// Number of `XOR` gates with an output that is read exactly once.
    pub single_use_xor_gates: usize,
    /// Number of gate outputs that are read exactly once.
    pub total_single_use_wires: usize,
}

/// How many of the wires `outputs` have a counter that stands at 1.
pub open spec fn single_use_outputs(usage: Seq<u8>, outputs: Seq<u32>) -> nat
    decreases outputs.len(),
{
    if outputs.len() == 0 {
        0
    } else {
        single_use_outputs(usage, outputs.drop_last()) + if outputs.last() < usage.len()
            && usage[outputs.last() as int] == 1 {
            1nat
        } else {
            0nat
        }
    }
}

/// How many outputs of the gates are read exactly once.
pub open spec fn single_use_wires(usage: Seq<u8>, gates: Seq<GateSpec>) -> nat
    decreases gates.len(),
{
    if gates.len() == 0 {
        0
    } else {
        single_use_wires(usage, gates.drop_last()) + single_use_outputs(
            usage,
            gates.last().outputs,
        )
    }
}

/// How many gates of kind `kind` have an output that is read exactly once.
pub open spec fn single_use_gates(usage: Seq<u8>, gates: Seq<GateSpec>, kind: Seq<u8>) -> nat
    decreases gates.len(),
{
    if gates.len() == 0 {
        0
    } else {
        single_use_gates(usage, gates.drop_last(), kind) + if gates.last().kind == kind
            && single_use_outputs(usage, gates.last().outputs) > 0 {
            1nat
        } else {
            0nat
        }
    }
}

/// The gates of a circuit text whose header is checked and whose gate lines, numbered from 1,
/// are all well-formed; or the first fault.
pub open spec fn circuit_gates(text: Seq<u8>) -> Result<Seq<GateSpec>, CircuitError> {
    let ls = lines(text);
    if ls.len() == 0 {
        Err(CircuitError::MissingHeader)
    } else {
        match parse_header_tokens(tokens(ls[0])) {
            Err(e) => Err(e),
            Ok(_) => parse_gate_lines(ls.drop_first(), no_bound(), 0),
        }
    }
}

/// Counts the outputs of one gate that are read exactly once.
fn count_single_use_outputs(usage: &Vec<u8>, outputs: &Vec<u32>) -> (count: usize)
    ensures
        count == single_use_outputs(usage@, outputs@),
        count <= outputs@.len(),
{
    let mut count: usize = 0;
    let mut j: usize = 0;
    while j < outputs.len()
        invariant
            j <= outputs@.len(),
            count <= j,
            count == single_use_outputs(usage@, outputs@.take(j as int)),
        decreases outputs@.len() - j,
    {
        proof {
            assert(outputs@.take(j + 1).drop_last() == outputs@.take(j as int));
            assert(outputs@.take(j + 1).last() == outputs@[j as int]);
        }
        let w: usize = outputs[j] as usize;
        if w < usage.len() && usage[w] == 1 {
            count += 1;
        }
        j += 1;
    }
    proof {
        assert(outputs@.take(j as int) == outputs@);
    }
    count
}

/// Counts, for a circuit text and the usage report of its analysis, all gate outputs that are
/// read exactly once, and the `AND` and `XOR` gates that have such an output.
///
/// Gate lines are numbered from 1, the header not counted. Gates of other kinds are accepted
/// and count for the wires only.
#[verifier::rlimit(50)]
pub fn analyze_single_use_gates(text: &[u8], wire_report: &WireUsageReport) -> (r: Result<
    SingleUseGateAnalysis,
    CircuitError,
>)
    ensures
        match circuit_gates(text@) {
            Err(e) => r == Err::<SingleUseGateAnalysis, CircuitError>(e),
            Ok(gates) => r is Ok && {
                let usage = wire_report.wire_usage_counts@;
                &&& r->Ok_0.total_single_use_wires == single_use_wires(usage, gates)
                &&& r->Ok_0.single_use_and_gates == single_use_gates(usage, gates, kind_and())
                &&& r->Ok_0.single_use_xor_gates == single_use_gates(usage, gates, kind_xor())
            },
        },
{
    let ranges = split_lines(text);
    if ranges.len() == 0 {
        return Err(CircuitError::MissingHeader);
    }
    match parse_header(piece(text, ranges[0])) {
        Err(e) => {
            return Err(e);
        },
        Ok(_) => {},
    }
    let ghost ls = lines(text@);
    let ghost gl = ls.drop_first();
    let ghost usage = wire_report.wire_usage_counts@;
    let ghost mut gates: Seq<GateSpec> = Seq::empty();
    let mut and_gates: usize = 0;
    let mut xor_gates: usize = 0;
    let mut wires: usize = 0;
    let mut k: usize = 1;
    while k < ranges.len()
        invariant
            1 <= k <= ranges.len(),
            ranges_are_lines(text@, ranges@),
            ls == lines(text@),
            gl == ls.drop_first(),
            ls.len() == ranges.len(),
            usage == wire_report.wire_usage_counts@,
            parse_header_tokens(tokens(ls[0])) is Ok,
            parse_gate_lines(gl.take(k - 1), no_bound(), 0) == Ok::<Seq<GateSpec>, CircuitError>(
                gates,
            ),
            wires == single_use_wires(usage, gates),
            and_gates == single_use_gates(usage, gates, kind_and()),
            xor_gates == single_use_gates(usage, gates, kind_xor()),
            and_gates <= k - 1,
            xor_gates <= k - 1,
            wires <= ranges[k - 1].1,
        decreases ranges.len() - k,
    {
        let line = piece(text, ranges[k]);
        proof {
            assert(gl.take(k as int).drop_last() == gl.take(k - 1));
            assert(gl.take(k as int).last() == ls[k as int]);
            assert(gl.take(k as int).len() == k);
            assert(ls[k as int] == line@);
            lemma_parse_gate_lines_err(gl, k as int, no_bound(), 0);
            lemma_gate_token_count(tokens(line@), no_bound());
            lemma_tokens_count(line@, 0);
        }
        let gate: Gate = match parse_gate_line(line) {
            Err(e) => {
                return Err(CircuitError::Gate { line: k as u64, error: e });
            },
            Ok(g) => g,
        };
        let singles: usize = count_single_use_outputs(&wire_report.wire_usage_counts, &gate.outputs);
        proof {
            assert(gates.push(gate@).drop_last() == gates);
            gates = gates.push(gate@);
        }
        wires = wires + singles;
        if singles > 0 {
            if is_and(&gate.gate_type) {
                and_gates = and_gates + 1;
            } else if is_xor(&gate.gate_type) {
                xor_gates = xor_gates + 1;
            }
        }
        k += 1;
    }
    proof {
        assert(gl.take(k - 1) == gl);
    }
    Ok(
        SingleUseGateAnalysis {
            single_use_and_gates: and_gates,
            single_use_xor_gates: xor_gates,
            total_single_use_wires: wires,
        },
    )
}

} // verus!
