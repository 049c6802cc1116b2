//! The plain evaluator: runs a circuit on bits, as the reference that the garbled path is held
//! against.

use crate::bristol::{
    binary_gate, is_and, is_xor, parse_gate, parse_gate_line, parse_header, parse_header_tokens,
    BinaryGate, CircuitError, GateLineError, GateType, Header,
};
use crate::text::{
    lines, parse_u32, parse_u32_token, piece, ranges_are_lines, split_lines, tokenize, tokens,
};
use std::collections::HashMap;
use vstd::prelude::*;

verus! {

broadcast use vstd::std_specs::hash::group_hash_axioms;

/// What evaluating a circuit on bits gives.
#[derive(Debug, PartialEq, Eq)]
pub struct PlainEvaluationResult {
    /// For each wire that was asked for, its bit.
    pub output_results: HashMap<u32, bool>,
}

/// Whether a gate line declares two inputs and one output. The line's first two tokens must be
/// numbers for this to be asked.
pub open spec fn declares_binary(toks: Seq<Seq<u8>>) -> bool {
    toks.len() >= 2 && parse_u32(toks[0]) == Some(2u32) && parse_u32(toks[1]) == Some(1u32)
}

/// Whether a fault of a gate line lies in its first two tokens.
pub open spec fn is_arity_fault(e: GateLineError) -> bool {
    e is Empty || e is InvalidNumInputs || e is MissingNumOutputs || e is InvalidNumOutputs
}

/// The two-input gate that a line states, as the plain evaluator reads it: the numbers of
/// inputs and outputs are looked at first and must be 2 and 1; then the wires are read; the
/// kind comes last and must be `XOR` or `AND`.
pub open spec fn parse_plain_gate(line: Seq<u8>, line_no: u64) -> Result<BinaryGate, CircuitError> {
    let toks = tokens(line);
    match parse_gate(line) {
        Err(e) => if is_arity_fault(e) || declares_binary(toks) {
            Err(CircuitError::Gate { line: line_no, error: e })
        } else {
            Err(CircuitError::WrongArity { line: line_no })
        },
        Ok(g) => if declares_binary(toks) {
            binary_gate(g, line_no)
        } else {
            Err(CircuitError::WrongArity { line: line_no })
        },
    }
}

/// The numbers of inputs and outputs that a line declares, if its first two tokens are numbers.
fn declared_arity(line: &[u8]) -> (r: Option<(u32, u32)>)
    ensures
        match r {
            Some((n_in, n_out)) => tokens(line@).len() >= 2 && parse_u32(tokens(line@)[0]) == Some(
                n_in,
            ) && parse_u32(tokens(line@)[1]) == Some(n_out),
            None => tokens(line@).len() < 2 || parse_u32(tokens(line@)[0]) is None || parse_u32(
                tokens(line@)[1],
            ) is None,
        },
{
    let ranges = tokenize(line);
    if ranges.len() < 2 {
        return None;
    }
    match parse_u32_token(line, ranges[0].0, ranges[0].1) {
        None => None,
        Some(n_in) => match parse_u32_token(line, ranges[1].0, ranges[1].1) {
            None => None,
            Some(n_out) => Some((n_in, n_out)),
        },
    }
}

/// Reads a line as the plain evaluator does.
pub fn read_plain_gate(line: &[u8], line_no: u64) -> (r: Result<BinaryGate, CircuitError>)
    ensures
        r == parse_plain_gate(line@, line_no),
{
    let parsed = parse_gate_line(line);
    let binary: bool = match declared_arity(line) {
        Some((n_in, n_out)) => n_in == 2 && n_out == 1,
        None => false,
    };
    match parsed {
        Err(e) => {
            let arity_fault: bool = match e {
                GateLineError::Empty => true,
                GateLineError::InvalidNumInputs => true,
                GateLineError::MissingNumOutputs => true,
                GateLineError::InvalidNumOutputs => true,
                _ => false,
            };
            if arity_fault || binary {
                Err(CircuitError::Gate { line: line_no, error: e })
            } else {
                Err(CircuitError::WrongArity { line: line_no })
            }
        },
        Ok(gate) => {
            if !binary {
                return Err(CircuitError::WrongArity { line: line_no });
            }
            let xor: bool = is_xor(&gate.gate_type);
            let and: bool = is_and(&gate.gate_type);
            if !xor && !and {
                return Err(CircuitError::UnsupportedGate { line: line_no });
            }
            if gate.inputs.len() != 2 || gate.outputs.len() != 1 {
                return Err(CircuitError::WrongArity { line: line_no });
            }
            Ok(
                BinaryGate {
                    kind: if xor {
                        GateType::XOR
                    } else {
                        GateType::AND
                    },
                    a: gate.inputs[0],
                    b: gate.inputs[1],
                    c: gate.outputs[0],
                },
            )
        },
    }
}

/// The bit that a gate of kind `kind` gives for the input bits `a` and `b`.
pub open spec fn gate_bit(kind: GateType, a: bool, b: bool) -> bool {
    match kind {
        GateType::XOR => a != b,
        GateType::AND => a && b,
    }
}

/// The bits of the wires after one gate, or why that gate is refused: each of its wires must
/// be below `num_wires`, and both inputs must have a bit.
pub open spec fn plain_gate(num_wires: u32, values: Map<u32, bool>, g: BinaryGate, line: u64) -> Result<
    Map<u32, bool>,
    CircuitError,
> {
    if g.a >= num_wires {
        Err(CircuitError::WireOutOfRange { line, wire: g.a })
    } else if !values.contains_key(g.a) {
        Err(CircuitError::InputNotFound { line, wire: g.a })
    } else if g.b >= num_wires {
        Err(CircuitError::WireOutOfRange { line, wire: g.b })
    } else if !values.contains_key(g.b) {
        Err(CircuitError::InputNotFound { line, wire: g.b })
    } else if g.c >= num_wires {
        Err(CircuitError::WireOutOfRange { line, wire: g.c })
    } else {
        Ok(values.insert(g.c, gate_bit(g.kind, values[g.a], values[g.b])))
    }
}

/// The bits of the wires after one gate line.
pub open spec fn plain_line(num_wires: u32, values: Map<u32, bool>, line: Seq<u8>, line_no: u64) -> Result<
    Map<u32, bool>,
    CircuitError,
> {
    match parse_plain_gate(line, line_no) {
        Err(e) => Err(e),
        Ok(g) => plain_gate(num_wires, values, g, line_no),
    }
}

/// The bits of the wires after gate lines `ls`, numbered from 1, or the first fault.
pub open spec fn plain_lines(num_wires: u32, init: Map<u32, bool>, ls: Seq<Seq<u8>>) -> Result<
    Map<u32, bool>,
    CircuitError,
>
    decreases ls.len(),
{
    if ls.len() == 0 {
        Ok(init)
    } else {
        match plain_lines(num_wires, init, ls.drop_last()) {
            Err(e) => Err(e),
            Ok(values) => plain_line(num_wires, values, ls.last(), ls.len() as u64),
        }
    }
}

/// The bits of the wires `outputs`, or the first wire of the list that is not below `num_wires`
/// or has no bit.
pub open spec fn collect_bits(num_wires: u32, values: Map<u32, bool>, outputs: Seq<u32>) -> Result<
    Map<u32, bool>,
    CircuitError,
>
    decreases outputs.len(),
{
    if outputs.len() == 0 {
        Ok(Map::empty())
    } else {
        match collect_bits(num_wires, values, outputs.drop_last()) {
            Err(e) => Err(e),
            Ok(m) => if outputs.last() >= num_wires {
                Err(CircuitError::OutputOutOfRange { wire: outputs.last() })
            } else if !values.contains_key(outputs.last()) {
                Err(CircuitError::OutputNotFound { wire: outputs.last() })
            } else {
                Ok(m.insert(outputs.last(), values[outputs.last()]))
            },
        }
    }
}

/// What the circuit `text` computes on the input bits `input_bits`, for the wires `outputs`.
pub open spec fn plain_evaluation(text: Seq<u8>, input_bits: Map<u32, bool>, outputs: Seq<u32>) -> Result<
    Map<u32, bool>,
    CircuitError,
> {
    let ls = lines(text);
    if ls.len() == 0 {
        Err(CircuitError::MissingHeader)
    } else {
        match parse_header_tokens(tokens(ls[0])) {
            Err(e) => Err(e),
            Ok(h) => match plain_lines(h.num_wires, input_bits, ls.drop_first()) {
                Err(e) => Err(e),
                Ok(values) => collect_bits(h.num_wires, values, outputs),
            },
        }
    }
}

/// A plain evaluation in progress: feed it gate lines one by one, then ask for the bits.
pub struct PlainEvaluator {
    num_wires: u32,
    values: HashMap<u32, bool>,
}

impl PlainEvaluator {
    /// The number of wires that the header declares.
    pub closed spec fn num_wires(&self) -> u32 {
        self.num_wires
    }

    /// The bits known at this point.
    pub closed spec fn values(&self) -> Map<u32, bool> {
        self.values@
    }

    /// Starts an evaluation: reads the header line and takes the input bits.
    pub fn new(header_line: &[u8], input_bits: &HashMap<u32, bool>) -> (r: Result<
        PlainEvaluator,
        CircuitError,
    >)
        ensures
            match parse_header_tokens(tokens(header_line@)) {
                Err(e) => r == Err::<PlainEvaluator, CircuitError>(e),
                Ok(h) => r is Ok && r->Ok_0.num_wires() == h.num_wires && r->Ok_0.values()
                    == input_bits@,
            },
    {
        let header: Header = match parse_header(header_line) {
            Err(e) => {
                return Err(e);
            },
            Ok(h) => h,
        };
        Ok(PlainEvaluator { num_wires: header.num_wires, values: input_bits.clone() })
    }

    /// Evaluates one gate line. A refused line leaves the evaluation as it was.
    pub fn process_line(&mut self, line: &[u8], line_no: u64) -> (r: Result<(), CircuitError>)
        ensures
            final(self).num_wires() == old(self).num_wires(),
            match plain_line(old(self).num_wires(), old(self).values(), line@, line_no) {
                Err(e) => r == Err::<(), CircuitError>(e) && final(self).values() == old(
                    self,
                ).values(),
                Ok(values) => r is Ok && final(self).values() == values,
            },
    {
        let gate: BinaryGate = match read_plain_gate(line, line_no) {
            Err(e) => {
                return Err(e);
            },
            Ok(g) => g,
        };
        if gate.a >= self.num_wires {
            return Err(CircuitError::WireOutOfRange { line: line_no, wire: gate.a });
        }
        let a: bool = match self.values.get(&gate.a) {
            None => {
                return Err(CircuitError::InputNotFound { line: line_no, wire: gate.a });
            },
            Some(v) => *v,
        };
        if gate.b >= self.num_wires {
            return Err(CircuitError::WireOutOfRange { line: line_no, wire: gate.b });
        }
        let b: bool = match self.values.get(&gate.b) {
            None => {
                return Err(CircuitError::InputNotFound { line: line_no, wire: gate.b });
            },
            Some(v) => *v,
        };
        if gate.c >= self.num_wires {
            return Err(CircuitError::WireOutOfRange { line: line_no, wire: gate.c });
        }
        let out: bool = match gate.kind {
            GateType::XOR => a != b,
            GateType::AND => a && b,
        };
        self.values.insert(gate.c, out);
        Ok(())
    }

    /// Ends the evaluation: hands out the bits of the wires that are asked for.
    pub fn finish(self, output_wire_ids: &[u32]) -> (r: Result<PlainEvaluationResult, CircuitError>)
        ensures
            match collect_bits(self.num_wires(), self.values(), output_wire_ids@) {
                Err(e) => r == Err::<PlainEvaluationResult, CircuitError>(e),
                Ok(m) => r is Ok && r->Ok_0.output_results@ == m,
            },
    {
        let mut output_results: HashMap<u32, bool> = HashMap::new();
        let mut i: usize = 0;
        while i < output_wire_ids.len()
            invariant
                i <= output_wire_ids@.len(),
                collect_bits(self.num_wires, self.values@, output_wire_ids@.take(i as int)) == Ok::<
                    Map<u32, bool>,
                    CircuitError,
                >(output_results@),
            decreases output_wire_ids@.len() - i,
        {
            let w: u32 = output_wire_ids[i];
            proof {
                assert(output_wire_ids@.take(i + 1).drop_last() == output_wire_ids@.take(i as int));
                assert(output_wire_ids@.take(i + 1).last() == w);
                lemma_collect_bits_err(self.num_wires, self.values@, output_wire_ids@, i + 1);
            }
            if w >= self.num_wires {
                return Err(CircuitError::OutputOutOfRange { wire: w });
            }
            match self.values.get(&w) {
                None => {
                    return Err(CircuitError::OutputNotFound { wire: w });
                },
                Some(v) => {
                    output_results.insert(w, *v);
                },
            }
            i += 1;
        }
        proof {
            assert(output_wire_ids@.take(i as int) == output_wire_ids@);
        }
        Ok(PlainEvaluationResult { output_results })
    }
}

/// A fault among the first `k` outputs is the fault of the whole list.
pub proof fn lemma_collect_bits_err(
    num_wires: u32,
    values: Map<u32, bool>,
    outputs: Seq<u32>,
    k: int,
)
    requires
        0 <= k <= outputs.len(),
    ensures
        collect_bits(num_wires, values, outputs.take(k)) is Err ==> collect_bits(
            num_wires,
            values,
            outputs,
        ) == collect_bits(num_wires, values, outputs.take(k)),
    decreases outputs.len() - k,
{
    if k < outputs.len() {
        lemma_collect_bits_err(num_wires, values, outputs, k + 1);
        assert(outputs.take(k + 1).drop_last() == outputs.take(k));
    } else {
        assert(outputs.take(k) == outputs);
    }
}

/// A fault in the first `k` gate lines is the fault of all the lines.
pub proof fn lemma_plain_lines_err(num_wires: u32, init: Map<u32, bool>, ls: Seq<Seq<u8>>, k: int)
    requires
        0 <= k <= ls.len(),
    ensures
        plain_lines(num_wires, init, ls.take(k)) is Err ==> plain_lines(num_wires, init, ls)
            == plain_lines(num_wires, init, ls.take(k)),
    decreases ls.len() - k,
{
    if k < ls.len() {
        lemma_plain_lines_err(num_wires, init, ls, k + 1);
        assert(ls.take(k + 1).drop_last() == ls.take(k));
    } else {
        assert(ls.take(k) == ls);
    }
}

/// Evaluates a circuit text on input bits and hands out the bits of the wires
/// `output_wire_ids`.
///
/// Gate lines are numbered from 1, the header not counted. Every gate must be an `XOR` or `AND`
/// gate with two inputs and one output, over wires below the header's number of wires. An input
/// bit of a wire that the circuit does not have is never looked at.
pub fn evaluate_plain_circuit(
    text: &[u8],
    input_bits: &HashMap<u32, bool>,
    output_wire_ids: &[u32],
) -> (r: Result<PlainEvaluationResult, CircuitError>)
    ensures
        match plain_evaluation(text@, input_bits@, output_wire_ids@) {
            Err(e) => r == Err::<PlainEvaluationResult, CircuitError>(e),
            Ok(m) => r is Ok && r->Ok_0.output_results@ == m,
        },
{
    let ranges = split_lines(text);
    if ranges.len() == 0 {
        return Err(CircuitError::MissingHeader);
    }
    let ghost ls = lines(text@);
    let ghost gl = ls.drop_first();
    let mut evaluator = match PlainEvaluator::new(piece(text, ranges[0]), input_bits) {
        Err(e) => {
            return Err(e);
        },
        Ok(e) => e,
    };
    let ghost n = evaluator.num_wires();
    let mut k: usize = 1;
    while k < ranges.len()
        invariant
            1 <= k <= ranges.len(),
            ranges_are_lines(text@, ranges@),
            ls == lines(text@),
            gl == ls.drop_first(),
            ls.len() == ranges.len(),
            parse_header_tokens(tokens(ls[0])) is Ok,
            parse_header_tokens(tokens(ls[0]))->Ok_0.num_wires == n,
            evaluator.num_wires() == n,
            plain_lines(n, input_bits@, gl.take(k - 1)) == Ok::<Map<u32, bool>, CircuitError>(
                evaluator.values(),
            ),
        decreases ranges.len() - k,
    {
        let line = piece(text, ranges[k]);
        proof {
            assert(gl.take(k as int).drop_last() == gl.take(k - 1));
            assert(gl.take(k as int).last() == ls[k as int]);
            assert(gl.take(k as int).len() == k);
            assert(ls[k as int] == line@);
            lemma_plain_lines_err(n, input_bits@, gl, k as int);
        }
        match evaluator.process_line(line, k as u64) {
            Err(e) => {
                return Err(e);
            },
            Ok(()) => {},
        }
        k += 1;
    }
    proof {
        assert(gl.take(k - 1) == gl);
    }
    evaluator.finish(output_wire_ids)
}

} // verus!
