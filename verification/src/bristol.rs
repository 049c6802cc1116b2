//! The Bristol circuit format: a header line `num_gates num_wires`, then one gate per line,
//! `k_in k_out in_1 .. in_k out_1 .. out_k KIND`.

use crate::text::{parse_u32, parse_u32_token, piece, ranges_are_tokens, tokenize, tokens};
use vstd::prelude::*;
use vstd::slice::slice_to_vec;

verus! {

/// Why a gate line is malformed.
#[derive(Debug, Clone, Copy, PartialEq, Eq)]
pub enum GateLineError {
    /// The line holds no token.
    Empty,
    /// The first token is no number.
    InvalidNumInputs,
    /// The line ends after the number of inputs.
    MissingNumOutputs,
    /// The second token is no number.
    InvalidNumOutputs,
    /// The line ends before the wire with this index (from 0, among the inputs or the outputs).
    MissingWire { output: bool, index: u32 },
    /// The token of the wire with this index is no number.
    InvalidWire { output: bool, index: u32 },
    /// The wire id is not below the number of wires.
    WireOutOfRange { output: bool, wire: u32 },
    /// The line ends before its gate kind.
    MissingGateType,
    /// Tokens follow a gate's kind.
    TooManyTokens,
    /// A line of the compact reader does not hold exactly six tokens, but this many.
    TokenCount { count: u64 },
    /// A line of the compact reader does not declare two inputs and one output.
    UnsupportedArity,
    /// A line of the compact reader has a kind that is neither `XOR` nor `AND`.
    UnsupportedKind,
}

/// Why a circuit cannot be processed.
#[derive(Debug, Clone, Copy, PartialEq, Eq)]
pub enum CircuitError {
    /// The text holds no line at all.
    MissingHeader,
    /// The header does not hold exactly two tokens.
    InvalidHeader,
    /// The header's first token is no number.
    InvalidNumGates,
    /// The header's second token is no number.
    InvalidNumWires,
    /// The line with this number is no well-formed gate line.
    Gate { line: u64, error: GateLineError },
    /// This line's gate kind is neither `XOR` nor `AND`.
    UnsupportedGate { line: u64 },
    /// This line's gate does not have two inputs and one output.
    WrongArity { line: u64 },
    /// This line's gate reads a wire that holds no value.
    InputNotFound { line: u64, wire: u32 },
    /// This line's gate names a wire that the usage counts do not cover.
    WireOutOfRange { line: u64, wire: u32 },
    /// This line's `AND` gate has no garbled table left.
    NotEnoughTables { line: u64 },
    /// This line's `AND` gate would need a label beyond the period of the label stream.
    LabelsExhausted { line: u64 },
    /// An output wire holds no value when the circuit ends.
    OutputNotFound { wire: u32 },
    /// An output wire that was asked for is not below the header's number of wires.
    OutputOutOfRange { wire: u32 },
    /// No bit was supplied for this primary input wire.
    MissingInputBit { wire: u32 },
    /// A table file of this many bytes does not consist of whole 64-byte records.
    InvalidTablesSize { size: u64 },
    /// A seed of this many bytes is not a seed: a seed has exactly 32 bytes.
    InvalidSeedLength { length: u64 },
}

/// The two numbers of a header line.
#[derive(Debug, Clone, Copy, PartialEq, Eq)]
pub struct Header {
    pub num_gates: u32,
    pub num_wires: u32,
}

/// A gate as a line states it: input wires, output wires and the kind token.
#[derive(Debug, PartialEq, Eq)]
pub struct Gate {
    pub inputs: Vec<u32>,
    pub outputs: Vec<u32>,
    pub gate_type: Vec<u8>,
}

/// The mathematical content of a [`Gate`].
pub struct GateSpec {
    pub inputs: Seq<u32>,
    pub outputs: Seq<u32>,
    pub kind: Seq<u8>,
}

impl View for Gate {
    type V = GateSpec;

    open spec fn view(&self) -> GateSpec {
        GateSpec { inputs: self.inputs@, outputs: self.outputs@, kind: self.gate_type@ }
    }
}

/// The kind token `XOR`.
pub open spec fn kind_xor() -> Seq<u8> {
    seq![88u8, 79u8, 82u8]
}

/// The kind token `AND`.
pub open spec fn kind_and() -> Seq<u8> {
    seq![65u8, 78u8, 68u8]
}

/// A bound that no wire id reaches: with it, no wire is out of range.
pub open spec fn no_bound() -> nat {
    0x1_0000_0000
}

/// The header that a line's tokens state.
pub open spec fn parse_header_tokens(toks: Seq<Seq<u8>>) -> Result<Header, CircuitError> {
    if toks.len() != 2 {
        Err(CircuitError::InvalidHeader)
    } else {
        match parse_u32(toks[0]) {
            None => Err(CircuitError::InvalidNumGates),
            Some(num_gates) => match parse_u32(toks[1]) {
                None => Err(CircuitError::InvalidNumWires),
                Some(num_wires) => Ok(Header { num_gates, num_wires }),
            },
        }
    }
}

/// The wire ids that the tokens `first + i ..` state for `i` up to `count`, or the first fault
/// met: a token that is missing, is no number, or is not below `bound`.
pub open spec fn parse_wires(
    toks: Seq<Seq<u8>>,
    first: int,
    count: nat,
    bound: nat,
    output: bool,
    i: nat,
) -> Result<Seq<u32>, GateLineError>
    decreases count - i,
{
    if i >= count {
        Ok(Seq::empty())
    } else if first + i >= toks.len() {
        Err(GateLineError::MissingWire { output, index: i as u32 })
    } else {
        match parse_u32(toks[first + i]) {
            None => Err(GateLineError::InvalidWire { output, index: i as u32 }),
            Some(w) => if w >= bound {
                Err(GateLineError::WireOutOfRange { output, wire: w })
            } else {
                match parse_wires(toks, first, count, bound, output, i + 1) {
                    Ok(rest) => Ok(seq![w] + rest),
                    Err(e) => Err(e),
                }
            },
        }
    }
}

/// What gate a line's tokens state, or the first fault met when reading them from the left.
/// Every wire id must be below `bound`.
pub open spec fn parse_gate_tokens(toks: Seq<Seq<u8>>, bound: nat) -> Result<
    GateSpec,
    GateLineError,
> {
    if toks.len() == 0 {
        Err(GateLineError::Empty)
    } else {
        match parse_u32(toks[0]) {
            None => Err(GateLineError::InvalidNumInputs),
            Some(n_in) => if toks.len() < 2 {
                Err(GateLineError::MissingNumOutputs)
            } else {
                match parse_u32(toks[1]) {
                    None => Err(GateLineError::InvalidNumOutputs),
                    Some(n_out) => match parse_wires(toks, 2, n_in as nat, bound, false, 0) {
                        Err(e) => Err(e),
                        Ok(inputs) => match parse_wires(
                            toks,
                            2 + n_in,
                            n_out as nat,
                            bound,
                            true,
                            0,
                        ) {
                            Err(e) => Err(e),
                            Ok(outputs) => {
                                let k = 2 + n_in + n_out;
                                if toks.len() <= k {
                                    Err(GateLineError::MissingGateType)
                                } else if toks.len() > k + 1 {
                                    Err(GateLineError::TooManyTokens)
                                } else {
                                    Ok(GateSpec { inputs, outputs, kind: toks[k] })
                                }
                            },
                        },
                    },
                }
            },
        }
    }
}

/// Wires that are read without a fault are as many as were asked for, and their tokens exist.
pub proof fn lemma_parse_wires_count(
    toks: Seq<Seq<u8>>,
    first: int,
    count: nat,
    bound: nat,
    output: bool,
    i: nat,
)
    requires
        i <= count,
    ensures
        parse_wires(toks, first, count, bound, output, i) matches Ok(ws) ==> ws.len() == count - i
            && (i < count ==> first + count <= toks.len()),
    decreases count - i,
{
    if i < count && first + i < toks.len() {
        lemma_parse_wires_count(toks, first, count, bound, output, i + 1);
    }
}

/// A well-formed gate line holds two counts, its wires and its kind, and nothing else.
pub proof fn lemma_gate_token_count(toks: Seq<Seq<u8>>, bound: nat)
    ensures
        parse_gate_tokens(toks, bound) matches Ok(g) ==> g.inputs.len() + g.outputs.len() + 3
            == toks.len(),
{
    if toks.len() >= 2 {
        if let Some(n_in) = parse_u32(toks[0]) {
            if let Some(n_out) = parse_u32(toks[1]) {
                lemma_parse_wires_count(toks, 2, n_in as nat, bound, false, 0);
                lemma_parse_wires_count(toks, 2 + n_in, n_out as nat, bound, true, 0);
            }
        }
    }
}

/// What gate a line states, with no bound on its wire ids.
pub open spec fn parse_gate(line: Seq<u8>) -> Result<GateSpec, GateLineError> {
    parse_gate_tokens(tokens(line), no_bound())
}

/// Reads a header line.
pub fn parse_header(line: &[u8]) -> (r: Result<Header, CircuitError>)
    ensures
        r == parse_header_tokens(tokens(line@)),
{
    let ranges = tokenize(line);
    if ranges.len() != 2 {
        return Err(CircuitError::InvalidHeader);
    }
    let num_gates = match parse_u32_token(line, ranges[0].0, ranges[0].1) {
        None => {
            return Err(CircuitError::InvalidNumGates);
        },
        Some(n) => n,
    };
    let num_wires = match parse_u32_token(line, ranges[1].0, ranges[1].1) {
        None => {
            return Err(CircuitError::InvalidNumWires);
        },
        Some(n) => n,
    };
    Ok(Header { num_gates, num_wires })
}

/// Reads `count` wire ids from the tokens of `line`, starting with token `first`.
fn read_wires(
    line: &[u8],
    ranges: &Vec<(usize, usize)>,
    first: usize,
    count: u32,
    bound: u64,
    output: bool,
) -> (r: Result<Vec<u32>, GateLineError>)
    requires
        ranges_are_tokens(line@, ranges@),
        first <= ranges.len(),
    ensures
        match parse_wires(tokens(line@), first as int, count as nat, bound as nat, output, 0) {
            Ok(ws) => r is Ok && r->Ok_0@ == ws && ws.len() == count && first + count
                <= ranges.len(),
            Err(e) => r == Err::<Vec<u32>, GateLineError>(e),
        },
{
    let ghost toks = tokens(line@);
    let mut wires: Vec<u32> = Vec::new();
    let mut i: u32 = 0;
    while i < count
        invariant
            ranges_are_tokens(line@, ranges@),
            toks == tokens(line@),
            first <= ranges.len(),
            i <= count,
            wires.len() == i,
            first + i <= ranges.len(),
            parse_wires(toks, first as int, count as nat, bound as nat, output, 0) == (
            match parse_wires(toks, first as int, count as nat, bound as nat, output, i as nat) {
                Ok(rest) => Ok(wires@ + rest),
                Err(e) => Err(e),
            }),
        decreases count - i,
    {
        let idx_ok = (i as usize) < ranges.len() - first;
        if !idx_ok {
            return Err(GateLineError::MissingWire { output, index: i });
        }
        let (start, end) = ranges[first + i as usize];
        let w = match parse_u32_token(line, start, end) {
            None => {
                return Err(GateLineError::InvalidWire { output, index: i });
            },
            Some(w) => w,
        };
        if w as u64 >= bound {
            return Err(GateLineError::WireOutOfRange { output, wire: w });
        }
        proof {
            let rest = parse_wires(
                toks,
                first as int,
                count as nat,
                bound as nat,
                output,
                (i + 1) as nat,
            );
            if rest is Ok {
                assert(wires@ + (seq![w] + rest->Ok_0) == wires@.push(w) + rest->Ok_0);
            }
        }
        wires.push(w);
        i += 1;
    }
    proof {
        assert(wires@ + Seq::<u32>::empty() == wires@);
    }
    Ok(wires)
}

/// Reads a gate line whose wire ids must all be below `bound`.
pub fn parse_gate_line_bounded(line: &[u8], bound: u64) -> (r: Result<Gate, GateLineError>)
    ensures
        match parse_gate_tokens(tokens(line@), bound as nat) {
            Ok(g) => r is Ok && r->Ok_0@ == g,
            Err(e) => r == Err::<Gate, GateLineError>(e),
        },
{
    let ranges = tokenize(line);
    let n = ranges.len();
    if n == 0 {
        return Err(GateLineError::Empty);
    }
    let n_in = match parse_u32_token(line, ranges[0].0, ranges[0].1) {
        None => {
            return Err(GateLineError::InvalidNumInputs);
        },
        Some(k) => k,
    };
    if n < 2 {
        return Err(GateLineError::MissingNumOutputs);
    }
    let n_out = match parse_u32_token(line, ranges[1].0, ranges[1].1) {
        None => {
            return Err(GateLineError::InvalidNumOutputs);
        },
        Some(k) => k,
    };
    let inputs = match read_wires(line, &ranges, 2, n_in, bound, false) {
        Err(e) => {
            return Err(e);
        },
        Ok(ws) => ws,
    };
    let outputs = match read_wires(line, &ranges, 2 + n_in as usize, n_out, bound, true) {
        Err(e) => {
            return Err(e);
        },
        Ok(ws) => ws,
    };
    let k = 2 + n_in as usize + n_out as usize;
    if n <= k {
        return Err(GateLineError::MissingGateType);
    }
    if n > k + 1 {
        return Err(GateLineError::TooManyTokens);
    }
    let gate_type: Vec<u8> = slice_to_vec(piece(line, ranges[k]));
    Ok(Gate { inputs, outputs, gate_type })
}

/// Reads a gate line.
pub fn parse_gate_line(line: &[u8]) -> (r: Result<Gate, GateLineError>)
    ensures
        match parse_gate(line@) {
            Ok(g) => r is Ok && r->Ok_0@ == g,
            Err(e) => r == Err::<Gate, GateLineError>(e),
        },
{
    parse_gate_line_bounded(line, 0x1_0000_0000)
}

/// The two gate kinds that can be garbled.
#[derive(Debug, Clone, Copy, PartialEq, Eq)]
pub enum GateType {
    XOR,
    AND,
}

/// A gate with two inputs `a`, `b` and one output `c`.
#[derive(Debug, Clone, Copy, PartialEq, Eq)]
pub struct BinaryGate {
    pub kind: GateType,
    pub a: u32,
    pub b: u32,
    pub c: u32,
}

/// A gate as a two-input gate: its kind must be `XOR` or `AND`, and it must then have two
/// inputs and one output.
pub open spec fn binary_gate(g: GateSpec, line: u64) -> Result<BinaryGate, CircuitError> {
    if g.kind == kind_xor() || g.kind == kind_and() {
        if g.inputs.len() != 2 || g.outputs.len() != 1 {
            Err(CircuitError::WrongArity { line })
        } else {
            Ok(
                BinaryGate {
                    kind: if g.kind == kind_xor() {
                        GateType::XOR
                    } else {
                        GateType::AND
                    },
                    a: g.inputs[0],
                    b: g.inputs[1],
                    c: g.outputs[0],
                },
            )
        }
    } else {
        Err(CircuitError::UnsupportedGate { line })
    }
}

/// The two-input gate that a line states; `line_no` is the number that a fault is reported with.
pub open spec fn parse_binary_gate(line: Seq<u8>, line_no: u64) -> Result<BinaryGate, CircuitError> {
    match parse_gate(line) {
        Err(e) => Err(CircuitError::Gate { line: line_no, error: e }),
        Ok(g) => binary_gate(g, line_no),
    }
}

/// Reads a line as a two-input `XOR` or `AND` gate.
pub fn read_binary_gate(line: &[u8], line_no: u64) -> (r: Result<BinaryGate, CircuitError>)
    ensures
        r == parse_binary_gate(line@, line_no),
{
    let gate = match parse_gate_line(line) {
        Err(e) => {
            return Err(CircuitError::Gate { line: line_no, error: e });
        },
        Ok(g) => g,
    };
    let xor: bool = is_xor(&gate.gate_type);
    let and: bool = is_and(&gate.gate_type);
    if !xor && !and {
        return Err(CircuitError::UnsupportedGate { line: line_no });
    }
    if gate.inputs.len() != 2 || gate.outputs.len() != 1 {
        return Err(CircuitError::WrongArity { line: line_no });
    }
    Ok(
        BinaryGate {
            kind: if xor {
                GateType::XOR
            } else {
                GateType::AND
            },
            a: gate.inputs[0],
            b: gate.inputs[1],
            c: gate.outputs[0],
        },
    )
}

/// Whether a kind token is `XOR`.
pub fn is_xor(kind: &Vec<u8>) -> (r: bool)
    ensures
        r == (kind@ == kind_xor()),
{
    let r = kind.len() == 3 && kind[0] == 88 && kind[1] == 79 && kind[2] == 82;
    proof {
        if r {
            assert(kind@ =~= kind_xor());
        }
    }
    r
}

/// Whether a kind token is `AND`.
pub fn is_and(kind: &Vec<u8>) -> (r: bool)
    ensures
        r == (kind@ == kind_and()),
{
    let r = kind.len() == 3 && kind[0] == 65 && kind[1] == 78 && kind[2] == 68;
    proof {
        if r {
            assert(kind@ =~= kind_and());
        }
    }
    r
}

} // verus!
