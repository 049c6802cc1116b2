//! The compact binary circuit format: gates of twelve bytes, packed in batches of eight gates
//! and one byte of gate kinds.

use crate::bristol::{kind_and, kind_xor, CircuitError, GateLineError};
use crate::text::{
    lines, parse_u32, parse_u32_token, parse_u64, parse_u64_token, piece, ranges_are_lines,
    split_lines, tokenize, tokens,
};
use vstd::prelude::*;

pub use crate::bristol::GateType;

verus! {

/// The four bytes of a 32-bit number, lowest byte first.
pub open spec fn le_bytes(x: u32) -> Seq<u8> {
    seq![
        (x & 0xff) as u8,
        ((x >> 8) & 0xff) as u8,
        ((x >> 16) & 0xff) as u8,
        ((x >> 24) & 0xff) as u8,
    ]
}

/// The 32-bit number with these four bytes, lowest byte first.
pub open spec fn from_le(b0: u8, b1: u8, b2: u8, b3: u8) -> u32 {
    (b0 as u32) | ((b1 as u32) << 8) | ((b2 as u32) << 16) | ((b3 as u32) << 24)
}

/// The four bytes of a number give the number back.
pub proof fn lemma_le_round_trip(x: u32)
    ensures
        from_le(le_bytes(x)[0], le_bytes(x)[1], le_bytes(x)[2], le_bytes(x)[3]) == x,
{
    assert(from_le(
        (x & 0xff) as u8,
        ((x >> 8) & 0xff) as u8,
        ((x >> 16) & 0xff) as u8,
        ((x >> 24) & 0xff) as u8,
    ) == x) by (bit_vector);
}

/// A number made of four bytes has these four bytes.
pub proof fn lemma_le_bytes_of(b0: u8, b1: u8, b2: u8, b3: u8)
    ensures
        le_bytes(from_le(b0, b1, b2, b3)) == seq![b0, b1, b2, b3],
{
    let x = from_le(b0, b1, b2, b3);
    assert((x & 0xff) as u8 == b0 && ((x >> 8) & 0xff) as u8 == b1 && ((x >> 16) & 0xff) as u8
        == b2 && ((x >> 24) & 0xff) as u8 == b3) by (bit_vector)
        requires
            x == (b0 as u32) | ((b1 as u32) << 8) | ((b2 as u32) << 16) | ((b3 as u32) << 24),
    ;
    assert(le_bytes(x) =~= seq![b0, b1, b2, b3]);
}

/// Splits a 32-bit number into its four bytes, lowest byte first.
pub fn u32_to_le(x: u32) -> (bytes: [u8; 4])
    ensures
        bytes@ == le_bytes(x),
{
    assert((x & 0xff) < 256 && ((x >> 8) & 0xff) < 256 && ((x >> 16) & 0xff) < 256 && ((x >> 24)
        & 0xff) < 256) by (bit_vector);
    let bytes: [u8; 4] = [
        (x & 0xff) as u8,
        ((x >> 8) & 0xff) as u8,
        ((x >> 16) & 0xff) as u8,
        ((x >> 24) & 0xff) as u8,
    ];
    assert(bytes@ =~= le_bytes(x));
    bytes
}

/// Joins four bytes, lowest byte first, to a 32-bit number.
pub fn u32_from_le(b0: u8, b1: u8, b2: u8, b3: u8) -> (x: u32)
    ensures
        x == from_le(b0, b1, b2, b3),
{
    (b0 as u32) | ((b1 as u32) << 8) | ((b2 as u32) << 16) | ((b3 as u32) << 24)
}

/// One gate of the compact format: two input wires and one output wire.
#[derive(Debug, Clone, Copy, PartialEq, Eq)]
pub struct CompactGate {
    pub input1: u32,
    pub input2: u32,
    pub output: u32,
}

impl CompactGate {
    /// The twelve bytes of a gate: the two inputs and the output, four bytes each, lowest byte
    /// first.
    pub open spec fn spec_to_bytes(self) -> Seq<u8> {
        le_bytes(self.input1) + le_bytes(self.input2) + le_bytes(self.output)
    }

    /// What gate twelve bytes stand for.
    pub open spec fn spec_from_bytes(bytes: Seq<u8>) -> CompactGate {
        CompactGate {
            input1: from_le(bytes[0], bytes[1], bytes[2], bytes[3]),
            input2: from_le(bytes[4], bytes[5], bytes[6], bytes[7]),
            output: from_le(bytes[8], bytes[9], bytes[10], bytes[11]),
        }
    }

    /// Whether all three wires are 0, which is how an unused place in a batch looks.
    pub open spec fn is_blank(self) -> bool {
        self.input1 == 0 && self.input2 == 0 && self.output == 0
    }

    /// Writes a gate as twelve bytes.
    pub fn to_bytes(&self) -> (bytes: [u8; 12])
        ensures
            bytes@ == self.spec_to_bytes(),
    {
        let a: [u8; 4] = u32_to_le(self.input1);
        let b: [u8; 4] = u32_to_le(self.input2);
        let c: [u8; 4] = u32_to_le(self.output);
        let bytes: [u8; 12] = [
            a[0],
            a[1],
            a[2],
            a[3],
            b[0],
            b[1],
            b[2],
            b[3],
            c[0],
            c[1],
            c[2],
            c[3],
        ];
        assert(bytes@ =~= self.spec_to_bytes());
        bytes
    }

    /// Reads a gate from twelve bytes.
    pub fn from_bytes(bytes: &[u8; 12]) -> (gate: CompactGate)
        ensures
            gate == CompactGate::spec_from_bytes(bytes@),
    {
        CompactGate {
            input1: u32_from_le(bytes[0], bytes[1], bytes[2], bytes[3]),
            input2: u32_from_le(bytes[4], bytes[5], bytes[6], bytes[7]),
            output: u32_from_le(bytes[8], bytes[9], bytes[10], bytes[11]),
        }
    }
}

/// The bytes of a gate give that gate back.
pub proof fn lemma_compact_gate_round_trip(gate: CompactGate)
    ensures
        CompactGate::spec_from_bytes(gate.spec_to_bytes()) == gate,
{
    lemma_le_round_trip(gate.input1);
    lemma_le_round_trip(gate.input2);
    lemma_le_round_trip(gate.output);
}

/// The kind that bit `index` of a kinds byte states: 0 is `XOR`, 1 is `AND`.
pub open spec fn kind_bit(gate_types: u8, index: int) -> GateType {
    if (gate_types >> (index as u8)) & 1 == 1 {
        GateType::AND
    } else {
        GateType::XOR
    }
}

/// A kinds byte with bit `index` set for `AND` or cleared for `XOR`.
pub open spec fn with_kind_bit(gate_types: u8, index: int, gate_type: GateType) -> u8 {
    match gate_type {
        GateType::XOR => gate_types & !(1u8 << (index as u8)),
        GateType::AND => gate_types | (1u8 << (index as u8)),
    }
}

/// Setting one bit of a kinds byte changes the kind at that place and at no other.
pub proof fn lemma_with_kind_bit(gate_types: u8, index: int, gate_type: GateType, other: int)
    requires
        0 <= index < 8,
        0 <= other < 8,
    ensures
        kind_bit(with_kind_bit(gate_types, index, gate_type), index) == gate_type,
        other != index ==> kind_bit(with_kind_bit(gate_types, index, gate_type), other)
            == kind_bit(gate_types, other),
{
    let g = gate_types;
    let i = index as u8;
    let j = other as u8;
    assert(((g | (1u8 << i)) >> i) & 1 == 1) by (bit_vector)
        requires
            i < 8,
    ;
    assert(((g & !(1u8 << i)) >> i) & 1 == 0) by (bit_vector)
        requires
            i < 8,
    ;
    assert(i != j ==> ((g | (1u8 << i)) >> j) & 1 == (g >> j) & 1) by (bit_vector)
        requires
            i < 8,
            j < 8,
    ;
    assert(i != j ==> ((g & !(1u8 << i)) >> j) & 1 == (g >> j) & 1) by (bit_vector)
        requires
            i < 8,
            j < 8,
    ;
}

/// A batch of up to eight gates with their kinds.
#[derive(Debug, Clone, Copy, PartialEq, Eq)]
pub struct GateBatch {
    /// The eight places of a batch.
    pub gates: [CompactGate; 8],
    /// The kinds of the gates, one bit each: bit `i` belongs to place `i`; 0 is `XOR`, 1 is
    /// `AND`.
    pub gate_types: u8,
}

impl GateBatch {
    /// The 97 bytes of a batch: eight gates of twelve bytes, then the kinds byte.
    pub open spec fn spec_to_bytes(self) -> Seq<u8> {
        Seq::new(
            97,
            |k: int|
                if k < 96 {
                    self.gates[k / 12].spec_to_bytes()[k % 12]
                } else {
                    self.gate_types
                },
        )
    }

    /// Whether the places from `from` on are all blank.
    pub open spec fn blank_from(self, from: int) -> bool {
        forall|i: int| from <= i < 8 ==> (#[trigger] self.gates[i]).is_blank()
    }

    /// A batch whose places are all blank and whose kinds are all `XOR`.
    pub fn new() -> (batch: GateBatch)
        ensures
            batch.blank_from(0),
            batch.gate_types == 0,
            forall|i: int| 0 <= i < 8 ==> kind_bit(batch.gate_types, i) == GateType::XOR,
    {
        proof {
            assert forall|i: int| 0 <= i < 8 implies kind_bit(0u8, i) == GateType::XOR by {
                let j = i as u8;
                assert((0u8 >> j) & 1 == 0) by (bit_vector);
            }
        }
        GateBatch { gates: [CompactGate { input1: 0, input2: 0, output: 0 };8], gate_types: 0 }
    }

    /// Puts a gate and its kind at place `index`.
    pub fn set_gate(&mut self, index: usize, gate: CompactGate, gate_type: GateType)
        requires
            index < 8,
        ensures
            final(self).gates@ == old(self).gates@.update(index as int, gate),
            final(self).gate_types == with_kind_bit(old(self).gate_types, index as int, gate_type),
            kind_bit(final(self).gate_types, index as int) == gate_type,
            forall|i: int|
                0 <= i < 8 && i != index ==> kind_bit(final(self).gate_types, i) == kind_bit(
                    old(self).gate_types,
                    i,
                ),
    {
        proof {
            lemma_with_kind_bit(self.gate_types, index as int, gate_type, 0);
            assert forall|i: int| 0 <= i < 8 && i != index implies kind_bit(
                with_kind_bit(self.gate_types, index as int, gate_type),
                i,
            ) == kind_bit(self.gate_types, i) by {
                lemma_with_kind_bit(self.gate_types, index as int, gate_type, i);
            }
        }
        self.gates[index] = gate;
        let bit: u8 = 1u8 << (index as u8);
        match gate_type {
            GateType::XOR => {
                self.gate_types = self.gate_types & !bit;
            },
            GateType::AND => {
                self.gate_types = self.gate_types | bit;
            },
        }
    }

    /// The kind at place `index`.
    pub fn gate_type(&self, index: usize) -> (kind: GateType)
        requires
            index < 8,
        ensures
            kind == kind_bit(self.gate_types, index as int),
    {
        if (self.gate_types >> (index as u8)) & 1 == 1 {
            GateType::AND
        } else {
            GateType::XOR
        }
    }

    /// What stands at place `index`: a gate and its kind.
    pub fn get_gate(&self, index: usize) -> (r: (CompactGate, GateType))
        requires
            index < 8,
        ensures
            r.0 == self.gates[index as int],
            r.1 == kind_bit(self.gate_types, index as int),
    {
        (self.gates[index], self.gate_type(index))
    }

    /// The number of gates in a batch that was filled from place 0 on: one more than the last
    /// place that is not blank, and 1 if all places are blank.
    pub fn gate_count(&self) -> (count: usize)
        ensures
            1 <= count <= 8,
            self.blank_from(count as int),
            count == 1 || !self.gates[count - 1].is_blank(),
    {
        let mut i: usize = 8;
        while i > 0
            invariant
                i <= 8,
                self.blank_from(i as int),
            decreases i,
        {
            let g: &CompactGate = &self.gates[i - 1];
            if g.output != 0 || g.input1 != 0 || g.input2 != 0 {
                return i;
            }
            i -= 1;
        }
        1
    }

    /// The number of gates in a batch of which `expected` gates are still to come: at most
    /// eight.
    pub fn gate_count_with_expected(&self, expected: usize) -> (count: usize)
        ensures
            count == if expected < 8 {
                expected
            } else {
                8
            },
    {
        if expected < 8 {
            expected
        } else {
            8
        }
    }

    /// Writes a batch as 97 bytes.
    pub fn to_bytes(&self) -> (bytes: [u8; 97])
        ensures
            bytes@ == self.spec_to_bytes(),
    {
        let mut bytes: [u8; 97] = [0u8;97];
        let mut i: usize = 0;
        while i < 8
            invariant
                i <= 8,
                forall|k: int|
                    0 <= k < 12 * i ==> bytes[k] == self.gates[k / 12].spec_to_bytes()[k % 12],
            decreases 8 - i,
        {
            let gate_bytes: [u8; 12] = self.gates[i].to_bytes();
            let ghost before = bytes;
            let mut j: usize = 0;
            while j < 12
                invariant
                    i < 8,
                    j <= 12,
                    gate_bytes@ == self.gates[i as int].spec_to_bytes(),
                    forall|k: int| 0 <= k < 12 * i ==> bytes[k] == before[k],
                    forall|c: int| 0 <= c < j ==> bytes[12 * i + c] == gate_bytes[c],
                decreases 12 - j,
            {
                bytes[12 * i + j] = gate_bytes[j];
                j += 1;
            }
            proof {
                assert forall|k: int| 0 <= k < 12 * (i + 1) implies bytes[k] == self.gates[k
                    / 12].spec_to_bytes()[k % 12] by {
                    if k >= 12 * i {
                        let c = k - 12 * i;
                        assert(k / 12 == i && k % 12 == c);
                        assert(bytes[12 * i + c] == gate_bytes[c]);
                    }
                }
            }
            i += 1;
        }
        bytes[96] = self.gate_types;
        assert(bytes@ =~= self.spec_to_bytes());
        bytes
    }

    /// Reads a batch from 97 bytes.
    pub fn from_bytes(bytes: &[u8; 97]) -> (batch: GateBatch)
        ensures
            batch.gate_types == bytes[96],
            forall|i: int|
                0 <= i < 8 ==> #[trigger] batch.gates[i] == CompactGate::spec_from_bytes(
                    bytes@.subrange(12 * i, 12 * i + 12),
                ),
    {
        let mut gates: [CompactGate; 8] = [CompactGate { input1: 0, input2: 0, output: 0 };8];
        let mut i: usize = 0;
        while i < 8
            invariant
                i <= 8,
                forall|r: int|
                    0 <= r < i ==> #[trigger] gates[r] == CompactGate::spec_from_bytes(
                        bytes@.subrange(12 * r, 12 * r + 12),
                    ),
            decreases 8 - i,
        {
            let start: usize = i * 12;
            let gate_bytes: [u8; 12] = [
                bytes[start],
                bytes[start + 1],
                bytes[start + 2],
                bytes[start + 3],
                bytes[start + 4],
                bytes[start + 5],
                bytes[start + 6],
                bytes[start + 7],
                bytes[start + 8],
                bytes[start + 9],
                bytes[start + 10],
                bytes[start + 11],
            ];
            assert(gate_bytes@ =~= bytes@.subrange(12 * i, 12 * i + 12));
            gates[i] = CompactGate::from_bytes(&gate_bytes);
            i += 1;
        }
        GateBatch { gates, gate_types: bytes[96] }
    }
}

/// The bytes of a batch give the batch back.
pub proof fn lemma_batch_round_trip(batch: GateBatch, read: GateBatch)
    requires
        read.gate_types == batch.spec_to_bytes()[96],
        forall|i: int|
            0 <= i < 8 ==> #[trigger] read.gates[i] == CompactGate::spec_from_bytes(
                batch.spec_to_bytes().subrange(12 * i, 12 * i + 12),
            ),
    ensures
        read == batch,
{
    let bytes = batch.spec_to_bytes();
    assert forall|i: int| 0 <= i < 8 implies read.gates[i] == batch.gates[i] by {
        let part = bytes.subrange(12 * i, 12 * i + 12);
        assert forall|c: int| 0 <= c < 12 implies part[c] == batch.gates[i].spec_to_bytes()[c] by {
            let k = 12 * i + c;
            assert(k / 12 == i && k % 12 == c);
            assert(part[c] == bytes[k]);
        }
        assert(part =~= batch.gates[i].spec_to_bytes());
        lemma_compact_gate_round_trip(batch.gates[i]);
    }
    assert(read.gates =~= batch.gates);
}

/// What gate a line states for the compact format: exactly six tokens, the declared numbers of
/// inputs and outputs 2 and 1, three wire ids, and the kind `XOR` or `AND`. The tokens are
/// looked at from the left.
pub open spec fn parse_compact_tokens(toks: Seq<Seq<u8>>) -> Result<
    (u32, u32, u32, GateType),
    GateLineError,
> {
    if toks.len() != 6 {
        Err(GateLineError::TokenCount { count: toks.len() as u64 })
    } else if parse_u64(toks[0]) is None {
        Err(GateLineError::InvalidNumInputs)
    } else if parse_u64(toks[1]) is None {
        Err(GateLineError::InvalidNumOutputs)
    } else if parse_u64(toks[0]) != Some(2u64) || parse_u64(toks[1]) != Some(1u64) {
        Err(GateLineError::UnsupportedArity)
    } else if parse_u32(toks[2]) is None {
        Err(GateLineError::InvalidWire { output: false, index: 0 })
    } else if parse_u32(toks[3]) is None {
        Err(GateLineError::InvalidWire { output: false, index: 1 })
    } else if parse_u32(toks[4]) is None {
        Err(GateLineError::InvalidWire { output: true, index: 0 })
    } else if toks[5] == kind_xor() {
        Ok((parse_u32(toks[2])->0, parse_u32(toks[3])->0, parse_u32(toks[4])->0, GateType::XOR))
    } else if toks[5] == kind_and() {
        Ok((parse_u32(toks[2])->0, parse_u32(toks[3])->0, parse_u32(toks[4])->0, GateType::AND))
    } else {
        Err(GateLineError::UnsupportedKind)
    }
}

/// Whether the bytes `line[start..end]` are the three bytes `a`, `b`, `c`.
fn is_word(line: &[u8], start: usize, end: usize, a: u8, b: u8, c: u8) -> (r: bool)
    requires
        start <= end <= line@.len(),
    ensures
        r == (line@.subrange(start as int, end as int) == seq![a, b, c]),
{
    let r: bool = end - start == 3 && line[start] == a && line[start + 1] == b && line[start + 2]
        == c;
    proof {
        let w = line@.subrange(start as int, end as int);
        if r {
            assert(w =~= seq![a, b, c]);
        } else if w.len() == 3 {
            assert(w[0] == line@[start as int]);
            assert(w[1] == line@[start + 1]);
            assert(w[2] == line@[start + 2]);
        }
    }
    r
}

/// Reads a gate line for the compact format: the two input wires, the output wire and the
/// kind.
pub fn parse_bristol_gate_line(line: &[u8]) -> (r: Result<(u32, u32, u32, GateType), GateLineError>)
    ensures
        r == parse_compact_tokens(tokens(line@)),
{
    let ranges = tokenize(line);
    if ranges.len() != 6 {
        return Err(GateLineError::TokenCount { count: ranges.len() as u64 });
    }
    let num_inputs: u64 = match parse_u64_token(line, ranges[0].0, ranges[0].1) {
        None => {
            return Err(GateLineError::InvalidNumInputs);
        },
        Some(n) => n,
    };
    let num_outputs: u64 = match parse_u64_token(line, ranges[1].0, ranges[1].1) {
        None => {
            return Err(GateLineError::InvalidNumOutputs);
        },
        Some(n) => n,
    };
    if num_inputs != 2 || num_outputs != 1 {
        return Err(GateLineError::UnsupportedArity);
    }
    let input1: u32 = match parse_u32_token(line, ranges[2].0, ranges[2].1) {
        None => {
            return Err(GateLineError::InvalidWire { output: false, index: 0 });
        },
        Some(w) => w,
    };
    let input2: u32 = match parse_u32_token(line, ranges[3].0, ranges[3].1) {
        None => {
            return Err(GateLineError::InvalidWire { output: false, index: 1 });
        },
        Some(w) => w,
    };
    let output: u32 = match parse_u32_token(line, ranges[4].0, ranges[4].1) {
        None => {
            return Err(GateLineError::InvalidWire { output: true, index: 0 });
        },
        Some(w) => w,
    };
    if is_word(line, ranges[5].0, ranges[5].1, 88, 79, 82) {
        Ok((input1, input2, output, GateType::XOR))
    } else if is_word(line, ranges[5].0, ranges[5].1, 65, 78, 68) {
        Ok((input1, input2, output, GateType::AND))
    } else {
        Err(GateLineError::UnsupportedKind)
    }
}

/// What a check of a circuit file counts.
#[derive(Debug, Clone, Copy, PartialEq, Eq)]
pub struct VerificationStats {
    /// The number of gates.
    pub total_gates: usize,
    /// The number of `XOR` gates.
    pub xor_gates: usize,
    /// The number of `AND` gates.
    pub and_gates: usize,
    /// The size of the file in bytes.
    pub file_size: u64,
}

impl VerificationStats {
    /// Statistics with all counts at zero.
    pub fn new() -> (stats: VerificationStats)
        ensures
            stats == (VerificationStats { total_gates: 0, xor_gates: 0, and_gates: 0, file_size: 0 }),
    {
        VerificationStats { total_gates: 0, xor_gates: 0, and_gates: 0, file_size: 0 }
    }
}

/// The gates that the lines of a headerless circuit text state for the compact format. Lines
/// without a token are skipped; the first line that states no gate is the fault, with its number
/// in the text.
pub open spec fn compact_gates(ls: Seq<Seq<u8>>) -> Result<Seq<(CompactGate, GateType)>, CircuitError>
    decreases ls.len(),
{
    if ls.len() == 0 {
        Ok(Seq::empty())
    } else {
        match compact_gates(ls.drop_last()) {
            Err(e) => Err(e),
            Ok(gates) => if tokens(ls.last()).len() == 0 {
                Ok(gates)
            } else {
                match parse_compact_tokens(tokens(ls.last())) {
                    Err(e) => Err(CircuitError::Gate { line: ls.len() as u64, error: e }),
                    Ok((input1, input2, output, kind)) => Ok(
                        gates.push((CompactGate { input1, input2, output }, kind)),
                    ),
                }
            },
        }
    }
}

/// How many of the gates are of kind `kind`.
pub open spec fn count_kind(gates: Seq<(CompactGate, GateType)>, kind: GateType) -> nat
    decreases gates.len(),
{
    if gates.len() == 0 {
        0
    } else {
        count_kind(gates.drop_last(), kind) + if gates.last().1 == kind {
            1nat
        } else {
            0nat
        }
    }
}

/// A fault in the first `k` lines is the fault of all the lines.
pub proof fn lemma_compact_gates_err(ls: Seq<Seq<u8>>, k: int)
    requires
        0 <= k <= ls.len(),
    ensures
        compact_gates(ls.take(k)) is Err ==> compact_gates(ls) == compact_gates(ls.take(k)),
    decreases ls.len() - k,
{
    if k < ls.len() {
        lemma_compact_gates_err(ls, k + 1);
        assert(ls.take(k + 1).drop_last() == ls.take(k));
    } else {
        assert(ls.take(k) == ls);
    }
}

/// Reads the gates of a headerless circuit text for the compact format.
pub fn read_compact_gates(text: &[u8]) -> (r: Result<Vec<(CompactGate, GateType)>, CircuitError>)
    ensures
        match compact_gates(lines(text@)) {
            Err(e) => r == Err::<Vec<(CompactGate, GateType)>, CircuitError>(e),
            Ok(gates) => r is Ok && r->Ok_0@ == gates,
        },
{
    let ranges = split_lines(text);
    let ghost ls = lines(text@);
    let mut gates: Vec<(CompactGate, GateType)> = Vec::new();
    let mut k: usize = 0;
    while k < ranges.len()
        invariant
            k <= ranges.len(),
            ranges_are_lines(text@, ranges@),
            ls == lines(text@),
            compact_gates(ls.take(k as int)) == Ok::<Seq<(CompactGate, GateType)>, CircuitError>(
                gates@,
            ),
        decreases ranges.len() - k,
    {
        let line = piece(text, ranges[k]);
        proof {
            assert(ls.take(k + 1).drop_last() == ls.take(k as int));
            assert(ls.take(k + 1).last() == line@);
            lemma_compact_gates_err(ls, k + 1);
        }
        let toks = tokenize(line);
        if toks.len() > 0 {
            match parse_bristol_gate_line(line) {
                Err(e) => {
                    return Err(CircuitError::Gate { line: k as u64 + 1, error: e });
                },
                Ok((input1, input2, output, kind)) => {
                    gates.push((CompactGate { input1, input2, output }, kind));
                },
            }
        }
        k += 1;
    }
    proof {
        assert(ls.take(k as int) == ls);
    }
    Ok(gates)
}

/// Counts the gates of a list by kind.
pub fn count_gates(gates: &Vec<(CompactGate, GateType)>, file_size: u64) -> (stats: VerificationStats)
    ensures
        stats.total_gates == gates@.len(),
        stats.xor_gates == count_kind(gates@, GateType::XOR),
        stats.and_gates == count_kind(gates@, GateType::AND),
        stats.file_size == file_size,
{
    let mut stats = VerificationStats::new();
    stats.file_size = file_size;
    let mut i: usize = 0;
    while i < gates.len()
        invariant
            i <= gates@.len(),
            stats.total_gates == i,
            stats.xor_gates == count_kind(gates@.take(i as int), GateType::XOR),
            stats.and_gates == count_kind(gates@.take(i as int), GateType::AND),
            stats.xor_gates + stats.and_gates == i,
            stats.file_size == file_size,
        decreases gates@.len() - i,
    {
        proof {
            assert(gates@.take(i + 1).drop_last() == gates@.take(i as int));
            assert(gates@.take(i + 1).last() == gates@[i as int]);
        }
        match gates[i].1 {
            GateType::AND => {
                stats.and_gates = stats.and_gates + 1;
            },
            GateType::XOR => {
                stats.xor_gates = stats.xor_gates + 1;
            },
        }
        stats.total_gates = stats.total_gates + 1;
        i += 1;
    }
    proof {
        assert(gates@.take(i as int) == gates@);
    }
    stats
}

/// Checks a headerless circuit text for the compact format and counts its gates by kind.
pub fn verify_bristol_circuit(text: &[u8]) -> (r: Result<VerificationStats, CircuitError>)
    ensures
        match compact_gates(lines(text@)) {
            Err(e) => r == Err::<VerificationStats, CircuitError>(e),
            Ok(gates) => r is Ok && r->Ok_0 == (VerificationStats {
                total_gates: gates.len() as usize,
                xor_gates: count_kind(gates, GateType::XOR) as usize,
                and_gates: count_kind(gates, GateType::AND) as usize,
                file_size: text@.len() as u64,
            }),
        },
{
    match read_compact_gates(text) {
        Err(e) => Err(e),
        Ok(gates) => Ok(count_gates(&gates, text.len() as u64)),
    }
}

/// A gate whose wires are all 0.
pub open spec fn blank_gate() -> CompactGate {
    CompactGate { input1: 0, input2: 0, output: 0 }
}

/// What stands at position `i` of a list of gates that is followed by blank `XOR` gates.
pub open spec fn gate_or_blank(gates: Seq<(CompactGate, GateType)>, i: int) -> (
    CompactGate,
    GateType,
) {
    if 0 <= i < gates.len() {
        gates[i]
    } else {
        (blank_gate(), GateType::XOR)
    }
}

/// The kinds byte of the batch that starts with gate `first`, with the bits of its first `upto`
/// places set.
pub open spec fn pack_kinds(gates: Seq<(CompactGate, GateType)>, first: int, upto: int) -> u8
    decreases upto,
{
    if upto <= 0 {
        0
    } else {
        with_kind_bit(
            pack_kinds(gates, first, upto - 1),
            upto - 1,
            gate_or_blank(gates, first + upto - 1).1,
        )
    }
}

/// The batch with number `b` of a list of gates: it holds the gates `8 b .. 8 b + 7`, and blank
/// `XOR` gates where the list has ended.
pub open spec fn batch_of(gates: Seq<(CompactGate, GateType)>, b: int) -> GateBatch {
    GateBatch {
        gates: [
            gate_or_blank(gates, 8 * b).0,
            gate_or_blank(gates, 8 * b + 1).0,
            gate_or_blank(gates, 8 * b + 2).0,
            gate_or_blank(gates, 8 * b + 3).0,
            gate_or_blank(gates, 8 * b + 4).0,
            gate_or_blank(gates, 8 * b + 5).0,
            gate_or_blank(gates, 8 * b + 6).0,
            gate_or_blank(gates, 8 * b + 7).0,
        ],
        gate_types: pack_kinds(gates, 8 * b, 8),
    }
}

/// The number of batches that hold `n` gates.
pub open spec fn batch_count(n: nat) -> nat {
    (n + 7) / 8
}

/// The batches of a list of gates as bytes: 97 bytes for each batch, in order.
pub open spec fn batches_bytes(gates: Seq<(CompactGate, GateType)>) -> Seq<u8> {
    Seq::new(
        97 * batch_count(gates.len()),
        |k: int| batch_of(gates, k / 97).spec_to_bytes()[k % 97],
    )
}

/// The gates that a stream of batches holds, if `total` gates are expected: the gates of the
/// whole batches in order, and not more than `total`.
pub open spec fn gates_in(data: Seq<u8>, total: nat) -> Seq<(CompactGate, GateType)> {
    let held = 8 * (data.len() / 97);
    Seq::new(
        if total < held {
            total
        } else {
            held
        },
        |i: int|
            (
                CompactGate::spec_from_bytes(
                    data.subrange(97 * (i / 8) + 12 * (i % 8), 97 * (i / 8) + 12 * (i % 8) + 12),
                ),
                kind_bit(data[97 * (i / 8) + 96], i % 8),
            ),
    )
}

/// Setting the bits of further places leaves the bits of the places before them.
pub proof fn lemma_pack_kinds(gates: Seq<(CompactGate, GateType)>, first: int, upto: int, p: int)
    requires
        0 <= p < upto <= 8,
    ensures
        kind_bit(pack_kinds(gates, first, upto), p) == gate_or_blank(gates, first + p).1,
    decreases upto,
{
    lemma_with_kind_bit(
        pack_kinds(gates, first, upto - 1),
        upto - 1,
        gate_or_blank(gates, first + upto - 1).1,
        p,
    );
    if p < upto - 1 {
        lemma_pack_kinds(gates, first, upto - 1, p);
    }
}

/// Writes a list of gates as a stream of batches of eight.
#[verifier::rlimit(50)]
pub fn encode_batches(gates: &Vec<(CompactGate, GateType)>) -> (data: Vec<u8>)
    ensures
        data@ == batches_bytes(gates@),
{
    let n: usize = gates.len();
    let full: usize = n / 8;
    let count: usize = if n % 8 == 0 {
        full
    } else {
        full + 1
    };
    let mut data: Vec<u8> = Vec::new();
    let mut b: usize = 0;
    while b < count
        invariant
            n == gates@.len(),
            count == batch_count(n as nat),
            b <= count,
            data@.len() == 97 * b,
            forall|k: int|
                0 <= k < 97 * b ==> data@[k] == batch_of(gates@, k / 97).spec_to_bytes()[k % 97],
        decreases count - b,
    {
        assert(8 * b < n);
        let first: usize = 8 * b;
        let mut batch = GateBatch::new();
        let mut p: usize = 0;
        while p < 8
            invariant
                n == gates@.len(),
                first == 8 * b,
                first < n,
                p <= 8,
                batch.gate_types == pack_kinds(gates@, first as int, p as int),
                forall|q: int| 0 <= q < p ==> batch.gates[q] == gate_or_blank(gates@, first + q).0,
            decreases 8 - p,
        {
            let (gate, kind): (CompactGate, GateType) = if p < n - first {
                gates[first + p]
            } else {
                (CompactGate { input1: 0, input2: 0, output: 0 }, GateType::XOR)
            };
            batch.set_gate(p, gate, kind);
            p += 1;
        }
        proof {
            assert(batch.gates =~= batch_of(gates@, b as int).gates);
            assert(batch == batch_of(gates@, b as int));
        }
        let bytes: [u8; 97] = batch.to_bytes();
        let ghost before = data@;
        let mut k: usize = 0;
        while k < 97
            invariant
                k <= 97,
                before.len() == 97 * b,
                data@.len() == 97 * b + k,
                forall|x: int| 0 <= x < 97 * b ==> data@[x] == before[x],
                forall|x: int| 0 <= x < k ==> data@[97 * b + x] == bytes[x],
            decreases 97 - k,
        {
            data.push(bytes[k]);
            k += 1;
        }
        proof {
            assert forall|x: int| 0 <= x < 97 * (b + 1) implies data@[x] == batch_of(
                gates@,
                x / 97,
            ).spec_to_bytes()[x % 97] by {
                if x >= 97 * b {
                    let y = x - 97 * b;
                    assert(x / 97 == b && x % 97 == y);
                    assert(data@[97 * b + y] == bytes[y]);
                    assert(bytes@ == batch_of(gates@, b as int).spec_to_bytes());
                } else {
                    assert(data@[x] == before[x]);
                }
            }
        }
        b += 1;
    }
    assert(data@ =~= batches_bytes(gates@));
    data
}

/// Reads the gates of a stream of batches of which `total_gates` gates are expected. Bytes
/// after the last whole batch are not looked at.
#[verifier::rlimit(50)]
pub fn decode_batches(data: &[u8], total_gates: u32) -> (gates: Vec<(CompactGate, GateType)>)
    ensures
        gates@ == gates_in(data@, total_gates as nat),
{
    let len: usize = data.len();
    let held: usize = 8 * (len / 97);
    let n: usize = if (total_gates as usize) < held {
        total_gates as usize
    } else {
        held
    };
    let mut gates: Vec<(CompactGate, GateType)> = Vec::new();
    let mut i: usize = 0;
    while i < n
        invariant
            i <= n,
            len == data@.len(),
            n <= 8 * (len / 97),
            n == gates_in(data@, total_gates as nat).len(),
            gates@ == gates_in(data@, total_gates as nat).take(i as int),
        decreases n - i,
    {
        let at: usize = 97 * (i / 8) + 12 * (i % 8);
        let gate_bytes: [u8; 12] = [
            data[at],
            data[at + 1],
            data[at + 2],
            data[at + 3],
            data[at + 4],
            data[at + 5],
            data[at + 6],
            data[at + 7],
            data[at + 8],
            data[at + 9],
            data[at + 10],
            data[at + 11],
        ];
        assert(gate_bytes@ =~= data@.subrange(at as int, at + 12));
        let gate = CompactGate::from_bytes(&gate_bytes);
        let kinds: u8 = data[97 * (i / 8) + 96];
        let kind = if (kinds >> ((i % 8) as u8)) & 1 == 1 {
            GateType::AND
        } else {
            GateType::XOR
        };
        proof {
            let all = gates_in(data@, total_gates as nat);
            assert(all[i as int] == (gate, kind));
            assert(all.take(i as int).push((gate, kind)) == all.take(i + 1));
        }
        gates.push((gate, kind));
        i += 1;
    }
    proof {
        let all = gates_in(data@, total_gates as nat);
        assert(all.take(i as int) == all);
    }
    gates
}

/// Reads the gates of a headerless circuit text and writes them as a stream of batches; the
/// statistics count the gates by kind, with the size of the text.
pub fn convert_bristol_to_batches(text: &[u8]) -> (r: Result<
    (Vec<u8>, VerificationStats),
    CircuitError,
>)
    ensures
        match compact_gates(lines(text@)) {
            Err(e) => r == Err::<(Vec<u8>, VerificationStats), CircuitError>(e),
            Ok(gates) => r is Ok && r->Ok_0.0@ == batches_bytes(gates) && r->Ok_0.1 == (
            VerificationStats {
                total_gates: gates.len() as usize,
                xor_gates: count_kind(gates, GateType::XOR) as usize,
                and_gates: count_kind(gates, GateType::AND) as usize,
                file_size: text@.len() as u64,
            }),
        },
{
    match read_compact_gates(text) {
        Err(e) => Err(e),
        Ok(gates) => {
            let stats = count_gates(&gates, text.len() as u64);
            Ok((encode_batches(&gates), stats))
        },
    }
}

/// Reads a stream of batches of which `total_gates` gates are expected and counts its gates by
/// kind; `file_size` is handed through.
pub fn verify_batches(data: &[u8], total_gates: u32, file_size: u64) -> (stats: VerificationStats)
    ensures
        stats.total_gates == gates_in(data@, total_gates as nat).len(),
        stats.xor_gates == count_kind(gates_in(data@, total_gates as nat), GateType::XOR),
        stats.and_gates == count_kind(gates_in(data@, total_gates as nat), GateType::AND),
        stats.file_size == file_size,
{
    let gates = decode_batches(data, total_gates);
    count_gates(&gates, file_size)
}

/// Where byte `c` of place `p` of batch `b` stands in a stream of batches.
#[verifier::rlimit(50)]
proof fn lemma_batch_position(b: int, p: int, c: int)
    requires
        0 <= b,
        0 <= p < 8,
        0 <= c < 12,
    ensures
        (97 * b + 12 * p + c) / 97 == b,
        (97 * b + 12 * p + c) % 97 == 12 * p + c,
        (12 * p + c) / 12 == p,
        (12 * p + c) % 12 == c,
        (97 * b + 96) / 97 == b,
        (97 * b + 96) % 97 == 96,
{
}

/// The places of a batch of a list hold the gates of the list.
proof fn lemma_batch_place(gates: Seq<(CompactGate, GateType)>, b: int, p: int)
    requires
        0 <= p < 8,
    ensures
        batch_of(gates, b).gates[p] == gate_or_blank(gates, 8 * b + p).0,
{
}

/// Byte `c` of place `p` of batch `b` in the stream of a list of gates.
proof fn lemma_batch_byte(gates: Seq<(CompactGate, GateType)>, b: int, p: int, c: int)
    requires
        0 <= b < batch_count(gates.len()),
        0 <= p < 8,
        0 <= c < 12,
    ensures
        97 * b + 12 * p + c < batches_bytes(gates).len(),
        batches_bytes(gates)[97 * b + 12 * p + c] == batch_of(gates, b).gates[p].spec_to_bytes()[c],
        batches_bytes(gates)[97 * b + 96] == batch_of(gates, b).gate_types,
{
    lemma_batch_position(b, p, c);
}

/// The twelve bytes of place `p` of batch `b` in the stream of a list of gates.
#[verifier::rlimit(50)]
proof fn lemma_batch_gate_bytes(gates: Seq<(CompactGate, GateType)>, b: int, p: int)
    requires
        0 <= b < batch_count(gates.len()),
        0 <= p < 8,
    ensures
        batches_bytes(gates).subrange(97 * b + 12 * p, 97 * b + 12 * p + 12) == batch_of(
            gates,
            b,
        ).gates[p].spec_to_bytes(),
{
    let data = batches_bytes(gates);
    let at = 97 * b + 12 * p;
    let part = data.subrange(at, at + 12);
    let gate = batch_of(gates, b).gates[p];
    lemma_batch_byte(gates, b, p, 11);
    assert forall|c: int| 0 <= c < 12 implies part[c] == gate.spec_to_bytes()[c] by {
        lemma_batch_byte(gates, b, p, c);
        assert(part[c] == data[at + c]);
    }
    assert(part =~= gate.spec_to_bytes());
}

/// What stands at position `i` of a list survives the way through a stream of batches.
#[verifier::rlimit(50)]
proof fn lemma_batch_gate_read(gates: Seq<(CompactGate, GateType)>, i: int)
    requires
        0 <= i < gates.len(),
    ensures
        CompactGate::spec_from_bytes(
            batches_bytes(gates).subrange(
                97 * (i / 8) + 12 * (i % 8),
                97 * (i / 8) + 12 * (i % 8) + 12,
            ),
        ) == gates[i].0,
        kind_bit(batches_bytes(gates)[97 * (i / 8) + 96], i % 8) == gates[i].1,
{
    let b = i / 8;
    let p = i % 8;
    lemma_batch_gate_bytes(gates, b, p);
    lemma_compact_gate_round_trip(batch_of(gates, b).gates[p]);
    lemma_batch_place(gates, b, p);
    lemma_batch_byte(gates, b, p, 0);
    lemma_pack_kinds(gates, 8 * b, 8, p);
}

/// One gate of a list survives the way through a stream of batches.
proof fn lemma_batch_gate_round_trip(gates: Seq<(CompactGate, GateType)>, i: int)
    requires
        0 <= i < gates.len(),
    ensures
        gates_in(batches_bytes(gates), gates.len())[i] == gates[i],
{
    lemma_batch_gate_read(gates, i);
    let data = batches_bytes(gates);
    assert(data.len() == 97 * batch_count(gates.len()));
    assert(data.len() / 97 == batch_count(gates.len()));
}

/// What a list of gates is written to gives the list back when it is read.
pub proof fn lemma_batches_round_trip(gates: Seq<(CompactGate, GateType)>)
    ensures
        gates_in(batches_bytes(gates), gates.len()) == gates,
{
    let data = batches_bytes(gates);
    let read = gates_in(data, gates.len());
    assert(data.len() == 97 * batch_count(gates.len()));
    assert(data.len() / 97 == batch_count(gates.len()));
    assert(read.len() == gates.len());
    assert forall|i: int| 0 <= i < gates.len() implies read[i] == gates[i] by {
        lemma_batch_gate_round_trip(gates, i);
    }
    assert(read =~= gates);
}

} // verus!
