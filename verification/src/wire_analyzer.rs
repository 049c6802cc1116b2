//! Wire usage analysis: how often each wire is read as a gate input, and which wires are the
//! circuit's primary inputs and outputs.

use crate::bristol::{
    parse_gate_line_bounded, parse_gate_tokens, parse_header, parse_header_tokens, CircuitError,
    Gate, GateLineError, GateSpec, Header,
};
use crate::text::{lines, piece, split_lines, tokens};
use vstd::prelude::*;

verus! {

/// The result of one analysis pass over a circuit.
#[derive(Debug, PartialEq, Eq)]
pub struct WireUsageReport {
    /// Number of wires that the header declares.
    pub total_wires: u32,
    /// Number of primary input wires.
    pub primary_inputs: u32,
    /// Number of wires that are both produced and read.
    pub intermediate_wires: u32,
    /// Number of primary output wires.
    pub primary_outputs: u32,
    /// Number of wires that no gate names.
    pub missing_wires_count: u32,
    /// For each wire, how often it is read as a gate input, saturating at 255.
    pub wire_usage_counts: Vec<u8>,
    /// The primary input wires, ascending.
    pub primary_input_wires: Vec<u32>,
    /// The primary output wires, ascending.
    pub primary_output_wires: Vec<u32>,
}

/// The four kinds of wire.
pub enum WireClass {
    /// Neither read nor produced.
    Missing,
    /// Read by some gate, produced by none.
    PrimaryInput,
    /// Produced by some gate, read by none.
    PrimaryOutput,
    /// Produced and read.
    Intermediate,
}

/// How often `w` occurs in `ws`.
pub open spec fn occurrences(ws: Seq<u32>, w: u32) -> nat
    decreases ws.len(),
{
    if ws.len() == 0 {
        0
    } else {
        occurrences(ws.drop_last(), w) + if ws.last() == w {
            1nat
        } else {
            0nat
        }
    }
}

/// How often the gates read wire `w` as an input.
pub open spec fn input_uses(gates: Seq<GateSpec>, w: u32) -> nat
    decreases gates.len(),
{
    if gates.len() == 0 {
        0
    } else {
        input_uses(gates.drop_last(), w) + occurrences(gates.last().inputs, w)
    }
}

/// Whether some gate has wire `w` among its outputs.
pub open spec fn is_produced(gates: Seq<GateSpec>, w: u32) -> bool {
    exists|g: int| 0 <= g < gates.len() && (#[trigger] gates[g]).outputs.contains(w)
}

/// A count as one byte holds it: 255 stands for 255 and more.
pub open spec fn saturated(n: nat) -> u8 {
    if n >= 255 {
        255
    } else {
        n as u8
    }
}

/// The kind of a wire that is read `uses` times and is or is not produced.
pub open spec fn wire_class(uses: nat, produced: bool) -> WireClass {
    if uses == 0 && !produced {
        WireClass::Missing
    } else if !produced {
        WireClass::PrimaryInput
    } else if uses == 0 {
        WireClass::PrimaryOutput
    } else {
        WireClass::Intermediate
    }
}

/// The kind of wire `w` in a circuit with these gates.
pub open spec fn class_of(gates: Seq<GateSpec>, w: u32) -> WireClass {
    wire_class(input_uses(gates, w), is_produced(gates, w))
}

/// How many of the wires `0 .. n` are of kind `c`.
pub open spec fn class_count(gates: Seq<GateSpec>, n: nat, c: WireClass) -> nat
    decreases n,
{
    if n == 0 {
        0
    } else {
        class_count(gates, (n - 1) as nat, c) + if class_of(gates, (n - 1) as u32) == c {
            1nat
        } else {
            0nat
        }
    }
}

/// Whether each element is smaller than the next.
pub open spec fn strictly_ascending(s: Seq<u32>) -> bool {
    forall|i: int, j: int| 0 <= i < j < s.len() ==> s[i] < s[j]
}

/// Whether `s` lists, in ascending order, exactly the wires below `n` that are of kind `c`.
pub open spec fn lists_class(s: Seq<u32>, gates: Seq<GateSpec>, n: nat, c: WireClass) -> bool {
    &&& strictly_ascending(s)
    &&& forall|w: u32| s.contains(w) <==> (w < n && class_of(gates, w) == c)
}

impl WireUsageReport {
    /// Whether this is the report of a circuit with `num_wires` wires and these gates.
    pub open spec fn describes(&self, num_wires: u32, gates: Seq<GateSpec>) -> bool {
        &&& self.total_wires == num_wires
        &&& self.wire_usage_counts@.len() == num_wires
        &&& forall|w: u32|
            w < num_wires ==> #[trigger] self.wire_usage_counts@[w as int] == saturated(
                input_uses(gates, w),
            )
        &&& lists_class(
            self.primary_input_wires@,
            gates,
            num_wires as nat,
            WireClass::PrimaryInput,
        )
        &&& lists_class(
            self.primary_output_wires@,
            gates,
            num_wires as nat,
            WireClass::PrimaryOutput,
        )
        &&& self.primary_inputs == class_count(gates, num_wires as nat, WireClass::PrimaryInput)
        &&& self.primary_outputs == class_count(gates, num_wires as nat, WireClass::PrimaryOutput)
        &&& self.intermediate_wires == class_count(
            gates,
            num_wires as nat,
            WireClass::Intermediate,
        )
        &&& self.missing_wires_count == class_count(gates, num_wires as nat, WireClass::Missing)
        &&& self.primary_inputs == self.primary_input_wires@.len()
        &&& self.primary_outputs == self.primary_output_wires@.len()
    }
}

/// How many wires have the usage count `c`.
pub open spec fn wires_with_count(usage: Seq<u8>, c: u8) -> nat
    decreases usage.len(),
{
    if usage.len() == 0 {
        0
    } else {
        wires_with_count(usage.drop_last(), c) + if usage.last() == c {
            1nat
        } else {
            0nat
        }
    }
}

/// No usage count is had by more wires than there are.
pub proof fn lemma_wires_with_count_bound(usage: Seq<u8>, c: u8)
    ensures
        wires_with_count(usage, c) <= usage.len(),
    decreases usage.len(),
{
    if usage.len() > 0 {
        lemma_wires_with_count_bound(usage.drop_last(), c);
    }
}

impl WireUsageReport {
    /// The distribution of the usage counts: for each count that some wire has, ascending, the
    /// number of wires that have it.
    pub fn usage_distribution(&self) -> (d: Vec<(u8, usize)>)
        ensures
            forall|i: int, j: int| 0 <= i < j < d@.len() ==> d@[i].0 < d@[j].0,
            forall|i: int|
                0 <= i < d@.len() ==> (#[trigger] d@[i]).1 > 0 && d@[i].1 == wires_with_count(
                    self.wire_usage_counts@,
                    d@[i].0,
                ),
            forall|c: u8| #[trigger]
                wires_with_count(self.wire_usage_counts@, c) > 0 ==> exists|i: int|
                    0 <= i < d@.len() && (#[trigger] d@[i]).0 == c,
    {
        let usage: &Vec<u8> = &self.wire_usage_counts;
        let mut counts: Vec<usize> = Vec::new();
        let mut c: usize = 0;
        while c < 256
            invariant
                c <= 256,
                counts@.len() == c,
                forall|k: int| 0 <= k < c ==> counts@[k] == 0,
            decreases 256 - c,
        {
            counts.push(0);
            c += 1;
        }
        let mut i: usize = 0;
        while i < usage.len()
            invariant
                i <= usage@.len(),
                counts@.len() == 256,
                forall|k: u8| #[trigger]
                    counts@[k as int] == wires_with_count(usage@.take(i as int), k),
            decreases usage@.len() - i,
        {
            let u: usize = usage[i] as usize;
            proof {
                assert(usage@.take(i + 1).drop_last() == usage@.take(i as int));
                assert(usage@.take(i + 1).last() == usage@[i as int]);
                lemma_wires_with_count_bound(usage@.take(i as int), usage@[i as int]);
                assert(counts@[usage@[i as int] as int] == wires_with_count(
                    usage@.take(i as int),
                    usage@[i as int],
                ));
            }
            let ghost before = counts@;
            let n: usize = counts[u];
            counts[u] = n + 1;
            proof {
                assert forall|k: u8| #[trigger]
                    counts@[k as int] == wires_with_count(usage@.take(i + 1), k) by {
                    assert(before[k as int] == wires_with_count(usage@.take(i as int), k));
                }
            }
            i += 1;
        }
        proof {
            assert(usage@.take(i as int) == usage@);
        }
        let mut d: Vec<(u8, usize)> = Vec::new();
        let mut v: usize = 0;
        while v < 256
            invariant
                v <= 256,
                counts@.len() == 256,
                forall|k: u8| #[trigger] counts@[k as int] == wires_with_count(usage@, k),
                forall|a: int| 0 <= a < d@.len() ==> (#[trigger] d@[a]).0 < v,
                forall|a: int, b: int| 0 <= a < b < d@.len() ==> d@[a].0 < d@[b].0,
                forall|a: int|
                    0 <= a < d@.len() ==> (#[trigger] d@[a]).1 > 0 && d@[a].1 == wires_with_count(
                        usage@,
                        d@[a].0,
                    ),
                forall|k: u8|
                    k < v && #[trigger] wires_with_count(usage@, k) > 0 ==> exists|a: int|
                        0 <= a < d@.len() && (#[trigger] d@[a]).0 == k,
            decreases 256 - v,
        {
            let n: usize = counts[v];
            let ghost before = d@;
            assert(counts@[(v as u8) as int] == wires_with_count(usage@, v as u8));
            if n > 0 {
                d.push((v as u8, n));
            }
            proof {
                assert forall|k: u8|
                    k < v + 1 && #[trigger] wires_with_count(usage@, k) > 0 implies exists|a: int|
                    0 <= a < d@.len() && (#[trigger] d@[a]).0 == k by {
                    if k < v {
                        let a = choose|a: int| 0 <= a < before.len() && (#[trigger] before[a]).0 == k;
                        assert(d@[a].0 == k);
                    } else {
                        assert(d@[d@.len() - 1].0 == k);
                    }
                }
            }
            v += 1;
        }
        d
    }
}

/// The gates that the lines state, each wire id below `bound`; or the first malformed line, its
/// number counted from `line_offset + 1`.
pub open spec fn parse_gate_lines(ls: Seq<Seq<u8>>, bound: nat, line_offset: nat) -> Result<
    Seq<GateSpec>,
    CircuitError,
>
    decreases ls.len(),
{
    if ls.len() == 0 {
        Ok(Seq::empty())
    } else {
        match parse_gate_lines(ls.drop_last(), bound, line_offset) {
            Err(e) => Err(e),
            Ok(gates) => match parse_gate_tokens(tokens(ls.last()), bound) {
                Err(e) => Err(
                    CircuitError::Gate { line: (line_offset + ls.len()) as u64, error: e },
                ),
                Ok(g) => Ok(gates.push(g)),
            },
        }
    }
}

/// The header and gates of a circuit text as the analyzer reads it: every wire id must be below
/// the header's number of wires, and the header is line 1.
pub open spec fn analyzed_circuit(text: Seq<u8>) -> Result<(Header, Seq<GateSpec>), CircuitError> {
    let ls = lines(text);
    if ls.len() == 0 {
        Err(CircuitError::MissingHeader)
    } else {
        match parse_header_tokens(tokens(ls[0])) {
            Err(e) => Err(e),
            Ok(h) => match parse_gate_lines(ls.drop_first(), h.num_wires as nat, 1) {
                Err(e) => Err(e),
                Ok(gates) => Ok((h, gates)),
            },
        }
    }
}

/// One more element is one more occurrence of itself and of nothing else.
pub proof fn lemma_occurrences_push(ws: Seq<u32>, x: u32, w: u32)
    ensures
        occurrences(ws.push(x), w) == occurrences(ws, w) + if x == w {
            1nat
        } else {
            0nat
        },
{
    assert(ws.push(x).drop_last() == ws);
}

/// One more gate adds its reads to the count.
pub proof fn lemma_input_uses_push(gates: Seq<GateSpec>, g: GateSpec, w: u32)
    ensures
        input_uses(gates.push(g), w) == input_uses(gates, w) + occurrences(g.inputs, w),
{
    assert(gates.push(g).drop_last() == gates);
}

/// One more gate adds its outputs to the produced wires.
pub proof fn lemma_is_produced_push(gates: Seq<GateSpec>, g: GateSpec, w: u32)
    ensures
        is_produced(gates.push(g), w) == (is_produced(gates, w) || g.outputs.contains(w)),
{
    let gs = gates.push(g);
    if is_produced(gates, w) {
        let k = choose|k: int| 0 <= k < gates.len() && (#[trigger] gates[k]).outputs.contains(w);
        assert(gs[k] == gates[k]);
    }
    if g.outputs.contains(w) {
        assert(gs[gates.len() as int] == g);
    }
    if is_produced(gs, w) {
        let k = choose|k: int| 0 <= k < gs.len() && (#[trigger] gs[k]).outputs.contains(w);
        if k < gates.len() {
            assert(gs[k] == gates[k]);
        }
    }
}

/// The four kinds partition the wires: their counts add up to the number of wires.
pub proof fn lemma_class_counts_sum(gates: Seq<GateSpec>, n: nat)
    ensures
        class_count(gates, n, WireClass::Missing) + class_count(gates, n, WireClass::PrimaryInput)
            + class_count(gates, n, WireClass::PrimaryOutput) + class_count(
            gates,
            n,
            WireClass::Intermediate,
        ) == n,
    decreases n,
{
    if n > 0 {
        lemma_class_counts_sum(gates, (n - 1) as nat);
    }
}

/// The state of an analysis pass: the header, and what the gates read so far add up to.
pub struct WireAnalyzer {
    header: Header,
    usage: Vec<u8>,
    has_producer: Vec<bool>,
    gates: Ghost<Seq<GateSpec>>,
}

impl WireAnalyzer {
    /// The gates read so far.
    pub closed spec fn gates(&self) -> Seq<GateSpec> {
        self.gates@
    }

    /// The header that the pass started with.
    pub closed spec fn header(&self) -> Header {
        self.header
    }

    /// The internal invariant: the counts and flags agree with the gates read so far.
    pub closed spec fn wf(&self) -> bool {
        &&& self.usage@.len() == self.header.num_wires
        &&& self.has_producer@.len() == self.header.num_wires
        &&& forall|w: u32|
            w < self.header.num_wires ==> #[trigger] self.usage@[w as int] == saturated(
                input_uses(self.gates@, w),
            )
        &&& forall|w: u32|
            w < self.header.num_wires ==> #[trigger] self.has_producer@[w as int] == is_produced(
                self.gates@,
                w,
            )
        &&& forall|w: u32|
            w >= self.header.num_wires ==> #[trigger] input_uses(self.gates@, w) == 0
                && !is_produced(self.gates@, w)
    }

    /// Starts a pass from the header line.
    pub fn new(header_line: &[u8]) -> (r: Result<WireAnalyzer, CircuitError>)
        ensures
            match parse_header_tokens(tokens(header_line@)) {
                Err(e) => r == Err::<WireAnalyzer, CircuitError>(e),
                Ok(h) => r is Ok && r->Ok_0.wf() && r->Ok_0.header() == h && r->Ok_0.gates()
                    == Seq::<GateSpec>::empty(),
            },
    {
        let header = match parse_header(header_line) {
            Err(e) => {
                return Err(e);
            },
            Ok(h) => h,
        };
        let n: usize = header.num_wires as usize;
        let mut usage: Vec<u8> = Vec::new();
        let mut has_producer: Vec<bool> = Vec::new();
        let mut i: usize = 0;
        while i < n
            invariant
                i <= n,
                usage@.len() == i,
                has_producer@.len() == i,
                forall|k: int| 0 <= k < i ==> usage@[k] == 0,
                forall|k: int| 0 <= k < i ==> has_producer@[k] == false,
            decreases n - i,
        {
            usage.push(0);
            has_producer.push(false);
            i += 1;
        }
        Ok(WireAnalyzer { header, usage, has_producer, gates: Ghost(Seq::empty()) })
    }

    /// The number of gates that the header declares.
    pub fn declared_gates(&self) -> (n: u32)
        ensures
            n == self.header().num_gates,
    {
        self.header.num_gates
    }

    /// Counts one gate: each input is one more use of its wire, each output marks its wire as
    /// produced. A gate's kind is not looked at.
    fn record(&mut self, gate: &Gate)
        requires
            old(self).wf(),
            forall|j: int|
                0 <= j < gate.inputs@.len() ==> gate.inputs@[j] < old(self).header().num_wires,
            forall|j: int|
                0 <= j < gate.outputs@.len() ==> gate.outputs@[j] < old(self).header().num_wires,
        ensures
            final(self).wf(),
            final(self).header() == old(self).header(),
            final(self).gates() == old(self).gates().push(gate@),
    {
        let ghost before = self.gates@;
        let ghost after = before.push(gate@);
        let ghost n = self.header.num_wires;
        let mut j: usize = 0;
        while j < gate.inputs.len()
            invariant
                j <= gate.inputs@.len(),
                n == self.header.num_wires,
                self.header == old(self).header,
                self.gates@ == before,
                self.has_producer == old(self).has_producer,
                self.usage@.len() == n,
                forall|k: int| 0 <= k < gate.inputs@.len() ==> gate.inputs@[k] < n,
                forall|w: u32|
                    w < n ==> #[trigger] self.usage@[w as int] == saturated(
                        input_uses(before, w) + occurrences(gate.inputs@.subrange(0, j as int), w),
                    ),
            decreases gate.inputs@.len() - j,
        {
            let w: usize = gate.inputs[j] as usize;
            let c: u8 = self.usage[w];
            let ghost old_usage = self.usage@;
            self.usage[w] = if c == 255 {
                255
            } else {
                c + 1
            };
            proof {
                let prev = gate.inputs@.subrange(0, j as int);
                let next = gate.inputs@.subrange(0, j + 1);
                assert(next == prev.push(gate.inputs@[j as int]));
                assert forall|v: u32| v < n implies #[trigger] self.usage@[v as int] == saturated(
                    input_uses(before, v) + occurrences(next, v),
                ) by {
                    lemma_occurrences_push(prev, gate.inputs@[j as int], v);
                    assert(old_usage[v as int] == saturated(
                        input_uses(before, v) + occurrences(prev, v),
                    ));
                }
            }
            j += 1;
        }
        assert(gate.inputs@.subrange(0, j as int) == gate.inputs@);
        let mut k: usize = 0;
        while k < gate.outputs.len()
            invariant
                k <= gate.outputs@.len(),
                n == self.header.num_wires,
                self.header == old(self).header,
                self.gates@ == before,
                self.has_producer@.len() == n,
                self.usage@.len() == n,
                forall|i: int| 0 <= i < gate.outputs@.len() ==> gate.outputs@[i] < n,
                forall|w: u32|
                    w < n ==> #[trigger] self.usage@[w as int] == saturated(
                        input_uses(before, w) + occurrences(gate.inputs@, w),
                    ),
                forall|w: u32|
                    w < n ==> #[trigger] self.has_producer@[w as int] == (is_produced(before, w)
                        || gate.outputs@.subrange(0, k as int).contains(w)),
            decreases gate.outputs@.len() - k,
        {
            let w: usize = gate.outputs[k] as usize;
            let ghost old_flags = self.has_producer@;
            self.has_producer[w] = true;
            proof {
                let prev = gate.outputs@.subrange(0, k as int);
                let next = gate.outputs@.subrange(0, k + 1);
                assert(next == prev.push(gate.outputs@[k as int]));
                assert forall|v: u32| v < n implies #[trigger] self.has_producer@[v as int] == (
                is_produced(before, v) || next.contains(v)) by {
                    assert(old_flags[v as int] == (is_produced(before, v) || prev.contains(v)));
                    if prev.contains(v) {
                        let i = choose|i: int| 0 <= i < prev.len() && prev[i] == v;
                        assert(next[i] == v);
                    }
                    if v == gate.outputs@[k as int] {
                        assert(next[k as int] == v);
                    }
                    if next.contains(v) {
                        let i = choose|i: int| 0 <= i < next.len() && next[i] == v;
                        if i < k {
                            assert(prev[i] == v);
                        }
                    }
                }
            }
            k += 1;
        }
        assert(gate.outputs@.subrange(0, k as int) == gate.outputs@);
        proof {
            self.gates@ = after;
            assert forall|w: u32| true implies input_uses(after, w) == input_uses(before, w)
                + occurrences(gate.inputs@, w) && is_produced(after, w) == (is_produced(before, w)
                || gate.outputs@.contains(w)) by {
                lemma_input_uses_push(before, gate@, w);
                lemma_is_produced_push(before, gate@, w);
            }
            assert forall|w: u32| w >= n implies #[trigger] input_uses(after, w) == 0
                && !is_produced(after, w) by {
                lemma_occurrences_zero(gate.inputs@, w, n);
                if gate.outputs@.contains(w) {
                    let i = choose|i: int| 0 <= i < gate.outputs@.len() && gate.outputs@[i] == w;
                    assert(gate.outputs@[i] < n);
                }
            }
        }
    }

    /// Reads one gate line and counts its gate. A malformed line, or one that names a wire not
    /// below the header's number of wires, is refused and leaves the pass as it was.
    pub fn process_line(&mut self, line: &[u8]) -> (r: Result<(), GateLineError>)
        requires
            old(self).wf(),
        ensures
            final(self).wf(),
            final(self).header() == old(self).header(),
            match parse_gate_tokens(tokens(line@), old(self).header().num_wires as nat) {
                Err(e) => r == Err::<(), GateLineError>(e) && final(self).gates() == old(
                    self,
                ).gates(),
                Ok(g) => r is Ok && final(self).gates() == old(self).gates().push(g),
            },
    {
        let gate = match parse_gate_line_bounded(line, self.header.num_wires as u64) {
            Err(e) => {
                return Err(e);
            },
            Ok(g) => g,
        };
        proof {
            lemma_parsed_wires_bounded(tokens(line@), self.header.num_wires as nat);
            let g = parse_gate_tokens(tokens(line@), self.header.num_wires as nat)->Ok_0;
            assert(gate@ == g);
            assert(gate.inputs@ == g.inputs);
            assert(gate.outputs@ == g.outputs);
        }
        self.record(&gate);
        Ok(())
    }

    /// Ends the pass: classifies every wire and hands out the report.
    pub fn finish(self) -> (report: WireUsageReport)
        requires
            self.wf(),
        ensures
            report.describes(self.header().num_wires, self.gates()),
    {
        let ghost gates = self.gates@;
        let n: u32 = self.header.num_wires;
        let mut primary_input_wires: Vec<u32> = Vec::new();
        let mut primary_output_wires: Vec<u32> = Vec::new();
        let mut intermediate: u32 = 0;
        let mut missing: u32 = 0;
        let mut w: u32 = 0;
        while w < n
            invariant
                w <= n,
                n == self.header.num_wires,
                gates == self.gates@,
                self.wf(),
                lists_class(primary_input_wires@, gates, w as nat, WireClass::PrimaryInput),
                lists_class(primary_output_wires@, gates, w as nat, WireClass::PrimaryOutput),
                primary_input_wires@.len() == class_count(gates, w as nat, WireClass::PrimaryInput),
                primary_output_wires@.len() == class_count(
                    gates,
                    w as nat,
                    WireClass::PrimaryOutput,
                ),
                intermediate == class_count(gates, w as nat, WireClass::Intermediate),
                missing == class_count(gates, w as nat, WireClass::Missing),
            decreases n - w,
        {
            let uses: u8 = self.usage[w as usize];
            let produced: bool = self.has_producer[w as usize];
            proof {
                lemma_class_counts_sum(gates, w as nat);
                assert((uses == 0) == (input_uses(gates, w) == 0));
            }
            let ghost ins = primary_input_wires@;
            let ghost outs = primary_output_wires@;
            if uses == 0 && !produced {
                missing += 1;
            } else if !produced {
                primary_input_wires.push(w);
            } else if uses == 0 {
                primary_output_wires.push(w);
            } else {
                intermediate += 1;
            }
            proof {
                lemma_lists_class_step(
                    ins,
                    primary_input_wires@,
                    gates,
                    w,
                    WireClass::PrimaryInput,
                );
                lemma_lists_class_step(
                    outs,
                    primary_output_wires@,
                    gates,
                    w,
                    WireClass::PrimaryOutput,
                );
            }
            w += 1;
        }
        proof {
            lemma_class_counts_sum(gates, n as nat);
        }
        WireUsageReport {
            total_wires: n,
            primary_inputs: primary_input_wires.len() as u32,
            intermediate_wires: intermediate,
            primary_outputs: primary_output_wires.len() as u32,
            missing_wires_count: missing,
            wire_usage_counts: self.usage,
            primary_input_wires,
            primary_output_wires,
        }
    }
}

/// A wire that is not below `n` does not occur among wires that are all below `n`.
pub proof fn lemma_occurrences_zero(ws: Seq<u32>, w: u32, n: u32)
    requires
        forall|j: int| 0 <= j < ws.len() ==> ws[j] < n,
        w >= n,
    ensures
        occurrences(ws, w) == 0,
    decreases ws.len(),
{
    if ws.len() > 0 {
        lemma_occurrences_zero(ws.drop_last(), w, n);
    }
}

/// Wires read under a bound are below it.
pub proof fn lemma_parse_wires_bounded(
    toks: Seq<Seq<u8>>,
    first: int,
    count: nat,
    bound: nat,
    output: bool,
    i: nat,
)
    ensures
        crate::bristol::parse_wires(toks, first, count, bound, output, i) matches Ok(ws) ==> forall|
            j: int,
        | 0 <= j < ws.len() ==> ws[j] < bound,
    decreases count - i,
{
    if i < count && first + i < toks.len() {
        lemma_parse_wires_bounded(toks, first, count, bound, output, i + 1);
    }
}

/// The wires of a gate read under a bound are below it.
pub proof fn lemma_parsed_wires_bounded(toks: Seq<Seq<u8>>, bound: nat)
    ensures
        parse_gate_tokens(toks, bound) matches Ok(g) ==> {
            &&& forall|j: int| 0 <= j < g.inputs.len() ==> g.inputs[j] < bound
            &&& forall|j: int| 0 <= j < g.outputs.len() ==> g.outputs[j] < bound
        },
{
    if toks.len() >= 2 {
        if let Some(n_in) = crate::text::parse_u32(toks[0]) {
            if let Some(n_out) = crate::text::parse_u32(toks[1]) {
                lemma_parse_wires_bounded(toks, 2, n_in as nat, bound, false, 0);
                lemma_parse_wires_bounded(toks, 2 + n_in, n_out as nat, bound, true, 0);
            }
        }
    }
}

/// Looking at wire `w` extends a list of the wires of kind `c` below `w` to one below `w + 1`.
proof fn lemma_lists_class_step(
    before: Seq<u32>,
    after: Seq<u32>,
    gates: Seq<GateSpec>,
    w: u32,
    c: WireClass,
)
    requires
        lists_class(before, gates, w as nat, c),
        class_of(gates, w) == c ==> after == before.push(w),
        class_of(gates, w) != c ==> after == before,
    ensures
        lists_class(after, gates, (w + 1) as nat, c),
{
    if class_of(gates, w) == c {
        assert forall|i: int, j: int| 0 <= i < j < after.len() implies after[i] < after[j] by {
            assert(before.contains(after[i]));
            if j < before.len() {
                assert(after[j] == before[j]);
            }
        }
        assert forall|v: u32| after.contains(v) <==> (v < w + 1 && class_of(gates, v) == c) by {
            if after.contains(v) {
                let i = choose|i: int| 0 <= i < after.len() && after[i] == v;
                if i < before.len() {
                    assert(before[i] == v);
                    assert(before.contains(v));
                }
            }
            if v < w + 1 && class_of(gates, v) == c {
                if v == w {
                    assert(after[before.len() as int] == v);
                } else {
                    assert(before.contains(v));
                    let i = choose|i: int| 0 <= i < before.len() && before[i] == v;
                    assert(after[i] == v);
                }
            }
        }
    } else {
        assert forall|v: u32| after.contains(v) <==> (v < w + 1 && class_of(gates, v) == c) by {
        }
    }
}

/// Analyzes a circuit text in one pass.
///
/// The text must start with a header line and hold one gate per further line; every wire id must
/// be below the number of wires that the header states. Gate kinds are not looked at.
pub fn analyze_wire_usage(text: &[u8]) -> (r: Result<WireUsageReport, CircuitError>)
    ensures
        match analyzed_circuit(text@) {
            Err(e) => r == Err::<WireUsageReport, CircuitError>(e),
            Ok((h, gates)) => r is Ok && r->Ok_0.describes(h.num_wires, gates),
        },
{
    let ranges = split_lines(text);
    if ranges.len() == 0 {
        return Err(CircuitError::MissingHeader);
    }
    let ghost ls = lines(text@);
    let mut analyzer = match WireAnalyzer::new(piece(text, ranges[0])) {
        Err(e) => {
            return Err(e);
        },
        Ok(a) => a,
    };
    let ghost h = analyzer.header();
    let ghost gl = ls.drop_first();
    let mut k: usize = 1;
    while k < ranges.len()
        invariant
            1 <= k <= ranges.len(),
            crate::text::ranges_are_lines(text@, ranges@),
            ls == lines(text@),
            gl == ls.drop_first(),
            ls.len() == ranges.len(),
            parse_header_tokens(tokens(ls[0])) == Ok::<Header, CircuitError>(h),
            analyzer.wf(),
            analyzer.header() == h,
            parse_gate_lines(gl.take(k - 1), h.num_wires as nat, 1) == Ok::<
                Seq<GateSpec>,
                CircuitError,
            >(analyzer.gates()),
        decreases ranges.len() - k,
    {
        let line = piece(text, ranges[k]);
        proof {
            assert(gl.take(k as int).drop_last() == gl.take(k - 1));
            assert(gl.take(k as int).last() == ls[k as int]);
            lemma_parse_gate_lines_err(gl, k as int, h.num_wires as nat, 1);
            assert(gl.take(k as int).len() == k);
            assert(ls[k as int] == line@);
        }
        match analyzer.process_line(line) {
            Err(e) => {
                return Err(CircuitError::Gate { line: k as u64 + 1, error: e });
            },
            Ok(()) => {},
        }
        k += 1;
    }
    proof {
        assert(gl.take(k - 1) == gl);
    }
    Ok(analyzer.finish())
}

/// A fault in the first `k` lines is the fault of all the lines.
pub proof fn lemma_parse_gate_lines_err(ls: Seq<Seq<u8>>, k: int, bound: nat, line_offset: nat)
    requires
        0 <= k <= ls.len(),
    ensures
        parse_gate_lines(ls.take(k), bound, line_offset) is Err ==> parse_gate_lines(
            ls,
            bound,
            line_offset,
        ) == parse_gate_lines(ls.take(k), bound, line_offset),
    decreases ls.len() - k,
{
    if k < ls.len() {
        lemma_parse_gate_lines_err(ls, k + 1, bound, line_offset);
        assert(ls.take(k + 1).drop_last() == ls.take(k));
    } else {
        assert(ls.take(k) == ls);
    }
}

} // verus!
