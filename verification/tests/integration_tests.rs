use gc::evaluator::{evaluate_circuit, load_garbled_tables, tables_to_bytes};
use gc::garbler::garble_circuit;
use gc::ot_simulation::create_ot_result_with_specific_inputs;
use gc::plain_evaluator::evaluate_plain_circuit;
use gc::wire_analyzer::analyze_wire_usage;
use rand::{RngCore, SeedableRng};
use rand_chacha::ChaCha12Rng;
use std::collections::HashMap;

const TEST_SEED: [u8; 32] = [42; 32];

const ADDER64_OUTPUT_WIRES: &[u32] = &[
    440, 441, 442, 443, 444, 445, 446, 447, 448, 449, 450, 451, 452, 453, 454, 455, 456, 457, 458,
    459, 460, 461, 462, 463, 464, 465, 466, 467, 468, 469, 470, 471, 472, 473, 474, 475, 476, 477,
    478, 479, 480, 481, 482, 483, 484, 485, 486, 487, 488, 489, 490, 491, 492, 493, 494, 495, 496,
    497, 498, 499, 500, 501, 502, 503,
];

const MULT64_OUTPUT_WIRES: &[u32] = &[
    13739, 13740, 13741, 13742, 13743, 13744, 13745, 13746, 13747, 13748, 13749, 13750, 13751,
    13752, 13753, 13754, 13755, 13756, 13757, 13758, 13759, 13760, 13761, 13762, 13763, 13764,
    13765, 13766, 13767, 13768, 13769, 13770, 13771, 13772, 13773, 13774, 13775, 13776, 13777,
    13778, 13779, 13780, 13781, 13782, 13783, 13784, 13785, 13786, 13787, 13788, 13789, 13790,
    13791, 13792, 13793, 13794, 13795, 13796, 13797, 13798, 13799, 13800, 13801, 13802,
];

const AND4_OUTPUT_WIRES: &[u32] = &[6];

struct CircuitBuilder {
    lines: Vec<String>,
    next_wire: u32,
}

impl CircuitBuilder {
    fn new(first_free_wire: u32) -> Self {
        CircuitBuilder { lines: Vec::new(), next_wire: first_free_wire }
    }

    fn gate_to(&mut self, kind: &str, a: u32, b: u32, out: u32) -> u32 {
        self.lines.push(format!("2 1 {} {} {} {}\n", a, b, out, kind));
        out
    }

    fn gate(&mut self, kind: &str, a: u32, b: u32) -> u32 {
        let out = self.next_wire;
        self.next_wire += 1;
        self.gate_to(kind, a, b, out)
    }

    fn finish(self, num_wires: u32) -> String {
        assert!(self.next_wire <= num_wires);
        let mut text = format!("{} {}\n", self.lines.len(), num_wires);
        for line in &self.lines {
            text.push_str(line);
        }
        text
    }
}

/// A 64-bit ripple-carry adder: operands on wires 0..63 and 64..127, sum on wires 440..503.
fn adder64_circuit() -> String {
    let mut c = CircuitBuilder::new(128);
    let mut carry: Option<u32> = None;
    for i in 0..64u32 {
        let (a, b, sum) = (i, 64 + i, 440 + i);
        match carry {
            None => {
                c.gate_to("XOR", a, b, sum);
                carry = Some(c.gate("AND", a, b));
            }
            Some(cin) => {
                let p = c.gate("XOR", a, b);
                c.gate_to("XOR", p, cin, sum);
                if i < 63 {
                    let g = c.gate("AND", a, b);
                    let t = c.gate("AND", p, cin);
                    carry = Some(c.gate("XOR", g, t));
                }
            }
        }
    }
    assert!(c.next_wire <= 440);
    c.finish(504)
}

/// A 64-bit multiplier, low half of the product: operands on wires 0..63 and 64..127, product
/// on wires 13739..13802.
fn mult64_circuit() -> String {
    let mut c = CircuitBuilder::new(128);
    let first_out = 13739u32;
    let mut acc: Vec<u32> = Vec::new();
    c.gate_to("AND", 0, 64, first_out);
    for j in 1..64u32 {
        acc.push(c.gate("AND", j, 64));
    }
    for i in 1..64u32 {
        let mut carry: Option<u32> = None;
        let mut next_acc: Vec<u32> = Vec::new();
        let width = acc.len() as u32;
        for k in 0..width {
            let pp = c.gate("AND", k, 64 + i);
            let x = acc[k as usize];
            let last_row = i == 63;
            let is_final = k == 0 || last_row;
            let target = if is_final { Some(first_out + i + k) } else { None };
            let place = |c: &mut CircuitBuilder, a: u32, b: u32| match target {
                Some(t) => c.gate_to("XOR", a, b, t),
                None => c.gate("XOR", a, b),
            };
            let sum = match carry {
                None => {
                    let s = place(&mut c, x, pp);
                    if k + 1 < width {
                        carry = Some(c.gate("AND", x, pp));
                    }
                    s
                }
                Some(cin) => {
                    let p = c.gate("XOR", x, pp);
                    let s = place(&mut c, p, cin);
                    if k + 1 < width {
                        let g = c.gate("AND", x, pp);
                        let t = c.gate("AND", p, cin);
                        carry = Some(c.gate("XOR", g, t));
                    }
                    s
                }
            };
            if k > 0 {
                next_acc.push(sum);
            }
        }
        acc = next_acc;
    }
    assert!(c.next_wire <= first_out);
    c.finish(13803)
}

fn and4_circuit() -> String {
    String::from("3 7\n2 1 0 1 4 AND\n2 1 2 3 5 AND\n2 1 4 5 6 AND\n")
}

/// Runs a circuit on the plain path and on the garbled path and holds the two against each
/// other; hands back the plain output bits, in the order of `output_wires`.
fn test_circuit_with_specific_inputs(
    circuit: &str,
    inputs: &HashMap<u32, bool>,
    output_wires: &[u32],
) -> Vec<bool> {
    let text = circuit.as_bytes();
    let wire_report = analyze_wire_usage(text).unwrap();

    let plain_result = evaluate_plain_circuit(text, inputs, output_wires).unwrap();

    let garbling_result = garble_circuit(text, &wire_report, &TEST_SEED).unwrap();

    let ot_result =
        create_ot_result_with_specific_inputs(&garbling_result.wire_labels, inputs).unwrap();

    let tables_data = tables_to_bytes(&garbling_result.garbled_tables);
    let tables = load_garbled_tables(&tables_data).unwrap();

    let garbled_result = evaluate_circuit(text, &wire_report, &ot_result, &tables).unwrap();

    assert_eq!(plain_result.output_results.len(), output_wires.len());
    for (&wire_id, &plain_bit) in &plain_result.output_results {
        let garbled_output = garbled_result.output_results.get(&wire_id).unwrap();
        assert_eq!(
            plain_bit, garbled_output.bit_value,
            "Mismatch for output wire {}: plain={}, garbled={}",
            wire_id, plain_bit, garbled_output.bit_value
        );
        let labels = garbling_result.wire_labels.get_wire_labels(wire_id).unwrap();
        assert_eq!(garbled_output.label, labels[plain_bit as usize]);
    }
    output_wires.iter().map(|w| plain_result.output_results[w]).collect()
}

fn create_adder64_inputs(a: u64, b: u64) -> HashMap<u32, bool> {
    let mut inputs = HashMap::new();

    for i in 0..64 {
        inputs.insert(i, (a >> i) & 1 == 1);
    }

    for i in 0..64 {
        inputs.insert(64 + i, (b >> i) & 1 == 1);
    }

    inputs
}

fn create_mult64_inputs(a: u64, b: u64) -> HashMap<u32, bool> {
    create_adder64_inputs(a, b)
}

fn as_number(bits: &[bool]) -> u64 {
    let mut value = 0u64;
    for (i, &bit) in bits.iter().enumerate() {
        if bit {
            value |= 1 << i;
        }
    }
    value
}

fn check_adder(circuit: &str, a: u64, b: u64) {
    let bits =
        test_circuit_with_specific_inputs(circuit, &create_adder64_inputs(a, b), ADDER64_OUTPUT_WIRES);
    assert_eq!(as_number(&bits), a.wrapping_add(b));
}

fn check_mult(circuit: &str, a: u64, b: u64) {
    let bits =
        test_circuit_with_specific_inputs(circuit, &create_mult64_inputs(a, b), MULT64_OUTPUT_WIRES);
    assert_eq!(as_number(&bits), a.wrapping_mul(b));
}

#[test]
fn test_adder64_random() {
    let circuit = adder64_circuit();
    let mut rng = ChaCha12Rng::from_seed(TEST_SEED);

    for _ in 0..10 {
        let a = rng.next_u64();
        let b = rng.next_u64();
        check_adder(&circuit, a, b);
    }
}

#[test]
fn test_adder64_specific() {
    let circuit = adder64_circuit();
    let report = analyze_wire_usage(circuit.as_bytes()).unwrap();
    assert_eq!(report.primary_output_wires, ADDER64_OUTPUT_WIRES);
    assert_eq!(report.primary_inputs, 128);

    check_adder(&circuit, 0, 0);
    check_adder(&circuit, u64::MAX, 0);
    check_adder(&circuit, 1, 1);
    check_adder(&circuit, u64::MAX, 1);
    check_adder(&circuit, 1024, 2048);

    let zero = test_circuit_with_specific_inputs(
        &circuit,
        &create_adder64_inputs(u64::MAX, 1),
        ADDER64_OUTPUT_WIRES,
    );
    assert!(zero.iter().all(|&bit| !bit));
}

#[test]
fn test_mult64_random() {
    let circuit = mult64_circuit();
    let mut rng = ChaCha12Rng::from_seed(TEST_SEED);

    for _ in 0..10 {
        let a = rng.next_u64();
        let b = rng.next_u64();
        check_mult(&circuit, a, b);
    }
}

#[test]
fn test_mult64_specific() {
    let circuit = mult64_circuit();
    let report = analyze_wire_usage(circuit.as_bytes()).unwrap();
    assert_eq!(report.primary_output_wires, MULT64_OUTPUT_WIRES);

    check_mult(&circuit, 0, u64::MAX);
    check_mult(&circuit, u64::MAX, 0);
    check_mult(&circuit, 1, 12345);
    check_mult(&circuit, 98765, 1);
    check_mult(&circuit, 1024, 1);
    check_mult(&circuit, 1, 2048);
    check_mult(&circuit, 123, 456);
}

#[test]
fn test_and4_comprehensive() {
    let circuit = and4_circuit();

    for combination in 0..16u8 {
        let mut inputs = HashMap::new();
        for wire_id in 0..4 {
            inputs.insert(wire_id, (combination >> wire_id) & 1 == 1);
        }

        let bits = test_circuit_with_specific_inputs(&circuit, &inputs, AND4_OUTPUT_WIRES);
        assert_eq!(bits, vec![combination == 15]);
    }
}

#[test]
fn test_deterministic_reseed() {
    let circuit = adder64_circuit();
    let report = analyze_wire_usage(circuit.as_bytes()).unwrap();
    let first = garble_circuit(circuit.as_bytes(), &report, &[0x42; 32]).unwrap();
    let second = garble_circuit(circuit.as_bytes(), &report, &[0x42; 32]).unwrap();
    assert_eq!(
        tables_to_bytes(&first.garbled_tables),
        tables_to_bytes(&second.garbled_tables)
    );
    assert_eq!(first.wire_labels.delta, second.wire_labels.delta);
    assert_eq!(first.garbled_tables.len(), 125);
    assert_eq!(tables_to_bytes(&first.garbled_tables).len(), 125 * 64);
}

#[test]
fn test_wires_with_many_readers_stay_live() {
    let mut circuit = String::from("300 302\n");
    for i in 0..300 {
        circuit.push_str(&format!("2 1 0 1 {} AND\n", i + 2));
    }
    let mut inputs = HashMap::new();
    inputs.insert(0u32, true);
    inputs.insert(1u32, true);
    let outputs: Vec<u32> = (2..302).collect();
    let report = analyze_wire_usage(circuit.as_bytes()).unwrap();
    assert_eq!(report.wire_usage_counts[0], 255);
    let bits = test_circuit_with_specific_inputs(&circuit, &inputs, &outputs);
    assert!(bits.iter().all(|&bit| bit));
}
