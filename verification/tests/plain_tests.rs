use gc::bristol::{CircuitError, GateLineError};
use gc::plain_evaluator::{evaluate_plain_circuit, PlainEvaluator};
use std::collections::HashMap;

#[test]
fn test_plain_evaluate_simple_xor() {
    let circuit_data = "1 3\n2 1 0 1 2 XOR\n";

    let mut input_bits = HashMap::new();
    input_bits.insert(0, true);
    input_bits.insert(1, false);
    let output_wire_ids = vec![2];

    let result =
        evaluate_plain_circuit(circuit_data.as_bytes(), &input_bits, &output_wire_ids).unwrap();

    assert_eq!(result.output_results.len(), 1);
    assert!(result.output_results[&2]);
}

#[test]
fn test_plain_evaluate_simple_and() {
    let circuit_data = "1 3\n2 1 0 1 2 AND\n";

    let mut input_bits = HashMap::new();
    input_bits.insert(0, true);
    input_bits.insert(1, true);
    let output_wire_ids = vec![2];

    let result =
        evaluate_plain_circuit(circuit_data.as_bytes(), &input_bits, &output_wire_ids).unwrap();

    assert_eq!(result.output_results.len(), 1);
    assert!(result.output_results[&2]);
}

#[test]
fn test_plain_evaluate_mixed_gates() {
    let circuit_data = "3 6\n2 1 0 1 2 XOR\n2 1 2 3 4 XOR\n2 1 2 4 5 AND\n";

    let mut input_bits = HashMap::new();
    input_bits.insert(0, true);
    input_bits.insert(1, false);
    input_bits.insert(3, true);
    let output_wire_ids = vec![5];

    let result =
        evaluate_plain_circuit(circuit_data.as_bytes(), &input_bits, &output_wire_ids).unwrap();

    assert_eq!(result.output_results.len(), 1);
    assert!(!result.output_results[&5]);
}

#[test]
fn test_plain_evaluate_truth_tables() {
    for (a, b) in [(false, false), (false, true), (true, false), (true, true)] {
        let mut input_bits = HashMap::new();
        input_bits.insert(0u32, a);
        input_bits.insert(1u32, b);
        let result =
            evaluate_plain_circuit(b"2 4\n2 1 0 1 2 XOR\n2 1 0 1 3 AND\n", &input_bits, &[2, 3, 0])
                .unwrap();
        assert_eq!(result.output_results[&2], a ^ b);
        assert_eq!(result.output_results[&3], a && b);
        assert_eq!(result.output_results[&0], a);
        assert_eq!(result.output_results.len(), 3);
    }
}

#[test]
fn test_plain_evaluate_faults() {
    let mut input_bits = HashMap::new();
    input_bits.insert(0u32, true);
    input_bits.insert(1u32, true);
    let run = |text: &[u8], outputs: &[u32]| {
        evaluate_plain_circuit(text, &input_bits, outputs).map(|r| r.output_results)
    };
    assert_eq!(run(b"", &[]).unwrap_err(), CircuitError::MissingHeader);
    assert_eq!(run(b"x 3\n", &[]).unwrap_err(), CircuitError::InvalidNumGates);
    assert_eq!(
        run(b"1 3\n\n", &[]).unwrap_err(),
        CircuitError::Gate { line: 1, error: GateLineError::Empty }
    );
    assert_eq!(
        run(b"1 3\n1 1 0 2 NOT\n", &[]).unwrap_err(),
        CircuitError::WrongArity { line: 1 }
    );
    assert_eq!(
        run(b"1 3\n3 1 a b\n", &[]).unwrap_err(),
        CircuitError::WrongArity { line: 1 }
    );
    assert_eq!(
        run(b"1 3\n2 1 a b\n", &[]).unwrap_err(),
        CircuitError::Gate {
            line: 1,
            error: GateLineError::InvalidWire { output: false, index: 0 }
        }
    );
    assert_eq!(
        run(b"1 3\n2 1 0 1 2 OR\n", &[]).unwrap_err(),
        CircuitError::UnsupportedGate { line: 1 }
    );
    assert_eq!(
        run(b"2 4\n2 1 0 1 2 XOR\n2 1 2 3 3 XOR\n", &[]).unwrap_err(),
        CircuitError::InputNotFound { line: 2, wire: 3 }
    );
    assert_eq!(
        run(b"1 3\n2 1 0 7 2 XOR\n", &[]).unwrap_err(),
        CircuitError::WireOutOfRange { line: 1, wire: 7 }
    );
    assert_eq!(
        run(b"1 3\n2 1 0 1 3 XOR\n", &[]).unwrap_err(),
        CircuitError::WireOutOfRange { line: 1, wire: 3 }
    );
    assert_eq!(
        run(b"1 4\n2 1 0 1 2 XOR\n", &[2, 3]).unwrap_err(),
        CircuitError::OutputNotFound { wire: 3 }
    );
    assert_eq!(
        run(b"1 3\n2 1 0 1 2 XOR\n", &[2, 3]).unwrap_err(),
        CircuitError::OutputOutOfRange { wire: 3 }
    );
}

#[test]
fn test_plain_evaluator_line_by_line() {
    let mut input_bits = HashMap::new();
    input_bits.insert(0u32, true);
    input_bits.insert(1u32, false);
    let mut evaluator = PlainEvaluator::new(b"2 4", &input_bits).unwrap();
    evaluator.process_line(b"2 1 0 1 2 XOR", 1).unwrap();
    assert_eq!(
        evaluator.process_line(b"2 1 0 3 3 AND", 2),
        Err(CircuitError::InputNotFound { line: 2, wire: 3 })
    );
    evaluator.process_line(b"2 1 0 2 3 AND", 2).unwrap();
    let result = evaluator.finish(&[3, 2]).unwrap();
    assert!(result.output_results[&3]);
    assert!(result.output_results[&2]);
}
