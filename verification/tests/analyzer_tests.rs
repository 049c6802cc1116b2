use gc::bristol::{CircuitError, GateLineError};
use gc::wire_analyzer::{analyze_wire_usage, WireAnalyzer};

#[test]
fn test_analyze_wire_usage_basic() {
    let circuit_data = "3 6\n2 1 0 1 2 XOR\n2 1 2 3 4 AND\n2 1 3 4 5 XOR\n";

    let report = analyze_wire_usage(circuit_data.as_bytes()).unwrap();

    assert_eq!(report.total_wires, 6);
    assert_eq!(report.primary_inputs, 3);
    assert_eq!(report.intermediate_wires, 2);
    assert_eq!(report.primary_outputs, 1);
    assert_eq!(report.missing_wires_count, 0);
    assert_eq!(report.primary_input_wires, vec![0, 1, 3]);
    assert_eq!(report.primary_output_wires, vec![5]);
    assert_eq!(report.wire_usage_counts.len(), 6);
    assert_eq!(report.wire_usage_counts, vec![1, 1, 1, 2, 1, 0]);
}

#[test]
fn test_analyze_wire_usage_single_gate() {
    let circuit_data = "1 3\n2 1 0 1 2 XOR\n";

    let report = analyze_wire_usage(circuit_data.as_bytes()).unwrap();

    assert_eq!(report.total_wires, 3);
    assert_eq!(report.primary_inputs, 2);
    assert_eq!(report.intermediate_wires, 0);
    assert_eq!(report.primary_outputs, 1);
    assert_eq!(report.missing_wires_count, 0);
    assert_eq!(report.primary_input_wires, vec![0, 1]);
    assert_eq!(report.primary_output_wires, vec![2]);
}

#[test]
fn test_analyze_wire_usage_empty_circuit() {
    let circuit_data = "0 0\n";

    let report = analyze_wire_usage(circuit_data.as_bytes()).unwrap();

    assert_eq!(report.total_wires, 0);
    assert_eq!(report.primary_inputs, 0);
    assert_eq!(report.intermediate_wires, 0);
    assert_eq!(report.primary_outputs, 0);
    assert_eq!(report.missing_wires_count, 0);
    assert_eq!(report.wire_usage_counts.len(), 0);
}

#[test]
fn test_analyze_wire_usage_with_missing_wires() {
    let circuit_data = "2 10\n2 1 0 1 2 XOR\n2 1 5 6 7 AND\n";

    let report = analyze_wire_usage(circuit_data.as_bytes()).unwrap();

    assert_eq!(report.total_wires, 10);
    assert_eq!(report.primary_inputs, 4);
    assert_eq!(report.intermediate_wires, 0);
    assert_eq!(report.primary_outputs, 2);
    assert_eq!(report.missing_wires_count, 4);
    assert_eq!(report.primary_input_wires, vec![0, 1, 5, 6]);
    assert_eq!(report.primary_output_wires, vec![2, 7]);
}

#[test]
fn test_analyze_wire_usage_invalid_header() {
    let circuit_data = "invalid header\n2 1 0 1 2 XOR\n";

    let result = analyze_wire_usage(circuit_data.as_bytes());

    assert!(result.is_err());
    assert_eq!(result.unwrap_err(), CircuitError::InvalidNumGates);
}

#[test]
fn test_analyze_wire_usage_missing_header() {
    let circuit_data = "";

    let result = analyze_wire_usage(circuit_data.as_bytes());

    assert!(result.is_err());
    assert_eq!(result.unwrap_err(), CircuitError::MissingHeader);
}

#[test]
fn test_analyze_wire_usage_invalid_wire_id() {
    let circuit_data = "1 5\n2 1 0 10 2 XOR\n";

    let result = analyze_wire_usage(circuit_data.as_bytes());

    assert!(result.is_err());
    assert_eq!(
        result.unwrap_err(),
        CircuitError::Gate {
            line: 2,
            error: GateLineError::WireOutOfRange { output: false, wire: 10 }
        }
    );
}

#[test]
fn test_analyze_wire_usage_empty_line_error() {
    let circuit_data = "2 5\n2 1 0 1 2 XOR\n\n2 1 2 3 4 AND\n";

    let result = analyze_wire_usage(circuit_data.as_bytes());

    assert!(result.is_err());
    assert_eq!(
        result.unwrap_err(),
        CircuitError::Gate { line: 3, error: GateLineError::Empty }
    );
}

#[test]
fn test_analyze_wire_usage_malformed_gate() {
    let circuit_data = "1 3\ninvalid gate line\n";

    let result = analyze_wire_usage(circuit_data.as_bytes());

    assert!(result.is_err());
    assert_eq!(
        result.unwrap_err(),
        CircuitError::Gate { line: 2, error: GateLineError::InvalidNumInputs }
    );
}

#[test]
fn test_analyze_wire_usage_usage_count_saturation() {
    let mut circuit_data = String::from("256 3\n");

    for i in 0..256 {
        let output_wire = if i % 2 == 0 { 1 } else { 2 };
        circuit_data.push_str(&format!("1 1 0 {} NOT\n", output_wire));
    }

    let report = analyze_wire_usage(circuit_data.as_bytes()).unwrap();

    assert_eq!(report.total_wires, 3);
    assert_eq!(report.primary_inputs, 1);
    assert_eq!(report.primary_outputs, 2);

    assert_eq!(report.wire_usage_counts[0], 255);
}

#[test]
fn test_analyze_counts_just_below_saturation() {
    let mut circuit_data = String::from("254 3\n");
    for _ in 0..254 {
        circuit_data.push_str("1 1 0 1 BUF\n");
    }
    let report = analyze_wire_usage(circuit_data.as_bytes()).unwrap();
    assert_eq!(report.wire_usage_counts, vec![254, 0, 0]);
    assert_eq!(report.missing_wires_count, 1);
}

#[test]
fn test_analyze_counts_every_occurrence() {
    let report = analyze_wire_usage(b"2 4\n2 1 0 0 1 AND\n3 2 0 1 1 2 3 MAJ\n").unwrap();
    assert_eq!(report.wire_usage_counts, vec![3, 2, 0, 0]);
    assert_eq!(report.primary_input_wires, vec![0]);
    assert_eq!(report.primary_output_wires, vec![2, 3]);
    assert_eq!(report.intermediate_wires, 1);
    assert_eq!(
        report.primary_inputs
            + report.intermediate_wires
            + report.primary_outputs
            + report.missing_wires_count,
        report.total_wires
    );
}

#[test]
fn test_analyze_error_order_in_a_line() {
    assert_eq!(
        analyze_wire_usage(b"1 3\n2 1 9 x 2 XOR\n").unwrap_err(),
        CircuitError::Gate {
            line: 2,
            error: GateLineError::WireOutOfRange { output: false, wire: 9 }
        }
    );
    assert_eq!(
        analyze_wire_usage(b"1 3\n2 1 0 x 9 XOR\n").unwrap_err(),
        CircuitError::Gate {
            line: 2,
            error: GateLineError::InvalidWire { output: false, index: 1 }
        }
    );
    assert_eq!(
        analyze_wire_usage(b"1 3\n2 1 0 1 3 XOR\n").unwrap_err(),
        CircuitError::Gate {
            line: 2,
            error: GateLineError::WireOutOfRange { output: true, wire: 3 }
        }
    );
    assert_eq!(
        analyze_wire_usage(b"1 3\n2 1 0 1 2\n").unwrap_err(),
        CircuitError::Gate { line: 2, error: GateLineError::MissingGateType }
    );
    assert_eq!(
        analyze_wire_usage(b"1 3\n2 1 0 1 2 XOR XOR\n").unwrap_err(),
        CircuitError::Gate { line: 2, error: GateLineError::TooManyTokens }
    );
    assert_eq!(
        analyze_wire_usage(b"1 3\n2\n").unwrap_err(),
        CircuitError::Gate { line: 2, error: GateLineError::MissingNumOutputs }
    );
    assert_eq!(
        analyze_wire_usage(b"1 3\n2 z\n").unwrap_err(),
        CircuitError::Gate { line: 2, error: GateLineError::InvalidNumOutputs }
    );
    assert_eq!(
        analyze_wire_usage(b"1 3\n2 1 0\n").unwrap_err(),
        CircuitError::Gate {
            line: 2,
            error: GateLineError::MissingWire { output: false, index: 1 }
        }
    );
}

#[test]
fn test_analyze_header_faults() {
    assert_eq!(analyze_wire_usage(b"\n1 3\n").unwrap_err(), CircuitError::InvalidHeader);
    assert_eq!(analyze_wire_usage(b"1 2 3\n").unwrap_err(), CircuitError::InvalidHeader);
    assert_eq!(analyze_wire_usage(b"1 x\n").unwrap_err(), CircuitError::InvalidNumWires);
    assert_eq!(
        analyze_wire_usage(b"1 4294967296\n").unwrap_err(),
        CircuitError::InvalidNumWires
    );
}

#[test]
fn test_analyze_ignores_spacing_and_final_newline() {
    let tidy = analyze_wire_usage(b"2 5\n2 1 0 1 2 XOR\n2 1 2 3 4 AND\n").unwrap();
    let ragged = analyze_wire_usage(b" 2\t5 \r\n2 1   0 1 2 XOR\r\n\t2 1 2 3 4 AND").unwrap();
    assert_eq!(tidy, ragged);
    let reordered = analyze_wire_usage(b"2 5\n2 1 2 3 4 AND\n2 1 1 0 2 FOO\n").unwrap();
    assert_eq!(tidy, reordered);
}

#[test]
fn test_analyzer_line_by_line() {
    let mut analyzer = WireAnalyzer::new(b"7 5").unwrap();
    assert_eq!(analyzer.declared_gates(), 7);
    analyzer.process_line(b"2 1 0 1 2 XOR").unwrap();
    assert_eq!(
        analyzer.process_line(b"2 1 0 1 5 XOR"),
        Err(GateLineError::WireOutOfRange { output: true, wire: 5 })
    );
    assert_eq!(analyzer.process_line(b""), Err(GateLineError::Empty));
    analyzer.process_line(b"2 1 2 3 4 AND").unwrap();
    let report = analyzer.finish();
    assert_eq!(
        report,
        analyze_wire_usage(b"2 5\n2 1 0 1 2 XOR\n2 1 2 3 4 AND\n").unwrap()
    );
}

#[test]
fn test_usage_distribution() {
    let mut circuit = String::from("300 6\n");
    for _ in 0..300 {
        circuit.push_str("2 1 0 1 5 AND\n");
    }
    circuit.push_str("2 1 2 3 5 AND\n2 1 2 2 5 XOR\n");
    let report = analyze_wire_usage(circuit.as_bytes()).unwrap();
    assert_eq!(report.wire_usage_counts, vec![255, 255, 3, 1, 0, 0]);
    assert_eq!(report.usage_distribution(), vec![(0, 2), (1, 1), (3, 1), (255, 2)]);

    let empty = analyze_wire_usage(b"0 0\n").unwrap();
    assert_eq!(empty.usage_distribution(), vec![]);
}
