use gc::bristol::{CircuitError, GateLineError};
use gc::counter::count_gate_types;

#[test]
fn counter_test_count_gate_types_basic() {
    let circuit_data = "3 9\n2 1 0 1 2 XOR\n2 1 3 4 5 AND\n2 1 6 7 8 XOR\n";

    let counts = count_gate_types(circuit_data.as_bytes()).unwrap();

    assert_eq!(counts.get(b"XOR"), Some(2));
    assert_eq!(counts.get(b"AND"), Some(1));
    assert_eq!(counts.len(), 2);
}

#[test]
fn counter_test_count_gate_types_single_gate() {
    let circuit_data = "1 3\n2 1 0 1 2 NAND\n";

    let counts = count_gate_types(circuit_data.as_bytes()).unwrap();

    assert_eq!(counts.get(b"NAND"), Some(1));
    assert_eq!(counts.len(), 1);
}

#[test]
fn counter_test_count_gate_types_multiple_same_gates() {
    let circuit_data = "4 12\n2 1 0 1 2 OR\n2 1 3 4 5 OR\n2 1 6 7 8 OR\n2 1 9 10 11 OR\n";

    let counts = count_gate_types(circuit_data.as_bytes()).unwrap();

    assert_eq!(counts.get(b"OR"), Some(4));
    assert_eq!(counts.len(), 1);
}

#[test]
fn counter_test_count_gate_types_empty_file() {
    let circuit_data = "0 0\n";

    let counts = count_gate_types(circuit_data.as_bytes()).unwrap();

    assert_eq!(counts.len(), 0);
}

#[test]
fn counter_test_count_gate_types_empty_line_error() {
    let circuit_data = "2 6\n2 1 0 1 2 XOR\n\n2 1 3 4 5 AND\n";

    let result = count_gate_types(circuit_data.as_bytes());

    assert!(result.is_err());
    assert_eq!(
        result.unwrap_err(),
        CircuitError::Gate { line: 3, error: GateLineError::Empty }
    );
}

#[test]
fn counter_test_count_gate_types_whitespace_only_line_error() {
    let circuit_data = "2 6\n2 1 0 1 2 XOR\n   \t  \n2 1 3 4 5 AND\n";

    let result = count_gate_types(circuit_data.as_bytes());

    assert!(result.is_err());
    assert_eq!(
        result.unwrap_err(),
        CircuitError::Gate { line: 3, error: GateLineError::Empty }
    );
}

#[test]
fn counter_test_count_gate_types_various_gate_types() {
    let circuit_data = "7 20\n2 1 0 1 2 XOR\n2 1 3 4 5 AND\n2 1 6 7 8 OR\n2 1 9 10 11 NAND\n2 1 12 13 14 NOR\n1 1 15 16 NOT\n2 1 17 18 19 XOR\n";

    let counts = count_gate_types(circuit_data.as_bytes()).unwrap();

    assert_eq!(counts.get(b"XOR"), Some(2));
    assert_eq!(counts.get(b"AND"), Some(1));
    assert_eq!(counts.get(b"OR"), Some(1));
    assert_eq!(counts.get(b"NAND"), Some(1));
    assert_eq!(counts.get(b"NOR"), Some(1));
    assert_eq!(counts.get(b"NOT"), Some(1));
    assert_eq!(counts.len(), 6);
}

#[test]
fn test_count_gate_types_order_and_absent_kind() {
    let counts = count_gate_types(b"3 9\nB\nx y A\nB\n").unwrap();
    assert_eq!(counts.len(), 2);
    assert_eq!(counts.entry(0), (&b"B".to_vec(), 2));
    assert_eq!(counts.entry(1), (&b"A".to_vec(), 1));
    assert_eq!(counts.get(b"C"), None);
    assert_eq!(counts.get(b""), None);
}

#[test]
fn test_count_gate_types_header_faults() {
    assert_eq!(count_gate_types(b"").unwrap_err(), CircuitError::MissingHeader);
    assert_eq!(count_gate_types(b"3\n").unwrap_err(), CircuitError::InvalidHeader);
    assert_eq!(count_gate_types(b"a 3\n").unwrap_err(), CircuitError::InvalidNumGates);
}
