use gc::bristol::{CircuitError, GateLineError};
use gc::constants::PROGRESS_UPDATE_INTERVAL;
use gc::memory_simulation::{simulate_memory_usage, MemorySnapshot};
use gc::wire_analyzer::analyze_wire_usage;

#[test]
fn test_simulate_memory_usage_small() {
    let circuit = "3 6\n2 1 0 1 2 XOR\n2 1 2 3 4 AND\n2 1 3 4 5 XOR\n";
    let report = analyze_wire_usage(circuit.as_bytes()).unwrap();
    let sim = simulate_memory_usage(circuit.as_bytes(), &report).unwrap();
    assert_eq!(sim.total_gates_processed, 3);
    assert_eq!(sim.max_live_wires, 3);
    assert_eq!(sim.final_live_wires, 1);
    assert_eq!(sim.snapshots, vec![MemorySnapshot { gate_number: 1, live_wire_count: 2 }]);
}

#[test]
fn test_simulate_memory_usage_snapshots() {
    assert_eq!(PROGRESS_UPDATE_INTERVAL, 1000);
    let mut circuit = String::from("2001 2002\n");
    for i in 0..2001 {
        circuit.push_str(&format!("2 1 {} {} {} XOR\n", i, i, i + 1));
    }
    let report = analyze_wire_usage(circuit.as_bytes()).unwrap();
    assert_eq!(report.primary_input_wires, vec![0]);
    let sim = simulate_memory_usage(circuit.as_bytes(), &report).unwrap();
    assert_eq!(sim.total_gates_processed, 2001);
    assert_eq!(sim.max_live_wires, 1);
    assert_eq!(sim.final_live_wires, 1);
    assert_eq!(
        sim.snapshots,
        vec![
            MemorySnapshot { gate_number: 1, live_wire_count: 1 },
            MemorySnapshot { gate_number: 1001, live_wire_count: 1 },
            MemorySnapshot { gate_number: 2001, live_wire_count: 1 },
        ]
    );
}

#[test]
fn test_simulate_memory_usage_permanent_and_uncounted_wires() {
    let mut circuit = String::from("300 400\n");
    for i in 0..300 {
        circuit.push_str(&format!("1 1 0 {} NOT\n", i + 1));
    }
    let report = analyze_wire_usage(circuit.as_bytes()).unwrap();
    assert_eq!(report.wire_usage_counts[0], 255);
    let sim = simulate_memory_usage(circuit.as_bytes(), &report).unwrap();
    assert_eq!(sim.final_live_wires, 301);
    assert_eq!(sim.max_live_wires, 301);

    let mut short = report;
    short.wire_usage_counts.truncate(0);
    let sim = simulate_memory_usage(b"1 3\n2 1 0 1 2 XOR\n", &short).unwrap();
    assert_eq!(sim.final_live_wires, 2);
}

#[test]
fn test_simulate_memory_usage_faults() {
    let report = analyze_wire_usage(b"0 0\n").unwrap();
    assert_eq!(
        simulate_memory_usage(b"", &report).unwrap_err(),
        CircuitError::MissingHeader
    );
    assert_eq!(
        simulate_memory_usage(b"1 3\n2 1 0 1 2 XOR 5\n", &report).unwrap_err(),
        CircuitError::Gate { line: 1, error: GateLineError::TooManyTokens }
    );
}

#[test]
fn test_memory_report_csv() {
    let mut circuit = String::from("1001 1002\n");
    for i in 0..1001 {
        circuit.push_str(&format!("2 1 {} {} {} XOR\n", i, i, i + 1));
    }
    let report = analyze_wire_usage(circuit.as_bytes()).unwrap();
    let sim = simulate_memory_usage(circuit.as_bytes(), &report).unwrap();
    assert_eq!(sim.csv(), "gate_number,live_wire_count\n1,1\n1001,1\n");

    let empty = simulate_memory_usage(b"0 0\n", &report).unwrap();
    assert_eq!(empty.csv(), "gate_number,live_wire_count\n");
}
