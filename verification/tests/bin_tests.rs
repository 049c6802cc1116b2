use gc::bin::{
    convert_bristol_to_batches, decode_batches, encode_batches, parse_bristol_gate_line,
    u32_from_le, u32_to_le, verify_batches, verify_bristol_circuit, CompactGate, GateBatch,
    GateType, VerificationStats,
};
use gc::bristol::{CircuitError, GateLineError};
use gc::decimal::format_number;

#[test]
fn test_compact_gate_serialization() {
    let gate = CompactGate {
        input1: 0x12345678,
        input2: 0x9ABCDEF0,
        output: 0x11223344,
    };

    let bytes = gate.to_bytes();
    let restored = CompactGate::from_bytes(&bytes);

    assert_eq!(gate.input1, restored.input1);
    assert_eq!(gate.input2, restored.input2);
    assert_eq!(gate.output, restored.output);
}

#[test]
fn test_compact_gate_bytes_are_little_endian() {
    let gate = CompactGate { input1: 0x12345678, input2: 0x9ABCDEF0, output: 1 };
    assert_eq!(
        gate.to_bytes(),
        [0x78, 0x56, 0x34, 0x12, 0xF0, 0xDE, 0xBC, 0x9A, 1, 0, 0, 0]
    );
    let read = CompactGate::from_bytes(&[1, 2, 3, 4, 0xFF, 0xFF, 0xFF, 0xFF, 0, 1, 0, 0]);
    assert_eq!(read, CompactGate { input1: 0x04030201, input2: u32::MAX, output: 256 });
}

#[test]
fn test_gate_batch_operations() {
    let mut batch = GateBatch::new();

    let gate1 = CompactGate {
        input1: 10,
        input2: 20,
        output: 30,
    };
    let gate2 = CompactGate {
        input1: 40,
        input2: 50,
        output: 60,
    };

    batch.set_gate(0, gate1, GateType::XOR);
    batch.set_gate(1, gate2, GateType::AND);

    let (retrieved_gate1, gate_type1) = batch.get_gate(0);
    assert_eq!(retrieved_gate1.input1, 10);
    assert_eq!(retrieved_gate1.input2, 20);
    assert_eq!(retrieved_gate1.output, 30);
    assert_eq!(gate_type1, GateType::XOR);

    let (retrieved_gate2, gate_type2) = batch.get_gate(1);
    assert_eq!(retrieved_gate2.input1, 40);
    assert_eq!(retrieved_gate2.input2, 50);
    assert_eq!(retrieved_gate2.output, 60);
    assert_eq!(gate_type2, GateType::AND);
}

#[test]
fn test_gate_batch_kind_bits() {
    let mut batch = GateBatch::new();
    let gate = CompactGate { input1: 1, input2: 2, output: 3 };
    for i in 0..8 {
        batch.set_gate(i, gate, GateType::AND);
    }
    assert_eq!(batch.gate_types, 0xFF);
    batch.set_gate(3, gate, GateType::XOR);
    assert_eq!(batch.gate_types, 0xF7);
    batch.set_gate(3, gate, GateType::XOR);
    assert_eq!(batch.gate_types, 0xF7);
    assert_eq!(batch.gate_type(3), GateType::XOR);
    assert_eq!(batch.gate_type(7), GateType::AND);
    batch.set_gate(0, gate, GateType::XOR);
    assert_eq!(batch.gate_types, 0xF6);
}

#[test]
fn test_gate_batch_gate_count() {
    let mut batch = GateBatch::new();
    assert_eq!(batch.gate_count(), 1);
    batch.set_gate(0, CompactGate { input1: 1, input2: 2, output: 3 }, GateType::XOR);
    assert_eq!(batch.gate_count(), 1);
    batch.set_gate(4, CompactGate { input1: 0, input2: 0, output: 9 }, GateType::AND);
    assert_eq!(batch.gate_count(), 5);
    batch.set_gate(7, CompactGate { input1: 0, input2: 1, output: 0 }, GateType::AND);
    assert_eq!(batch.gate_count(), 8);
    assert_eq!(batch.gate_count_with_expected(3), 3);
    assert_eq!(batch.gate_count_with_expected(8), 8);
    assert_eq!(batch.gate_count_with_expected(100), 8);
    assert_eq!(batch.gate_count_with_expected(0), 0);
}

#[test]
fn test_batch_serialization() {
    let mut batch = GateBatch::new();

    batch.set_gate(
        0,
        CompactGate {
            input1: 100,
            input2: 200,
            output: 300,
        },
        GateType::XOR,
    );
    batch.set_gate(
        1,
        CompactGate {
            input1: 400,
            input2: 500,
            output: 600,
        },
        GateType::AND,
    );

    let bytes = batch.to_bytes();
    assert_eq!(bytes.len(), 97);

    let restored = GateBatch::from_bytes(&bytes);

    let (gate0, gate_type0) = restored.get_gate(0);
    assert_eq!(gate0.input1, 100);
    assert_eq!(gate0.input2, 200);
    assert_eq!(gate0.output, 300);
    assert_eq!(gate_type0, GateType::XOR);

    let (gate1, gate_type1) = restored.get_gate(1);
    assert_eq!(gate1.input1, 400);
    assert_eq!(gate1.input2, 500);
    assert_eq!(gate1.output, 600);
    assert_eq!(gate_type1, GateType::AND);
}

#[test]
fn test_batch_bytes_layout() {
    let mut batch = GateBatch::new();
    batch.set_gate(1, CompactGate { input1: 0x0102, input2: 3, output: 4 }, GateType::AND);
    batch.set_gate(7, CompactGate { input1: 5, input2: 6, output: 0x07000000 }, GateType::AND);
    let bytes = batch.to_bytes();
    assert_eq!(&bytes[0..12], &[0u8; 12]);
    assert_eq!(&bytes[12..24], &[2, 1, 0, 0, 3, 0, 0, 0, 4, 0, 0, 0]);
    assert_eq!(&bytes[84..96], &[5, 0, 0, 0, 6, 0, 0, 0, 0, 0, 0, 7]);
    assert_eq!(bytes[96], 0b1000_0010);
    assert_eq!(GateBatch::from_bytes(&bytes), batch);
}

#[test]
fn test_bristol_parsing() {
    let line = "2 1 100 200 300 XOR";
    let (input1, input2, output, gate_type) = parse_bristol_gate_line(line.as_bytes()).unwrap();

    assert_eq!(input1, 100);
    assert_eq!(input2, 200);
    assert_eq!(output, 300);
    assert_eq!(gate_type, GateType::XOR);

    let line = "2 1 400 500 600 AND";
    let (input1, input2, output, gate_type) = parse_bristol_gate_line(line.as_bytes()).unwrap();

    assert_eq!(input1, 400);
    assert_eq!(input2, 500);
    assert_eq!(output, 600);
    assert_eq!(gate_type, GateType::AND);
}

#[test]
fn test_bristol_parsing_errors() {
    assert_eq!(
        parse_bristol_gate_line(b"2 1 0 1 XOR"),
        Err(GateLineError::TokenCount { count: 5 })
    );
    assert_eq!(
        parse_bristol_gate_line(b"x 1 0 1 2 XOR"),
        Err(GateLineError::InvalidNumInputs)
    );
    assert_eq!(
        parse_bristol_gate_line(b"2 y 0 1 2 XOR"),
        Err(GateLineError::InvalidNumOutputs)
    );
    assert_eq!(
        parse_bristol_gate_line(b"3 1 0 1 2 XOR"),
        Err(GateLineError::UnsupportedArity)
    );
    assert_eq!(
        parse_bristol_gate_line(b"4294967296 1 0 1 2 XOR"),
        Err(GateLineError::UnsupportedArity)
    );
    assert_eq!(
        parse_bristol_gate_line(b"2 1 0 4294967296 2 XOR"),
        Err(GateLineError::InvalidWire { output: false, index: 1 })
    );
    assert_eq!(
        parse_bristol_gate_line(b"2 1 0 1 -2 XOR"),
        Err(GateLineError::InvalidWire { output: true, index: 0 })
    );
    assert_eq!(
        parse_bristol_gate_line(b"2 1 0 1 2 NAND"),
        Err(GateLineError::UnsupportedKind)
    );
    assert_eq!(
        parse_bristol_gate_line(b"  +2\t1  0 4294967295 2   AND \r"),
        Ok((0, u32::MAX, 2, GateType::AND))
    );
}

#[test]
fn test_verify_bristol_circuit() {
    let text = "2 1 0 1 2 XOR\n2 1 2 3 4 AND\n2 1 4 5 6 XOR\n2 1 6 7 8 AND\n2 1 8 9 10 AND\n";

    let stats = verify_bristol_circuit(text.as_bytes()).unwrap();

    assert_eq!(stats.total_gates, 5);
    assert_eq!(stats.xor_gates, 2);
    assert_eq!(stats.and_gates, 3);
    assert!(stats.file_size > 0);
    assert_eq!(stats.file_size, text.len() as u64);
}

#[test]
fn test_verify_bristol_circuit_skips_blank_lines() {
    let text = "\n2 1 0 1 2 XOR\n   \n2 1 2 3 4 AND\n\n";
    let stats = verify_bristol_circuit(text.as_bytes()).unwrap();
    assert_eq!(
        stats,
        VerificationStats { total_gates: 2, xor_gates: 1, and_gates: 1, file_size: 34 }
    );
    assert_eq!(
        verify_bristol_circuit(b"2 1 0 1 2 XOR\n\n1 1 0 1 NOT\n").unwrap_err(),
        CircuitError::Gate { line: 3, error: GateLineError::TokenCount { count: 5 } }
    );
    assert_eq!(verify_bristol_circuit(b"").unwrap(), VerificationStats::new());
}

#[test]
fn test_format_number() {
    assert_eq!(format_number(0), "0");
    assert_eq!(format_number(7), "7");
    assert_eq!(format_number(999), "999");
    assert_eq!(format_number(1000), "1_000");
    assert_eq!(format_number(1234567), "1_234_567");
    assert_eq!(format_number(1_000_005), "1_000_005");
    assert_eq!(format_number(12_034), "12_034");
    assert_eq!(format_number(100_200_300_400), "100_200_300_400");
}

#[test]
fn test_round_trip_conversion() {
    let bristol_content = "2 1 0 1 2 XOR\n2 1 3 4 5 AND\n2 1 6 7 8 XOR\n";

    let (data, stats) = convert_bristol_to_batches(bristol_content.as_bytes()).unwrap();

    assert_eq!(stats.total_gates, 3);
    assert_eq!(stats.xor_gates, 2);
    assert_eq!(stats.and_gates, 1);

    let gates = decode_batches(&data, stats.total_gates as u32);
    let mut reader = gates.iter();

    let (gate, gate_type) = reader.next().unwrap();
    assert_eq!(gate.input1, 0);
    assert_eq!(gate.input2, 1);
    assert_eq!(gate.output, 2);
    assert_eq!(*gate_type, GateType::XOR);

    let (gate, gate_type) = reader.next().unwrap();
    assert_eq!(gate.input1, 3);
    assert_eq!(gate.input2, 4);
    assert_eq!(gate.output, 5);
    assert_eq!(*gate_type, GateType::AND);

    let (gate, gate_type) = reader.next().unwrap();
    assert_eq!(gate.input1, 6);
    assert_eq!(gate.input2, 7);
    assert_eq!(gate.output, 8);
    assert_eq!(*gate_type, GateType::XOR);

    assert!(reader.next().is_none());

    assert_eq!(gates.len(), 3);
}

#[test]
fn test_batch_stream_layout() {
    let mut gates = Vec::new();
    for i in 0..9u32 {
        let kind = if i % 3 == 0 { GateType::AND } else { GateType::XOR };
        gates.push((CompactGate { input1: i, input2: i + 100, output: i + 200 }, kind));
    }
    let data = encode_batches(&gates);
    assert_eq!(data.len(), 2 * 97);
    assert_eq!(data[96], 0b0100_1001);
    assert_eq!(data[97 + 96], 0b0000_0000);
    assert_eq!(&data[12..24], &[1, 0, 0, 0, 101, 0, 0, 0, 201, 0, 0, 0]);
    assert_eq!(&data[97..109], &[8, 0, 0, 0, 108, 0, 0, 0, 208, 0, 0, 0]);
    assert_eq!(&data[109..193], &[0u8; 84][..]);

    assert_eq!(decode_batches(&data, 9), gates);
    assert_eq!(decode_batches(&data, 4), gates[..4].to_vec());
    assert_eq!(decode_batches(&data, 0), vec![]);
    assert_eq!(decode_batches(&data[..193], 9), gates[..8].to_vec());
    let padded = decode_batches(&data, 100);
    assert_eq!(padded.len(), 16);
    assert_eq!(padded[9], (CompactGate { input1: 0, input2: 0, output: 0 }, GateType::XOR));

    assert_eq!(encode_batches(&Vec::new()).len(), 0);
    assert_eq!(encode_batches(&gates[..8].to_vec()).len(), 97);

    let stats = verify_batches(&data, 9, 1234);
    assert_eq!(
        stats,
        VerificationStats { total_gates: 9, xor_gates: 6, and_gates: 3, file_size: 1234 }
    );
}

#[test]
fn test_u32_little_endian() {
    assert_eq!(u32_to_le(0x0A0B0C0D), [0x0D, 0x0C, 0x0B, 0x0A]);
    assert_eq!(u32_from_le(0x0D, 0x0C, 0x0B, 0x0A), 0x0A0B0C0D);
    for x in [0u32, 1, 255, 256, 65535, 65536, 0x7FFF_FFFF, 0x8000_0000, u32::MAX] {
        assert_eq!(u32_to_le(x), x.to_le_bytes());
        let b = x.to_le_bytes();
        assert_eq!(u32_from_le(b[0], b[1], b[2], b[3]), x);
    }
}
