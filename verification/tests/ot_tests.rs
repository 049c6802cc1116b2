use gc::bristol::CircuitError;
use gc::garbler::WireLabels;
use gc::keystream::LabelRng;
use gc::label::WireLabel;
use gc::ot_simulation::{
    create_ot_result_with_specific_inputs, simulate_ot, OTResult, SelectedInput,
};
use std::collections::HashMap;

#[test]
fn ot_simulation_test_ot_simulation_deterministic() {
    let mut input_labels = HashMap::new();
    let label_0 = WireLabel::new([0x01; 16]);
    let delta = WireLabel::new([0xFF; 16]);

    input_labels.insert(0, label_0);
    input_labels.insert(1, label_0);

    let wire_labels = WireLabels {
        input_labels,
        output_labels: HashMap::new(),
        delta,
    };

    let seed = [0u8; 32];

    let ot_result = simulate_ot(&wire_labels, &seed).unwrap();

    assert_eq!(ot_result.selected_inputs.len(), 2);
    assert!(ot_result.selected_inputs.contains_key(&0));
    assert!(ot_result.selected_inputs.contains_key(&1));

    for (&wire_id, selected_input) in &ot_result.selected_inputs {
        let expected_label_0 = wire_labels.input_labels[&wire_id];
        let expected_label_1 = expected_label_0.xor(&delta);

        if selected_input.bit_value {
            assert_eq!(selected_input.label, expected_label_1);
        } else {
            assert_eq!(selected_input.label, expected_label_0);
        }
    }
}

#[test]
fn test_ot_simulation_empty_inputs() {
    let wire_labels = WireLabels {
        input_labels: HashMap::new(),
        output_labels: HashMap::new(),
        delta: WireLabel::new([0xFF; 16]),
    };

    let seed = [0x42; 32];
    let ot_result = simulate_ot(&wire_labels, &seed).unwrap();

    assert_eq!(ot_result.selected_inputs.len(), 0);
}

#[test]
fn test_ot_simulation_multiple_inputs() {
    let mut input_labels = HashMap::new();
    let label_0 = WireLabel::new([0x11; 16]);
    let delta = WireLabel::new([0xAA; 16]);

    for i in 0..100u32 {
        input_labels.insert(i, label_0);
    }

    let wire_labels = WireLabels {
        input_labels,
        output_labels: HashMap::new(),
        delta,
    };

    let seed = [0x99; 32];
    let ot_result = simulate_ot(&wire_labels, &seed).unwrap();

    assert_eq!(ot_result.selected_inputs.len(), 100);

    for i in 0..100u32 {
        let selected = ot_result.get_selected_input(i).unwrap();
        let expected_label_0 = wire_labels.input_labels[&i];
        let expected_label_1 = expected_label_0.xor(&delta);

        assert!(selected.label == expected_label_0 || selected.label == expected_label_1);

        if selected.bit_value {
            assert_eq!(selected.label, expected_label_1);
        } else {
            assert_eq!(selected.label, expected_label_0);
        }
    }
}

#[test]
fn test_ot_result_get_nonexistent_wire() {
    let ot_result = OTResult {
        selected_inputs: HashMap::new(),
    };

    assert!(ot_result.get_selected_input(999u32).is_none());
}

#[test]
fn test_ot_result_get_existing_wire() {
    let mut selected_inputs = HashMap::new();
    let chosen = SelectedInput { label: WireLabel::new([0x42; 16]), bit_value: true };
    selected_inputs.insert(7u32, chosen);
    let ot_result = OTResult { selected_inputs };
    assert_eq!(ot_result.get_selected_input(7), Some(&chosen));
    assert!(ot_result.get_selected_input(8).is_none());
}

#[test]
fn test_ot_simulation_label_consistency() {
    let mut input_labels = HashMap::new();
    let label_0 = WireLabel::new([
        0x10, 0x20, 0x30, 0x40, 0x50, 0x60, 0x70, 0x80, 0x90, 0xA0, 0xB0, 0xC0, 0xD0, 0xE0,
        0xF0, 0x00,
    ]);
    let delta = WireLabel::new([
        0x01, 0x02, 0x03, 0x04, 0x05, 0x06, 0x07, 0x08, 0x09, 0x0A, 0x0B, 0x0C, 0x0D, 0x0E,
        0x0F, 0x10,
    ]);

    input_labels.insert(42u32, label_0);

    let wire_labels = WireLabels {
        input_labels,
        output_labels: HashMap::new(),
        delta,
    };

    for seed_byte in 0..10u8 {
        let seed = [seed_byte; 32];
        let ot_result = simulate_ot(&wire_labels, &seed).unwrap();

        let selected = ot_result.get_selected_input(42u32).unwrap();

        if selected.bit_value {
            let expected_label_1 = label_0.xor(&delta);
            assert_eq!(selected.label, expected_label_1);
        } else {
            assert_eq!(selected.label, label_0);
        }
    }
}

#[test]
fn test_ot_simulation_takes_bits_in_wire_order() {
    let mut input_labels = HashMap::new();
    let wires = [9u32, 2, 40, 0, 17, 3];
    for &w in &wires {
        input_labels.insert(w, WireLabel::new([w as u8; 16]));
    }
    let delta = WireLabel::new([0x80; 16]);
    let wire_labels = WireLabels { input_labels, output_labels: HashMap::new(), delta };
    let seed = [0x42; 32];
    let ot_result = simulate_ot(&wire_labels, &seed).unwrap();

    let mut sorted = wires.to_vec();
    sorted.sort();
    let mut rng = LabelRng::from_seed(seed);
    for w in sorted {
        let bit = rng.next_bit();
        let selected = ot_result.get_selected_input(w).unwrap();
        assert_eq!(selected.bit_value, bit);
    }
    let known = [false, false, true, false, true, false];
    let mut sorted = wires.to_vec();
    sorted.sort();
    for (i, w) in sorted.iter().enumerate() {
        assert_eq!(ot_result.get_selected_input(*w).unwrap().bit_value, known[i]);
    }
}

#[test]
fn test_ot_simulation_is_reproducible() {
    let mut input_labels = HashMap::new();
    for w in 0..50u32 {
        input_labels.insert(w * 3, WireLabel::new([w as u8; 16]));
    }
    let wire_labels = WireLabels {
        input_labels,
        output_labels: HashMap::new(),
        delta: WireLabel::new([0x33; 16]),
    };
    let first = simulate_ot(&wire_labels, &[5; 32]).unwrap();
    let second = simulate_ot(&wire_labels, &[5; 32]).unwrap();
    assert_eq!(first.selected_inputs, second.selected_inputs);
}

#[test]
fn test_specific_inputs_select_labels() {
    let mut input_labels = HashMap::new();
    let l0 = WireLabel::new([0x01; 16]);
    let l1 = WireLabel::new([0x02; 16]);
    let delta = WireLabel::new([0xF0; 16]);
    input_labels.insert(0u32, l0);
    input_labels.insert(5u32, l1);
    let wire_labels = WireLabels { input_labels, output_labels: HashMap::new(), delta };

    let mut bits = HashMap::new();
    bits.insert(0u32, true);
    bits.insert(5u32, false);
    bits.insert(77u32, true);
    let ot = create_ot_result_with_specific_inputs(&wire_labels, &bits).unwrap();
    assert_eq!(ot.selected_inputs.len(), 2);
    assert_eq!(
        ot.selected_inputs[&0],
        SelectedInput { label: WireLabel::new([0xF1; 16]), bit_value: true }
    );
    assert_eq!(ot.selected_inputs[&5], SelectedInput { label: l1, bit_value: false });
}

#[test]
fn test_specific_inputs_missing_bit() {
    let mut input_labels = HashMap::new();
    for w in [4u32, 1, 9, 6] {
        input_labels.insert(w, WireLabel::new([w as u8; 16]));
    }
    let wire_labels = WireLabels {
        input_labels,
        output_labels: HashMap::new(),
        delta: WireLabel::new([0xF0; 16]),
    };
    let mut bits = HashMap::new();
    bits.insert(1u32, true);
    bits.insert(9u32, false);
    let result = create_ot_result_with_specific_inputs(&wire_labels, &bits);
    assert_eq!(result.unwrap_err(), CircuitError::MissingInputBit { wire: 4 });
}

#[test]
fn test_ot_simulation_many_wires_in_order() {
    let mut input_labels = HashMap::new();
    let mut wires: Vec<u32> = Vec::new();
    let mut w = 7u32;
    for _ in 0..1000 {
        w = w.wrapping_mul(1664525).wrapping_add(1013904223);
        if !input_labels.contains_key(&w) {
            input_labels.insert(w, WireLabel::new([(w >> 24) as u8; 16]));
            wires.push(w);
        }
    }
    let wire_labels = WireLabels {
        input_labels,
        output_labels: HashMap::new(),
        delta: WireLabel::new([0x80; 16]),
    };
    let seed = [3; 32];
    let ot_result = simulate_ot(&wire_labels, &seed).unwrap();
    assert_eq!(ot_result.selected_inputs.len(), wires.len());
    wires.sort();
    let mut rng = LabelRng::from_seed(seed);
    for w in wires {
        assert_eq!(ot_result.get_selected_input(w).unwrap().bit_value, rng.next_bit());
    }
}

#[test]
fn test_ot_simulation_deterministic() {
    let mut input_labels = HashMap::new();
    let label_0 = WireLabel::new([0x01; 16]);
    let delta = WireLabel::new([0xFF; 16]);

    input_labels.insert(0, label_0);
    input_labels.insert(1, label_0);

    let wire_labels = WireLabels {
        input_labels,
        output_labels: HashMap::new(),
        delta,
    };

    let seed = [0u8; 32];

    let ot_result = simulate_ot(&wire_labels, &seed).unwrap();

    assert_eq!(ot_result.selected_inputs.len(), 2);
    assert!(ot_result.selected_inputs.contains_key(&0));
    assert!(ot_result.selected_inputs.contains_key(&1));

    for (&wire_id, selected_input) in &ot_result.selected_inputs {
        let expected_label_0 = wire_labels.input_labels[&wire_id];
        let expected_label_1 = expected_label_0.xor(&delta);

        if selected_input.bit_value {
            assert_eq!(selected_input.label, expected_label_1);
        } else {
            assert_eq!(selected_input.label, expected_label_0);
        }
    }

    assert!(ot_result.selected_inputs[&0].bit_value);
    assert!(ot_result.selected_inputs[&1].bit_value);
}
