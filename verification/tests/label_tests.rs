use gc::hash::garbling_hash;
use gc::bristol::CircuitError;
use gc::keystream::{seed_from_bytes, LabelRng};
use gc::label::WireLabel;
use rand::{RngCore, SeedableRng};
use rand_chacha::ChaCha12Rng;

fn create_test_seed() -> [u8; 32] {
    [0x42; 32]
}

#[test]
fn test_wire_label_creation() {
    let bytes = [0x42; 16];
    let label = WireLabel::new(bytes);
    assert_eq!(label.as_bytes(), &bytes);
}

#[test]
fn test_wire_label_random() {
    let seed = create_test_seed();
    let mut rng = LabelRng::from_seed(seed);

    let label1 = WireLabel::random(&mut rng);
    let label2 = WireLabel::random(&mut rng);

    assert_eq!(label1.as_bytes().len(), 16);
    assert_eq!(label2.as_bytes().len(), 16);

    assert_ne!(label1.as_bytes(), label2.as_bytes());
}

#[test]
fn garbler_test_wire_label_xor() {
    let label1 = WireLabel::new([0x01; 16]);
    let label2 = WireLabel::new([0x02; 16]);
    let result = label1.xor(&label2);
    assert_eq!(result.as_bytes(), &[0x03; 16]);
}

#[test]
fn test_wire_label_xor() {
    let label1 = WireLabel::new([0x01; 16]);
    let label2 = WireLabel::new([0x02; 16]);
    let result = label1.xor(&label2);
    assert_eq!(result.as_bytes(), &[0x03; 16]);
}

#[test]
fn test_wire_label_xor_identity() {
    let label = WireLabel::new([0xAB; 16]);
    let zero = WireLabel::new([0x00; 16]);
    let result = label.xor(&zero);
    assert_eq!(result.as_bytes(), label.as_bytes());
}

#[test]
fn test_wire_label_xor_self_cancellation() {
    let label = WireLabel::new([0xCD; 16]);
    let result = label.xor(&label);
    assert_eq!(result.as_bytes(), &[0x00; 16]);
}

#[test]
fn test_wire_label_xor_is_bytewise() {
    let mut a = [0u8; 16];
    let mut b = [0u8; 16];
    for i in 0..16 {
        a[i] = (i as u8) * 17;
        b[i] = 0xF0 ^ (i as u8);
    }
    let result = WireLabel::new(a).xor(&WireLabel::new(b));
    for i in 0..16 {
        assert_eq!(result.as_bytes()[i], a[i] ^ b[i]);
    }
}

#[test]
fn test_wire_label_xor_commutes_and_cancels() {
    let a = WireLabel::new([0x5A; 16]);
    let b = WireLabel::new([0xC3; 16]);
    let c = WireLabel::new([0x0F; 16]);
    assert_eq!(a.xor(&b), b.xor(&a));
    assert_eq!(a.xor(&b).xor(&c), a.xor(&b.xor(&c)));
    assert_eq!(a.xor(&b).xor(&b), a);
}

#[test]
fn test_garbling_hash_deterministic() {
    let label1 = WireLabel::new([0x11; 16]);
    let label2 = WireLabel::new([0x22; 16]);
    let labels = [label1, label2];

    let hash1 = garbling_hash(&labels);
    let hash2 = garbling_hash(&labels);

    assert_eq!(hash1, hash2);
}

#[test]
fn test_garbling_hash_known_value() {
    let labels = [WireLabel::new([0x11; 16]), WireLabel::new([0x22; 16])];
    let expected: [u8; 16] = [
        36, 136, 191, 113, 63, 222, 90, 126, 159, 239, 82, 192, 255, 109, 79, 24,
    ];
    assert_eq!(garbling_hash(&labels), expected);
}

#[test]
fn test_garbling_hash_depends_on_order() {
    let a = WireLabel::new([0x11; 16]);
    let b = WireLabel::new([0x22; 16]);
    assert_ne!(garbling_hash(&[a, b]), garbling_hash(&[b, a]));
    assert_ne!(garbling_hash(&[a]), garbling_hash(&[a, b]));
}

#[test]
fn test_label_stream_known_values() {
    let mut rng = LabelRng::from_seed(create_test_seed());
    let first = rng.next_label();
    let second = rng.next_label();
    assert_eq!(
        first.as_bytes(),
        &[50, 3, 135, 134, 244, 128, 61, 220, 201, 167, 187, 237, 90, 230, 114, 223]
    );
    assert_eq!(
        second.as_bytes(),
        &[145, 158, 70, 155, 126, 38, 233, 195, 136, 209, 43, 232, 23, 144, 204, 201]
    );
}

#[test]
fn test_label_stream_is_the_generator_output() {
    let seed = create_test_seed();
    let mut reference = ChaCha12Rng::from_seed(seed);
    let mut rng = LabelRng::from_seed(seed);
    for _ in 0..200 {
        let mut bytes = [0u8; 16];
        reference.fill_bytes(&mut bytes);
        assert_eq!(rng.next_label().as_bytes(), &bytes);
    }
}

#[test]
fn test_bit_stream_is_the_generator_output() {
    let seed = [0x99; 32];
    let mut reference = ChaCha12Rng::from_seed(seed);
    let mut rng = LabelRng::from_seed(seed);
    for _ in 0..200 {
        let expected = (reference.next_u32() & 1) == 1;
        assert_eq!(rng.next_bit(), expected);
    }
}

#[test]
fn test_label_stream_is_reproducible() {
    let mut rng1 = LabelRng::from_seed([7; 32]);
    let mut rng2 = LabelRng::from_seed([7; 32]);
    let mut rng3 = LabelRng::from_seed([8; 32]);
    let a = rng1.next_label();
    assert_eq!(a, rng2.next_label());
    assert_ne!(a, rng3.next_label());
    assert!(rng1.has_label());
    assert!(rng1.has_bit());
}

#[test]
fn test_seed_from_bytes() {
    let mut data = vec![0u8; 32];
    for (i, b) in data.iter_mut().enumerate() {
        *b = i as u8;
    }
    let seed = seed_from_bytes(&data).unwrap();
    assert_eq!(&seed[..], &data[..]);
    assert_eq!(
        seed_from_bytes(&data[..31]),
        Err(CircuitError::InvalidSeedLength { length: 31 })
    );
    data.push(0);
    assert_eq!(
        seed_from_bytes(&data),
        Err(CircuitError::InvalidSeedLength { length: 33 })
    );
    assert_eq!(seed_from_bytes(&[]), Err(CircuitError::InvalidSeedLength { length: 0 }));
}

#[test]
fn test_labels_and_bits_share_the_stream() {
    let seed = [0x17; 32];
    let mut reference = ChaCha12Rng::from_seed(seed);
    let mut rng = LabelRng::from_seed(seed);
    for round in 0..50 {
        let mut bytes = [0u8; 16];
        reference.fill_bytes(&mut bytes);
        assert_eq!(rng.next_label().as_bytes(), &bytes);
        for _ in 0..(round % 5) {
            assert_eq!(rng.next_bit(), (reference.next_u32() & 1) == 1);
        }
    }
}
