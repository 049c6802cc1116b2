use gc::bristol::{
    parse_gate_line, parse_header, read_binary_gate, BinaryGate, CircuitError, Gate,
    GateLineError, GateType, Header,
};
use gc::text::{
    next_line, parse_u32_token, parse_u64_token, piece, split_lines, tokenize,
};

fn token_strings(line: &str) -> Vec<String> {
    tokenize(line.as_bytes())
        .into_iter()
        .map(|r| String::from_utf8(piece(line.as_bytes(), r).to_vec()).unwrap())
        .collect()
}

fn line_strings(text: &str) -> Vec<String> {
    split_lines(text.as_bytes())
        .into_iter()
        .map(|r| String::from_utf8(piece(text.as_bytes(), r).to_vec()).unwrap())
        .collect()
}

fn number(token: &str) -> Option<u32> {
    parse_u32_token(token.as_bytes(), 0, token.len())
}

#[test]
fn test_tokenize() {
    assert_eq!(token_strings("2 1 0 1 2 XOR"), vec!["2", "1", "0", "1", "2", "XOR"]);
    assert_eq!(token_strings("  a\t\tbc \r"), vec!["a", "bc"]);
    assert_eq!(token_strings("\x0b\x0cx\x0by"), vec!["x", "y"]);
    assert_eq!(token_strings(""), Vec::<String>::new());
    assert_eq!(token_strings(" \t\r\n"), Vec::<String>::new());
    assert_eq!(token_strings("one"), vec!["one"]);
    assert_eq!(tokenize(b" ab  c"), vec![(1, 3), (5, 6)]);
}

#[test]
fn test_tokenize_agrees_with_split_whitespace() {
    for line in ["", " ", "a", " a", "a ", "ab cd", "\ta\r\n b \x0c c\x0bd  ", "2 1 0 1 2 AND\r"] {
        let expected: Vec<String> = line.split_whitespace().map(String::from).collect();
        assert_eq!(token_strings(line), expected);
    }
}

#[test]
fn test_tokenize_unicode_whitespace() {
    let spaces = [
        '\u{85}', '\u{a0}', '\u{1680}', '\u{2000}', '\u{2001}', '\u{2005}', '\u{200a}',
        '\u{2028}', '\u{2029}', '\u{202f}', '\u{205f}', '\u{3000}',
    ];
    for c in spaces {
        assert!(c.is_whitespace());
        let line = format!("2{}1{}{}0 1 2 XOR{}", c, c, c, c);
        assert_eq!(token_strings(&line), vec!["2", "1", "0", "1", "2", "XOR"]);
    }
    let others = [
        '\u{84}', '\u{86}', '\u{a1}', '\u{167f}', '\u{1681}', '\u{1fff}', '\u{200b}',
        '\u{200c}', '\u{2027}', '\u{202a}', '\u{202e}', '\u{2030}', '\u{205e}', '\u{2060}',
        '\u{2fff}', '\u{3001}', '\u{feff}', 'é', '√', '\u{10000}',
    ];
    for c in others {
        assert!(!c.is_whitespace());
        let line = format!("a{}b {}", c, c);
        let expected: Vec<String> = line.split_whitespace().map(String::from).collect();
        assert_eq!(expected.len(), 2);
        assert_eq!(token_strings(&line), expected);
    }
    assert_eq!(tokenize(&[b'a', 0xE2, 0x80]), vec![(0, 3)]);
    assert_eq!(tokenize(&[b'a', 0xC2]), vec![(0, 2)]);
    assert_eq!(tokenize(&[0xE2, 0x80, 0x80, b'a', 0xC2, 0xA0, 0xC2]), vec![(3, 4), (6, 7)]);
}

#[test]
fn test_tokenize_agrees_with_split_whitespace_everywhere() {
    let mut code = 0u32;
    while code < 0x3100 {
        if let Some(c) = char::from_u32(code) {
            let line = format!("x{}y", c);
            let expected: Vec<String> = line.split_whitespace().map(String::from).collect();
            assert_eq!(token_strings(&line), expected, "U+{:04X}", code);
        }
        code += 1;
    }
}

#[test]
fn test_split_lines() {
    assert_eq!(line_strings("a\nb\n"), vec!["a", "b"]);
    assert_eq!(line_strings("a\nb"), vec!["a", "b"]);
    assert_eq!(line_strings("a\n\nb\n\n"), vec!["a", "", "b", ""]);
    assert_eq!(line_strings(""), Vec::<String>::new());
    assert_eq!(line_strings("\n"), vec![""]);
    assert_eq!(line_strings("a\r\nb"), vec!["a\r", "b"]);
    assert_eq!(next_line(b"ab\ncd", 0), Some((2, 3)));
    assert_eq!(next_line(b"ab\ncd", 3), Some((5, 5)));
    assert_eq!(next_line(b"ab\ncd", 5), None);
}

#[test]
fn test_parse_numbers() {
    assert_eq!(number("0"), Some(0));
    assert_eq!(number("007"), Some(7));
    assert_eq!(number("+12"), Some(12));
    assert_eq!(number("4294967295"), Some(u32::MAX));
    assert_eq!(number("4294967296"), None);
    assert_eq!(number("99999999999999999999999999"), None);
    assert_eq!(number(""), None);
    assert_eq!(number("+"), None);
    assert_eq!(number("-1"), None);
    assert_eq!(number("++1"), None);
    assert_eq!(number("1+"), None);
    assert_eq!(number("12a"), None);
    assert_eq!(number("0x10"), None);
    assert_eq!(number("1_000"), None);
    assert_eq!(parse_u32_token(b"ab 123 cd", 3, 6), Some(123));
    assert_eq!(parse_u64_token(b"18446744073709551615", 0, 20), Some(u64::MAX));
    assert_eq!(parse_u64_token(b"18446744073709551616", 0, 20), None);
    assert_eq!(parse_u64_token(b"4294967296", 0, 10), Some(4294967296));
}

#[test]
fn test_parse_numbers_agree_with_std() {
    for token in ["0", "1", "+5", "-5", "", "+", "42", "4294967295", "4294967296", "00000000001", "1e3", " 1"] {
        assert_eq!(number(token), token.parse::<u32>().ok());
    }
}

#[test]
fn test_parse_header() {
    assert_eq!(parse_header(b"3 6"), Ok(Header { num_gates: 3, num_wires: 6 }));
    assert_eq!(parse_header(b"  3\t6 \r"), Ok(Header { num_gates: 3, num_wires: 6 }));
    assert_eq!(parse_header(b""), Err(CircuitError::InvalidHeader));
    assert_eq!(parse_header(b"3"), Err(CircuitError::InvalidHeader));
    assert_eq!(parse_header(b"3 6 9"), Err(CircuitError::InvalidHeader));
    assert_eq!(parse_header(b"x y"), Err(CircuitError::InvalidNumGates));
    assert_eq!(parse_header(b"3 y"), Err(CircuitError::InvalidNumWires));
}

#[test]
fn test_parse_gate_line() {
    assert_eq!(
        parse_gate_line(b"2 1 466 466 467 XOR"),
        Ok(Gate { inputs: vec![466, 466], outputs: vec![467], gate_type: b"XOR".to_vec() })
    );
    assert_eq!(
        parse_gate_line(b"1 2 3 4 5 whatever"),
        Ok(Gate { inputs: vec![3], outputs: vec![4, 5], gate_type: b"whatever".to_vec() })
    );
    assert_eq!(
        parse_gate_line(b"0 0 NOP"),
        Ok(Gate { inputs: vec![], outputs: vec![], gate_type: b"NOP".to_vec() })
    );
    assert_eq!(parse_gate_line(b""), Err(GateLineError::Empty));
    assert_eq!(
        parse_gate_line(b"4294967295 1 0"),
        Err(GateLineError::MissingWire { output: false, index: 1 })
    );
    assert_eq!(
        parse_gate_line(b"1 4294967295 0 1 2"),
        Err(GateLineError::MissingWire { output: true, index: 2 })
    );
    assert_eq!(
        parse_gate_line(b"1 1 0 q AND"),
        Err(GateLineError::InvalidWire { output: true, index: 0 })
    );
}

#[test]
fn test_read_binary_gate() {
    assert_eq!(
        read_binary_gate(b"2 1 7 8 9 AND", 4),
        Ok(BinaryGate { kind: GateType::AND, a: 7, b: 8, c: 9 })
    );
    assert_eq!(
        read_binary_gate(b"2 1 7 8 9 XOR", 4),
        Ok(BinaryGate { kind: GateType::XOR, a: 7, b: 8, c: 9 })
    );
    assert_eq!(
        read_binary_gate(b"2 1 7 8 9 xor", 4),
        Err(CircuitError::UnsupportedGate { line: 4 })
    );
    assert_eq!(
        read_binary_gate(b"1 1 7 9 INV", 4),
        Err(CircuitError::UnsupportedGate { line: 4 })
    );
    assert_eq!(
        read_binary_gate(b"2 2 7 8 9 10 AND", 4),
        Err(CircuitError::WrongArity { line: 4 })
    );
    assert_eq!(
        read_binary_gate(b"2 1 7 8 AND", 4),
        Err(CircuitError::Gate {
            line: 4,
            error: GateLineError::InvalidWire { output: true, index: 0 }
        })
    );
}
