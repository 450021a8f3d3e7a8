use conformance::text::{
    bytes_eq, parse_decimal, split_bytes, starts_with, suffix_start, without_cr, ByteClass,
};

fn b(text: &str) -> Vec<u8> {
    text.as_bytes().to_vec()
}

#[test]
fn bytes_eq_compares_contents() {
    assert!(bytes_eq(b"abc", b"abc"));
    assert!(bytes_eq(b"", b""));
    assert!(!bytes_eq(b"abc", b"abd"));
    assert!(!bytes_eq(b"abc", b"ab"));
    assert!(!bytes_eq(b"", b"a"));
}

#[test]
fn starts_with_tests_the_prefix() {
    assert!(starts_with(b"Diff in x", b"Diff in "));
    assert!(starts_with(b"abc", b""));
    assert!(starts_with(b"abc", b"abc"));
    assert!(!starts_with(b"ab", b"abc"));
    assert!(!starts_with(b"xbc", b"ab"));
}

#[test]
fn split_keeps_every_piece() {
    assert_eq!(split_bytes(b"a:b:c", b':'), vec![b("a"), b("b"), b("c")]);
    assert_eq!(split_bytes(b"", b':'), vec![b("")]);
    assert_eq!(split_bytes(b"abc", b':'), vec![b("abc")]);
    assert_eq!(split_bytes(b":", b':'), vec![b(""), b("")]);
    assert_eq!(split_bytes(b"a::b", b':'), vec![b("a"), b(""), b("b")]);
    assert_eq!(split_bytes(b"a:b:", b':'), vec![b("a"), b("b"), b("")]);
    assert_eq!(split_bytes(b":a", b':'), vec![b(""), b("a")]);
}

#[test]
fn split_then_join_gives_the_input() {
    let inputs: [&[u8]; 5] = [b"one\ntwo\n\nthree", b"", b"\n", b"no newline", b"\n\n\nx\n"];
    for input in inputs {
        let pieces = split_bytes(input, b'\n');
        assert_eq!(pieces.len(), input.iter().filter(|c| **c == b'\n').count() + 1);
        for piece in &pieces {
            assert!(!piece.contains(&b'\n'));
        }
        assert_eq!(pieces.join(&b'\n'), input.to_vec());
    }
}

#[test]
fn without_cr_drops_one_carriage_return() {
    assert_eq!(without_cr(b"line\r"), b"line");
    assert_eq!(without_cr(b"line"), b"line");
    assert_eq!(without_cr(b"line\r\r"), b"line\r");
    assert_eq!(without_cr(b"\r"), b"");
    assert_eq!(without_cr(b""), b"");
    assert_eq!(without_cr(b"\rline"), b"\rline");
}

#[test]
fn byte_classes_hold_their_bytes() {
    for c in b'0'..=b'9' {
        assert!(ByteClass::Digit.contains(c));
        assert!(ByteClass::RuleName.contains(c));
    }
    for c in (b'a'..=b'z').chain(b'A'..=b'Z') {
        assert!(!ByteClass::Digit.contains(c));
        assert!(ByteClass::RuleName.contains(c));
    }
    assert!(ByteClass::RuleName.contains(b'_'));
    assert!(ByteClass::RuleName.contains(b'-'));
    for c in [b'/', b':', b' ', b'[', b']', b'.', b',', b'\n', 0u8, 255u8] {
        assert!(!ByteClass::Digit.contains(c));
        assert!(!ByteClass::RuleName.contains(c));
    }
}

#[test]
fn suffix_start_finds_the_longest_run() {
    assert_eq!(suffix_start(b"line 42", ByteClass::Digit), 5);
    assert_eq!(suffix_start(b"42", ByteClass::Digit), 0);
    assert_eq!(suffix_start(b"42x", ByteClass::Digit), 3);
    assert_eq!(suffix_start(b"", ByteClass::Digit), 0);
    assert_eq!(suffix_start(b"msg [needless_return", ByteClass::RuleName), 5);
    assert_eq!(suffix_start(b"a b-c_d9", ByteClass::RuleName), 2);
}

#[test]
fn parse_decimal_reads_numbers_that_fit() {
    assert_eq!(parse_decimal(b"0"), Some(0));
    assert_eq!(parse_decimal(b"7"), Some(7));
    assert_eq!(parse_decimal(b"42"), Some(42));
    assert_eq!(parse_decimal(b"007"), Some(7));
    assert_eq!(parse_decimal(b"4294967295"), Some(u32::MAX));
    assert_eq!(parse_decimal(b"0000000004294967295"), Some(u32::MAX));
}

#[test]
fn parse_decimal_rejects_the_rest() {
    assert_eq!(parse_decimal(b""), None);
    assert_eq!(parse_decimal(b"4294967296"), None);
    assert_eq!(parse_decimal(b"99999999999999999999999999999999"), None);
    assert_eq!(parse_decimal(b"12a"), None);
    assert_eq!(parse_decimal(b"a12"), None);
    assert_eq!(parse_decimal(b"-1"), None);
    assert_eq!(parse_decimal(b"+1"), None);
    assert_eq!(parse_decimal(b" 1"), None);
    assert_eq!(parse_decimal(b"1 "), None);
    assert_eq!(parse_decimal(b"99999999999999999999999999999999x"), None);
}
