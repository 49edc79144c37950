use game_prove::hexdigit::{hex_value_of, is_hex_char, push_byte_hex, upper_hex_str};

#[test]
fn digits_are_written_in_upper_case() {
    let written: Vec<&str> = (0..16u8).map(upper_hex_str).collect();
    assert_eq!(
        written,
        vec!["0", "1", "2", "3", "4", "5", "6", "7", "8", "9", "A", "B", "C", "D", "E", "F"]
    );
}

#[test]
fn bytes_are_written_high_digit_first() {
    let mut out = String::from("x");
    push_byte_hex(&mut out, 0x00);
    push_byte_hex(&mut out, 0x0A);
    push_byte_hex(&mut out, 0xA0);
    push_byte_hex(&mut out, 0xFF);
    assert_eq!(out, "x000AA0FF");
}

#[test]
fn digits_of_either_case_are_read() {
    assert_eq!(hex_value_of(b'0'), Some(0));
    assert_eq!(hex_value_of(b'9'), Some(9));
    assert_eq!(hex_value_of(b'a'), Some(10));
    assert_eq!(hex_value_of(b'f'), Some(15));
    assert_eq!(hex_value_of(b'A'), Some(10));
    assert_eq!(hex_value_of(b'F'), Some(15));
    for b in [b'/', b':', b'@', b'G', b'`', b'g', b'+', b' ', 0u8, 200u8] {
        assert_eq!(hex_value_of(b), None);
    }
    assert!(is_hex_char('c'));
    assert!(is_hex_char('C'));
    assert!(is_hex_char('7'));
    assert!(!is_hex_char('g'));
    assert!(!is_hex_char('é'));
}

#[test]
fn every_byte_reads_back() {
    for b in 0..=255u8 {
        let mut out = String::new();
        push_byte_hex(&mut out, b);
        let digits = out.as_bytes();
        assert_eq!(digits.len(), 2);
        let high = hex_value_of(digits[0]).unwrap();
        let low = hex_value_of(digits[1]).unwrap();
        assert_eq!(16 * high + low, b);
    }
}
