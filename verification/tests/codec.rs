use game_prove::codec::{
    decode_trace, encode_trace, hex_string_to_vec, vec_to_hex_string, TraceError, TraceFormat,
};

#[test]
fn single_action_is_four_digits() {
    let digits = vec_to_hex_string(vec![(5, 1)]);
    assert_eq!(digits.len(), 4);
    assert_eq!(digits, "0141");
    assert_eq!(hex_string_to_vec(&digits), vec![(5, 1)]);
}

#[test]
fn empty_trace_is_empty_string() {
    assert_eq!(vec_to_hex_string(Vec::new()), "");
    assert_eq!(hex_string_to_vec(""), Vec::<(u16, u8)>::new());
}

#[test]
fn ten_bit_layout_of_extreme_frames() {
    assert_eq!(vec_to_hex_string(vec![(0, 0)]), "0000");
    assert_eq!(vec_to_hex_string(vec![(0, 1)]), "0001");
    assert_eq!(vec_to_hex_string(vec![(1023, 1)]), "FFC1");
    assert_eq!(vec_to_hex_string(vec![(1023, 0)]), "FFC0");
    assert_eq!(vec_to_hex_string(vec![(1, 0), (2, 1), (3, 0)]), "0040008100C0");
    assert_eq!(vec_to_hex_string(vec![(700, 1)]), "AF01");
}

#[test]
fn twelve_bit_layout_of_extreme_frames() {
    let write = |trace: Vec<(u16, u8)>| encode_trace(TraceFormat::TwelveBit, &trace).unwrap();
    assert_eq!(write(vec![(5, 1)]), "0051");
    assert_eq!(write(vec![(4095, 1)]), "FFF1");
    assert_eq!(write(vec![(1023, 0)]), "3FF0");
    assert_eq!(decode_trace(TraceFormat::TwelveBit, "3FF0"), Ok(vec![(1023, 0)]));
    assert_eq!(decode_trace(TraceFormat::TwelveBit, "0051"), Ok(vec![(5, 1)]));
}

#[test]
fn the_two_layouts_read_the_same_digits_differently() {
    assert_eq!(decode_trace(TraceFormat::TenBit, "0141"), Ok(vec![(5, 1)]));
    assert_eq!(decode_trace(TraceFormat::TwelveBit, "0141"), Ok(vec![(20, 1)]));
}

#[test]
fn round_trip_of_every_ten_bit_action() {
    let mut trace = Vec::new();
    for frame in 0..1024u16 {
        trace.push((frame, 0));
        trace.push((frame, 1));
    }
    let digits = vec_to_hex_string(trace.clone());
    assert_eq!(digits.len(), 4 * trace.len());
    assert!(digits.chars().all(|c| c.is_ascii_digit() || ('A'..='F').contains(&c)));
    assert_eq!(hex_string_to_vec(&digits), trace);
}

#[test]
fn round_trip_of_every_twelve_bit_action() {
    let mut trace = Vec::new();
    for frame in 0..4096u16 {
        trace.push((frame, (frame % 2) as u8));
        trace.push((frame, ((frame + 1) % 2) as u8));
    }
    let digits = encode_trace(TraceFormat::TwelveBit, &trace).unwrap();
    assert_eq!(digits.len(), 4 * trace.len());
    assert_eq!(decode_trace(TraceFormat::TwelveBit, &digits), Ok(trace));
}

#[test]
fn decoding_accepts_both_cases_of_digits() {
    assert_eq!(hex_string_to_vec("ffc1"), vec![(1023, 1)]);
    assert_eq!(hex_string_to_vec("FfC1"), vec![(1023, 1)]);
    assert_eq!(hex_string_to_vec("af01AF01"), vec![(700, 1), (700, 1)]);
}

#[test]
fn decoding_ignores_the_bits_between_frame_and_direction() {
    assert_eq!(hex_string_to_vec("017F"), vec![(5, 1)]);
    assert_eq!(hex_string_to_vec("017E"), vec![(5, 0)]);
    assert_eq!(decode_trace(TraceFormat::TwelveBit, "005F"), Ok(vec![(5, 1)]));
}

#[test]
fn length_that_is_no_multiple_of_four_is_refused() {
    for digits in ["0", "01", "014", "01410", "014100410"] {
        assert_eq!(
            decode_trace(TraceFormat::TenBit, digits),
            Err(TraceError::BadLength { len: digits.len() })
        );
    }
    // the length is checked before the digits
    assert_eq!(decode_trace(TraceFormat::TenBit, "zz"), Err(TraceError::BadLength { len: 2 }));
}

#[test]
fn first_character_that_is_no_digit_is_reported() {
    assert_eq!(decode_trace(TraceFormat::TenBit, "01G1"), Err(TraceError::BadDigit { index: 2 }));
    assert_eq!(decode_trace(TraceFormat::TenBit, "0141x1y1"), Err(TraceError::BadDigit { index: 4 }));
    assert_eq!(decode_trace(TraceFormat::TenBit, "+141"), Err(TraceError::BadDigit { index: 0 }));
    assert_eq!(decode_trace(TraceFormat::TenBit, "014 "), Err(TraceError::BadDigit { index: 3 }));
    assert_eq!(decode_trace(TraceFormat::TenBit, "0141014g"), Err(TraceError::BadDigit { index: 7 }));
    assert_eq!(decode_trace(TraceFormat::TenBit, "01/1"), Err(TraceError::BadDigit { index: 2 }));
    assert_eq!(decode_trace(TraceFormat::TenBit, "01:1"), Err(TraceError::BadDigit { index: 2 }));
    assert_eq!(decode_trace(TraceFormat::TenBit, "01@1"), Err(TraceError::BadDigit { index: 2 }));
    assert_eq!(decode_trace(TraceFormat::TenBit, "01`1"), Err(TraceError::BadDigit { index: 2 }));
}

#[test]
fn characters_outside_ascii_are_no_digits() {
    // four characters, more than four bytes
    assert_eq!(decode_trace(TraceFormat::TenBit, "01é1"), Err(TraceError::BadDigit { index: 2 }));
    assert_eq!(decode_trace(TraceFormat::TenBit, "é141"), Err(TraceError::BadDigit { index: 0 }));
    // three characters, four bytes
    assert_eq!(decode_trace(TraceFormat::TenBit, "01é"), Err(TraceError::BadLength { len: 3 }));
}

#[test]
fn frame_beyond_the_layout_is_refused() {
    assert_eq!(
        encode_trace(TraceFormat::TenBit, &vec![(5, 1), (1024, 0)]),
        Err(TraceError::FrameOutOfRange { index: 1 })
    );
    assert_eq!(
        encode_trace(TraceFormat::TwelveBit, &vec![(4096, 0)]),
        Err(TraceError::FrameOutOfRange { index: 0 })
    );
    assert_eq!(encode_trace(TraceFormat::TwelveBit, &vec![(1024, 0)]), Ok("4000".to_string()));
    // the frame is looked at before the direction
    assert_eq!(
        encode_trace(TraceFormat::TenBit, &vec![(2000, 7)]),
        Err(TraceError::FrameOutOfRange { index: 0 })
    );
}

#[test]
fn direction_other_than_left_and_right_is_refused() {
    assert_eq!(
        encode_trace(TraceFormat::TenBit, &vec![(5, 1), (6, 0), (7, 2)]),
        Err(TraceError::BadDirection { index: 2 })
    );
    assert_eq!(
        encode_trace(TraceFormat::TenBit, &vec![(5, 255), (2000, 0)]),
        Err(TraceError::BadDirection { index: 0 })
    );
}

#[test]
fn format_helpers_agree_with_the_layouts() {
    assert_eq!(TraceFormat::TenBit.frame_limit_of(), 1024);
    assert_eq!(TraceFormat::TwelveBit.frame_limit_of(), 4096);
    assert_eq!(TraceFormat::TenBit.bytes_of((5, 1)), (0x01, 0x41));
    assert_eq!(TraceFormat::TwelveBit.bytes_of((5, 1)), (0x00, 0x51));
    assert_eq!(TraceFormat::TenBit.action_from(0xFF, 0xC1), (1023, 1));
    assert_eq!(TraceFormat::TwelveBit.action_from(0xFF, 0xF1), (4095, 1));
    assert!(TraceFormat::TenBit.can_hold((1023, 1)));
    assert!(!TraceFormat::TenBit.can_hold((1024, 1)));
    assert!(!TraceFormat::TenBit.can_hold((0, 2)));
    assert!(TraceFormat::TwelveBit.can_hold((4095, 0)));
    assert!(!TraceFormat::TwelveBit.can_hold((4096, 0)));
}
