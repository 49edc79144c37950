use game_prove::codec::vec_to_hex_string;
use game_prove::public_input::{HexError, PubInput};
use game_prove::replay::GameIO;

fn claim_with(inputs: &str) -> GameIO {
    GameIO { score: 65, win: true, end_frame: 1023, inputs: inputs.to_string() }
}

#[test]
fn inputs_become_the_bytes_they_spell() {
    let input = PubInput::from_record(&claim_with("0141FFc1")).unwrap();
    assert_eq!(input.inputs, vec![0x01, 0x41, 0xFF, 0xC1]);
    assert_eq!(input.score, 65);
    assert!(input.win);
    assert_eq!(input.end_frame, 1023);
    let empty = PubInput::from_record(&claim_with("")).unwrap();
    assert!(empty.inputs.is_empty());
    // whole pairs are enough: the bytes need not be whole moves
    assert_eq!(PubInput::from_record(&claim_with("0a")).unwrap().inputs, vec![10]);
}

#[test]
fn bytes_of_a_written_trace_are_the_bytes_of_its_moves() {
    let trace: Vec<(u16, u8)> = vec![(0, 0), (5, 1), (700, 1), (1023, 0)];
    let input = PubInput::from_record(&claim_with(&vec_to_hex_string(trace))).unwrap();
    assert_eq!(input.inputs, vec![0x00, 0x00, 0x01, 0x41, 0xAF, 0x01, 0xFF, 0xC0]);
}

#[test]
fn inputs_that_are_no_bytes_are_refused() {
    assert_eq!(PubInput::from_record(&claim_with("014")), Err(HexError::OddLength));
    assert_eq!(PubInput::from_record(&claim_with("01g")), Err(HexError::OddLength));
    assert_eq!(
        PubInput::from_record(&claim_with("01g1")),
        Err(HexError::InvalidCharacter { c: 'g', index: 2 })
    );
    assert_eq!(
        PubInput::from_record(&claim_with("0141 1x1")),
        Err(HexError::InvalidCharacter { c: ' ', index: 4 })
    );
}

#[test]
fn inputs_outside_ascii_are_judged_by_their_bytes() {
    // five bytes
    assert_eq!(PubInput::from_record(&claim_with("01é1")), Err(HexError::OddLength));
    // two bytes, the first of them 0xC3
    assert_eq!(
        PubInput::from_record(&claim_with("é")),
        Err(HexError::InvalidCharacter { c: '\u{c3}', index: 0 })
    );
    assert_eq!(
        PubInput::from_record(&claim_with("01é")),
        Err(HexError::InvalidCharacter { c: '\u{c3}', index: 2 })
    );
}

#[test]
fn packed_input_is_the_trace_followed_by_the_outcome() {
    let input = PubInput { score: 65, win: true, end_frame: 1023, inputs: vec![1, 0x41] };
    assert_eq!(input.packed(), vec![1, 0x41, 65, 1, 0x03, 0xFF]);
    let input = PubInput { score: 0, win: false, end_frame: 157, inputs: Vec::new() };
    assert_eq!(input.packed(), vec![0, 0, 0, 157]);
    let input = PubInput { score: 255, win: false, end_frame: 256, inputs: vec![9; 3] };
    assert_eq!(input.packed(), vec![9, 9, 9, 255, 0, 1, 0]);
}

fn word(n: u32) -> Vec<u8> {
    let mut bytes = vec![0; 28];
    bytes.extend_from_slice(&n.to_be_bytes());
    bytes
}

#[test]
fn contract_arguments_are_words_followed_by_the_padded_trace() {
    let input = PubInput { score: 65, win: true, end_frame: 1023, inputs: vec![1, 0x41] };
    let mut expected = Vec::new();
    expected.extend(word(65));
    expected.extend(word(1));
    expected.extend(word(1023));
    expected.extend(word(128));
    expected.extend(word(2));
    expected.extend([1, 0x41]);
    expected.extend([0; 30]);
    assert_eq!(expected.len(), 192);
    assert_eq!(expected[31], 0x41);
    assert_eq!(&expected[94..96], &[0x03, 0xFF]);
    assert_eq!(input.encode_to_vec(), expected);
}

#[test]
fn contract_arguments_fill_whole_words() {
    for (len, total) in [(0, 160), (1, 192), (31, 192), (32, 192), (33, 224), (64, 224), (2046, 2208)] {
        let inputs: Vec<u8> = (0..len).map(|i| (i % 251) as u8 + 1).collect();
        let input = PubInput { score: 0, win: false, end_frame: 0, inputs: inputs.clone() };
        let encoded = input.encode_to_vec();
        assert_eq!(encoded.len(), total);
        assert_eq!(&encoded[..96], &[0; 96][..]);
        assert_eq!(&encoded[96..128], &word(128)[..]);
        assert_eq!(&encoded[128..160], &word(len as u32)[..]);
        assert_eq!(&encoded[160..160 + len], &inputs[..]);
        assert!(encoded[160 + len..].iter().all(|&b| b == 0));
    }
}

#[test]
fn contract_arguments_of_a_replayed_record() {
    let replayed = game_prove::replay::game_prove(&"0141".to_string());
    let input = PubInput::from_record(&replayed).unwrap();
    let encoded = input.encode_to_vec();
    assert_eq!(encoded.len(), 192);
    assert_eq!(encoded[31], replayed.score);
    assert_eq!(encoded[63], replayed.win as u8);
    assert_eq!(&encoded[94..96], &replayed.end_frame.to_be_bytes());
    assert_eq!(&encoded[160..162], &[0x01, 0x41]);
}
