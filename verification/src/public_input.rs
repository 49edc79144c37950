//! A record as the public input of a proof: the trace as raw bytes.

use crate::codec::{lemma_trace_hex_shape, TraceFormat};
use crate::hexdigit::{hex_byte, is_hex};
use crate::replay::GameIO;
use vstd::prelude::*;
use vstd::string::*;
use vstd::utf8::{encode_utf8, is_ascii_chars, is_ascii_chars_encode_utf8};

verus! {

/// Why a string of digits could not be turned into bytes.
#[derive(Debug, Clone, Copy, PartialEq, Eq, Structural)]
pub enum HexError {
    /// The byte at `index` of the string, `c` as a character, is no hexadecimal digit.
    InvalidCharacter { c: char, index: usize },
    /// The string has an odd number of bytes.
    OddLength,
    /// The string does not fill the container that was asked for.
    InvalidLength,
}

/// The outcome of a session with its trace as bytes.
#[derive(Debug, Clone, PartialEq, Eq)]
pub struct PubInput {
    pub score: u8,
    pub win: bool,
    pub end_frame: u16,
    pub inputs: Vec<u8>,
}

/// Whether the bytes of a string are whole pairs of digits.
pub open spec fn hex_pairs(text: Seq<u8>) -> bool {
    text.len() % 2 == 0 && forall|i: int| 0 <= i < text.len() ==> is_hex(#[trigger] text[i] as char)
}

/// The bytes that whole pairs of digits stand for, high digit first.
pub open spec fn bytes_of_hex(text: Seq<u8>) -> Seq<u8> {
    Seq::new(text.len() / 2, |i: int| hex_byte(text[2 * i] as char, text[2 * i + 1] as char) as u8)
}

/// Whether `error` says why the bytes of a string are no whole pairs of
/// digits: an odd length, or else the first byte that is no digit.
pub open spec fn hex_rejects(error: HexError, text: Seq<u8>) -> bool {
    match error {
        HexError::OddLength => text.len() % 2 == 1,
        HexError::InvalidCharacter { c, index } => {
            &&& text.len() % 2 == 0
            &&& 0 <= index < text.len()
            &&& !is_hex(text[index as int] as char)
            &&& forall|i: int| 0 <= i < index ==> is_hex(#[trigger] text[i] as char)
            &&& c == text[index as int] as char
        },
        HexError::InvalidLength => false,
    }
}

/// The bytes of a trace: the two bytes of each move, in order.
pub open spec fn trace_bytes(format: TraceFormat, trace: Seq<(u16, u8)>) -> Seq<u8> {
    Seq::new(
        2 * trace.len(),
        |i: int|
            if i % 2 == 0 {
                format.first_byte(trace[i / 2]) as u8
            } else {
                format.second_byte(trace[i / 2]) as u8
            },
    )
}

/// The record's outcome, each field in one byte but the end frame, which
/// takes two, high byte first.
pub open spec fn outcome_bytes(score: u8, win: bool, end_frame: u16) -> Seq<u8> {
    seq![
        score,
        if win {
            1u8
        } else {
            0u8
        },
        (end_frame / 256) as u8,
        (end_frame % 256) as u8,
    ]
}

/// The most bytes of trace that can be encoded for a contract: beyond it
/// the encoder's 32-bit lengths overflow.
pub const ABI_MAX_BYTES: usize = 0xFFFF_FF00;

/// A number below 2^32 as a word of a contract call: 32 bytes, big end first.
pub open spec fn abi_word(n: int) -> Seq<u8> {
    Seq::new(
        32,
        |i: int|
            if i < 28 {
                0u8
            } else if i == 28 {
                (n / 0x100_0000 % 256) as u8
            } else if i == 29 {
                (n / 0x1_0000 % 256) as u8
            } else if i == 30 {
                (n / 0x100 % 256) as u8
            } else {
                (n % 256) as u8
            },
    )
}

/// The zero bytes that fill `len` bytes up to whole words.
pub open spec fn abi_padding(len: int) -> Seq<u8> {
    Seq::new(((32 - len % 32) % 32) as nat, |i: int| 0u8)
}

/// Three numbers and a run of bytes as the arguments of a contract call:
/// a word for each number, the place of the bytes (after the four words of
/// the head), and then the bytes, led by their length and filled up to
/// whole words.
pub open spec fn abi_encoded(first: int, second: int, third: int, bytes: Seq<u8>) -> Seq<u8> {
    abi_word(first) + abi_word(second) + abi_word(third) + abi_word(128) + abi_word(
        bytes.len() as int,
    ) + bytes + abi_padding(bytes.len() as int)
}

/// Calls `ethers::abi::encode` on three unsigned numbers and a run of
/// bytes, in this order. The encoder writes each number as a word of 32
/// bytes, then the offset of the bytes as a word, and at that offset the
/// length of the bytes as a word and the bytes, padded with zeros to whole
/// words. It counts in 32 bits, which the bound on the length keeps exact.
#[verifier::external_body]
fn abi_encode(first: u8, second: u8, third: u16, bytes: &Vec<u8>) -> (out: Vec<u8>)
    requires
        bytes@.len() <= ABI_MAX_BYTES,
    ensures
        out@ == abi_encoded(first as int, second as int, third as int, bytes@),
{
    ethers::abi::encode(
        &[
            ethers::abi::Token::Uint(first.into()),
            ethers::abi::Token::Uint(second.into()),
            ethers::abi::Token::Uint(third.into()),
            ethers::abi::Token::Bytes(bytes.clone()),
        ],
    )
}

/// The arguments of a contract call come in whole words: five of them, and
/// those that the bytes fill.
pub proof fn lemma_abi_encoded_len(first: int, second: int, third: int, bytes: Seq<u8>)
    ensures
        abi_encoded(first, second, third, bytes).len() == 160 + 32 * ((bytes.len() + 31) / 32),
        abi_encoded(first, second, third, bytes).len() % 32 == 0,
{
    let n = bytes.len() as int;
    let filled = abi_padding(n).len() as int;
    assert(abi_encoded(first, second, third, bytes).len() == 160 + n + filled);
    assert(n == 32 * (n / 32) + n % 32);
    if n % 32 == 0 {
        assert(filled == 0);
        assert((n + 31) / 32 == n / 32);
    } else {
        assert(filled == 32 - n % 32);
        assert((n + 31) / 32 == n / 32 + 1);
    }
}

/// Calls `hex::decode` on the bytes of a string. It turns whole pairs of
/// digits, of either case, into the bytes they stand for, high digit first.
/// Of any other string it reports an odd length before anything else, and
/// otherwise the first byte that is no digit.
#[verifier::external_body]
fn hex_decode(digits: &str) -> (r: Result<Vec<u8>, HexError>)
    ensures
        match r {
            Ok(bytes) => hex_pairs(encode_utf8(digits@)) && bytes@ == bytes_of_hex(
                encode_utf8(digits@),
            ),
            Err(error) => hex_rejects(error, encode_utf8(digits@)),
        },
{
    match hex::decode(digits) {
        Ok(bytes) => Ok(bytes),
        Err(hex::FromHexError::InvalidHexCharacter { c, index }) => Err(
            HexError::InvalidCharacter { c, index },
        ),
        Err(hex::FromHexError::OddLength) => Err(HexError::OddLength),
        Err(hex::FromHexError::InvalidStringLength) => Err(HexError::InvalidLength),
    }
}

/// What is refused is no run of whole pairs of digits.
pub proof fn lemma_rejected_is_no_hex(error: HexError, text: Seq<u8>)
    requires
        hex_rejects(error, text),
    ensures
        !hex_pairs(text),
{
}

/// The digits of a trace are whole pairs, and stand for the bytes of the trace.
pub proof fn lemma_trace_hex_bytes(format: TraceFormat, trace: Seq<(u16, u8)>)
    requires
        format.admits_all(trace),
    ensures
        is_ascii_chars(format.trace_hex(trace)),
        hex_pairs(encode_utf8(format.trace_hex(trace))),
        bytes_of_hex(encode_utf8(format.trace_hex(trace))) == trace_bytes(format, trace),
{
    lemma_trace_hex_shape(format, trace);
    let digits = format.trace_hex(trace);
    assert(is_ascii_chars(digits)) by {
        assert forall|i: int| 0 <= i < digits.len() implies '\0' <= #[trigger] digits[i]
            <= '\u{7f}' by {
            assert(is_hex(digits[i]));
        }
    }
    is_ascii_chars_encode_utf8(digits);
    let text = encode_utf8(digits);
    assert forall|i: int| 0 <= i < text.len() implies text[i] as char == digits[i] by {
        assert(digits[i] as u8 == text[i]);
        assert(is_hex(digits[i]));
    }
    assert forall|i: int| 0 <= i < text.len() implies is_hex(#[trigger] text[i] as char) by {
        assert(is_hex(digits[i]));
    }
    let bytes = bytes_of_hex(text);
    assert forall|i: int| 0 <= i < bytes.len() implies bytes[i] == trace_bytes(format, trace)[i] by {
        let k = i / 2;
        assert(format.admits(trace[k]));
        if i % 2 == 0 {
            assert(2 * i == 4 * k);
        } else {
            assert(2 * i == 4 * k + 2);
        }
    }
    assert(bytes =~= trace_bytes(format, trace));
}

impl PubInput {
    /// The public input for a record, or why its inputs are no bytes.
    pub fn from_record(record: &GameIO) -> (r: Result<PubInput, HexError>)
        ensures
            match r {
                Ok(input) => {
                    &&& hex_pairs(encode_utf8(record.inputs@))
                    &&& input.score == record.score
                    &&& input.win == record.win
                    &&& input.end_frame == record.end_frame
                    &&& input.inputs@ == bytes_of_hex(encode_utf8(record.inputs@))
                },
                Err(error) => {
                    &&& !hex_pairs(encode_utf8(record.inputs@))
                    &&& hex_rejects(error, encode_utf8(record.inputs@))
                },
            },
    {
        match hex_decode(record.inputs.as_str()) {
            Ok(inputs) => Ok(
                PubInput {
                    score: record.score,
                    win: record.win,
                    end_frame: record.end_frame,
                    inputs,
                },
            ),
            Err(error) => Err(error),
        }
    }

    /// The public input as the arguments of the call that claims the prize:
    /// the score, the win flag as 0 or 1, the end frame, and the trace.
    pub fn encode_to_vec(&self) -> (bytes: Vec<u8>)
        requires
            self.inputs@.len() <= ABI_MAX_BYTES,
        ensures
            bytes@ == abi_encoded(
                self.score as int,
                if self.win {
                    1
                } else {
                    0
                },
                self.end_frame as int,
                self.inputs@,
            ),
    {
        let win: u8 = if self.win {
            1
        } else {
            0
        };
        abi_encode(self.score, win, self.end_frame, &self.inputs)
    }

    /// The public input as one run of bytes: the trace, then the outcome.
    pub fn packed(&self) -> (bytes: Vec<u8>)
        ensures
            bytes@ == self.inputs@ + outcome_bytes(self.score, self.win, self.end_frame),
    {
        let mut bytes: Vec<u8> = Vec::new();
        let mut i: usize = 0;
        while i < self.inputs.len()
            invariant
                i <= self.inputs.len(),
                bytes@ == self.inputs@.take(i as int),
            decreases self.inputs.len() - i,
        {
            bytes.push(self.inputs[i]);
            assert(bytes@ =~= self.inputs@.take(i + 1));
            i += 1;
        }
        assert(self.inputs@.take(i as int) == self.inputs@);
        bytes.push(self.score);
        bytes.push(if self.win {
            1
        } else {
            0
        });
        bytes.push((self.end_frame / 256) as u8);
        bytes.push((self.end_frame % 256) as u8);
        assert(bytes@ =~= self.inputs@ + outcome_bytes(self.score, self.win, self.end_frame));
        bytes
    }
}

} // verus!
