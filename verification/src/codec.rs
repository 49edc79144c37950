//! The trace codec: a player's moves as a string of hexadecimal digits,
//! four digits for each move.

use crate::hexdigit::{
    byte_hex, hex_byte, hex_value_of, is_hex, is_hex_char, lemma_byte_hex_value, push_byte_hex,
};
use vstd::prelude::*;
use vstd::string::*;

verus! {

/// How a frame index is laid out in the two bytes of a move.
#[derive(Debug, Clone, Copy, PartialEq, Eq, Structural)]
pub enum TraceFormat {
    /// Ten bits of frame index: the canonical layout.
    TenBit,
    /// Twelve bits of frame index: the layout of older recordings.
    TwelveBit,
}

/// Why a trace could not be written or read.
#[derive(Debug, Clone, Copy, PartialEq, Eq, Structural)]
pub enum TraceError {
    /// The string's length, in characters, is no multiple of four.
    BadLength { len: usize },
    /// The character at `index` is no hexadecimal digit.
    BadDigit { index: usize },
    /// The move at `index` has a frame index that the layout cannot hold.
    FrameOutOfRange { index: usize },
    /// The move at `index` has a direction other than 0 and 1.
    BadDirection { index: usize },
}

impl TraceFormat {
    /// How many frame indices share one value of the first byte.
    pub open spec fn scale(self) -> int {
        match self {
            TraceFormat::TenBit => 4,
            TraceFormat::TwelveBit => 16,
        }
    }

    /// The weight, in the second byte, of the frame index's low bits.
    pub open spec fn low_weight(self) -> int {
        256int / self.scale()
    }

    /// The first frame index that the layout cannot hold.
    pub open spec fn frame_limit(self) -> int {
        256 * self.scale()
    }

    /// Whether the layout can hold the move.
    pub open spec fn admits(self, action: (u16, u8)) -> bool {
        action.0 < self.frame_limit() && action.1 < 2
    }

    /// Whether the layout can hold every move of the trace.
    pub open spec fn admits_all(self, trace: Seq<(u16, u8)>) -> bool {
        forall|i: int| 0 <= i < trace.len() ==> self.admits(#[trigger] trace[i])
    }

    /// The first byte of a move: the high eight bits of its frame index.
    pub open spec fn first_byte(self, action: (u16, u8)) -> int {
        (action.0 as int) / self.scale()
    }

    /// The second byte of a move: the low bits of its frame index at the
    /// top, the direction in the lowest bit.
    pub open spec fn second_byte(self, action: (u16, u8)) -> int {
        ((action.0 as int) % self.scale()) * self.low_weight() + action.1
    }

    /// The move that two bytes stand for. Bits between the frame index and
    /// the direction are not read.
    pub open spec fn action_of(self, first: int, second: int) -> (u16, u8) {
        ((first * self.scale() + second / self.low_weight()) as u16, (second % 2) as u8)
    }

    /// The four digits of a move.
    pub open spec fn action_hex(self, action: (u16, u8)) -> Seq<char> {
        byte_hex(self.first_byte(action)) + byte_hex(self.second_byte(action))
    }

    /// The digits of a trace: those of its moves, in order.
    pub open spec fn trace_hex(self, trace: Seq<(u16, u8)>) -> Seq<char>
        decreases trace.len(),
    {
        if trace.len() == 0 {
            Seq::empty()
        } else {
            self.trace_hex(trace.drop_last()) + self.action_hex(trace.last())
        }
    }

    /// The move that the digits from `4 * i` on stand for.
    pub open spec fn action_at(self, digits: Seq<char>, i: int) -> (u16, u8) {
        self.action_of(
            hex_byte(digits[4 * i], digits[4 * i + 1]),
            hex_byte(digits[4 * i + 2], digits[4 * i + 3]),
        )
    }

    /// The trace that a well-formed string of digits stands for.
    pub open spec fn trace_of(self, digits: Seq<char>) -> Seq<(u16, u8)> {
        Seq::new(digits.len() / 4, |i: int| self.action_at(digits, i))
    }
}

/// Whether a string can be read as a trace: whole groups of four digits.
pub open spec fn well_formed(digits: Seq<char>) -> bool {
    digits.len() % 4 == 0 && forall|i: int| 0 <= i < digits.len() ==> is_hex(#[trigger] digits[i])
}

/// Whether `index` is the place of the first character that is no digit.
pub open spec fn first_bad_digit(digits: Seq<char>, index: int) -> bool {
    &&& 0 <= index < digits.len()
    &&& !is_hex(digits[index])
    &&& forall|i: int| 0 <= i < index ==> is_hex(#[trigger] digits[i])
}

/// Whether `index` is the place of the first move that the layout cannot hold.
pub open spec fn first_bad_action(format: TraceFormat, trace: Seq<(u16, u8)>, index: int) -> bool {
    &&& 0 <= index < trace.len()
    &&& !format.admits(trace[index])
    &&& forall|i: int| 0 <= i < index ==> format.admits(#[trigger] trace[i])
}

/// Whether `error` says why `digits` cannot be read as a trace: a length that
/// is no multiple of four, or else the first character that is no digit.
pub open spec fn rejects(error: TraceError, digits: Seq<char>) -> bool {
    match error {
        TraceError::BadLength { len } => len == digits.len() && digits.len() % 4 != 0,
        TraceError::BadDigit { index } => digits.len() % 4 == 0 && first_bad_digit(
            digits,
            index as int,
        ),
        _ => false,
    }
}

/// A move's two bytes are bytes, and stand for the move.
pub proof fn lemma_action_bytes(format: TraceFormat, action: (u16, u8))
    requires
        format.admits(action),
    ensures
        0 <= format.first_byte(action) < 256,
        0 <= format.second_byte(action) < 256,
        format.action_of(format.first_byte(action), format.second_byte(action)) == action,
{
    let frame = action.0 as int;
    let direction = action.1 as int;
    match format {
        TraceFormat::TenBit => {
            assert(format.scale() == 4 && format.low_weight() == 64);
            assert(format.second_byte(action) == (frame % 4) * 64 + direction);
            assert(((frame % 4) * 64 + direction) / 64 == frame % 4);
        },
        TraceFormat::TwelveBit => {
            assert(format.scale() == 16 && format.low_weight() == 16);
            assert(format.second_byte(action) == (frame % 16) * 16 + direction);
            assert(((frame % 16) * 16 + direction) / 16 == frame % 16);
        },
    }
}

/// The digits of a trace come in groups of four and are well formed.
pub proof fn lemma_trace_hex_shape(format: TraceFormat, trace: Seq<(u16, u8)>)
    requires
        format.admits_all(trace),
    ensures
        format.trace_hex(trace).len() == 4 * trace.len(),
        well_formed(format.trace_hex(trace)),
        forall|i: int|
            0 <= i < trace.len() ==> format.action_at(format.trace_hex(trace), i)
                == #[trigger] trace[i],
        forall|i: int|
            0 <= i < trace.len() ==> {
                &&& hex_byte(format.trace_hex(trace)[4 * i], format.trace_hex(trace)[4 * i + 1])
                    == format.first_byte(#[trigger] trace[i])
                &&& hex_byte(
                    format.trace_hex(trace)[4 * i + 2],
                    format.trace_hex(trace)[4 * i + 3],
                ) == format.second_byte(trace[i])
                &&& 0 <= format.first_byte(trace[i]) < 256
                &&& 0 <= format.second_byte(trace[i]) < 256
            },
    decreases trace.len(),
{
    if trace.len() > 0 {
        let head = trace.drop_last();
        let last = trace.last();
        lemma_trace_hex_shape(format, head);
        lemma_action_bytes(format, last);
        lemma_byte_hex_value(format.first_byte(last));
        lemma_byte_hex_value(format.second_byte(last));
        let all = format.trace_hex(trace);
        let before = format.trace_hex(head);
        let n = head.len() as int;
        assert(all.len() == 4 * trace.len());
        assert forall|i: int| 0 <= i < all.len() implies is_hex(#[trigger] all[i]) by {
            if i < before.len() {
                assert(all[i] == before[i]);
            }
        }
        assert forall|i: int| 0 <= i < trace.len() implies format.action_at(all, i)
            == #[trigger] trace[i] && hex_byte(all[4 * i], all[4 * i + 1]) == format.first_byte(
            trace[i],
        ) && hex_byte(all[4 * i + 2], all[4 * i + 3]) == format.second_byte(trace[i]) && 0
            <= format.first_byte(trace[i]) < 256 && 0 <= format.second_byte(trace[i]) < 256 by {
            if i < n {
                assert(all[4 * i] == before[4 * i]);
                assert(all[4 * i + 1] == before[4 * i + 1]);
                assert(all[4 * i + 2] == before[4 * i + 2]);
                assert(all[4 * i + 3] == before[4 * i + 3]);
                assert(trace[i] == head[i]);
                assert(format.action_at(before, i) == head[i]);
            } else {
                assert(all[4 * n] == byte_hex(format.first_byte(last))[0]);
                assert(all[4 * n + 1] == byte_hex(format.first_byte(last))[1]);
                assert(all[4 * n + 2] == byte_hex(format.second_byte(last))[0]);
                assert(all[4 * n + 3] == byte_hex(format.second_byte(last))[1]);
            }
        }
    }
}

/// Reading what was written gives the trace back: for every trace that the
/// layout can hold, its digits are well formed and stand for that trace.
pub proof fn lemma_round_trip(format: TraceFormat, trace: Seq<(u16, u8)>)
    requires
        format.admits_all(trace),
    ensures
        well_formed(format.trace_hex(trace)),
        format.trace_of(format.trace_hex(trace)) == trace,
{
    lemma_trace_hex_shape(format, trace);
    assert(format.trace_of(format.trace_hex(trace)) =~= trace);
}

/// Every byte that two digits are read as is a byte, and every move that
/// two bytes stand for is one that the layout can hold.
pub proof fn lemma_trace_of_admitted(format: TraceFormat, digits: Seq<char>)
    requires
        well_formed(digits),
    ensures
        format.admits_all(format.trace_of(digits)),
        format.trace_of(digits).len() == digits.len() / 4,
{
    let trace = format.trace_of(digits);
    assert forall|i: int| 0 <= i < trace.len() implies format.admits(#[trigger] trace[i]) by {
        assert(is_hex(digits[4 * i]) && is_hex(digits[4 * i + 1]));
        assert(is_hex(digits[4 * i + 2]) && is_hex(digits[4 * i + 3]));
        let first = hex_byte(digits[4 * i], digits[4 * i + 1]);
        let second = hex_byte(digits[4 * i + 2], digits[4 * i + 3]);
        assert(0 <= first < 256 && 0 <= second < 256);
        match format {
            TraceFormat::TenBit => {
                assert(format.scale() == 4 && format.low_weight() == 64);
            },
            TraceFormat::TwelveBit => {
                assert(format.scale() == 16 && format.low_weight() == 16);
            },
        }
    }
}

impl TraceFormat {
    /// The two bytes of a move that the layout can hold.
    pub fn bytes_of(&self, action: (u16, u8)) -> (bytes: (u8, u8))
        requires
            self.admits(action),
        ensures
            bytes.0 == self.first_byte(action),
            bytes.1 == self.second_byte(action),
    {
        let frame: u16 = action.0;
        match self {
            TraceFormat::TenBit => {
                assert(self.scale() == 4 && self.low_weight() == 64);
                ((frame / 4) as u8, ((frame % 4) * 64) as u8 + action.1)
            },
            TraceFormat::TwelveBit => {
                assert(self.scale() == 16 && self.low_weight() == 16);
                ((frame / 16) as u8, ((frame % 16) * 16) as u8 + action.1)
            },
        }
    }

    /// The move that two bytes stand for.
    pub fn action_from(&self, first: u8, second: u8) -> (action: (u16, u8))
        ensures
            action == self.action_of(first as int, second as int),
            self.admits(action),
    {
        match self {
            TraceFormat::TenBit => {
                assert(self.scale() == 4 && self.low_weight() == 64);
                ((first as u16) * 4 + (second as u16) / 64, second % 2)
            },
            TraceFormat::TwelveBit => {
                assert(self.scale() == 16 && self.low_weight() == 16);
                ((first as u16) * 16 + (second as u16) / 16, second % 2)
            },
        }
    }

    /// Computes `frame_limit`.
    pub fn frame_limit_of(&self) -> (limit: u16)
        ensures
            limit == self.frame_limit(),
    {
        match self {
            TraceFormat::TenBit => 1024,
            TraceFormat::TwelveBit => 4096,
        }
    }

    /// Tests `admits`.
    pub fn can_hold(&self, action: (u16, u8)) -> (b: bool)
        ensures
            b == self.admits(action),
    {
        action.0 < self.frame_limit_of() && action.1 < 2
    }
}

/// Writes a trace in the given layout, or says which move the layout cannot hold.
pub fn encode_trace(format: TraceFormat, trace: &Vec<(u16, u8)>) -> (r: Result<String, TraceError>)
    ensures
        match r {
            Ok(digits) => {
                &&& format.admits_all(trace@)
                &&& digits@ == format.trace_hex(trace@)
                &&& well_formed(digits@)
                &&& format.trace_of(digits@) == trace@
            },
            Err(TraceError::FrameOutOfRange { index }) => first_bad_action(
                format,
                trace@,
                index as int,
            ) && trace@[index as int].0 >= format.frame_limit(),
            Err(TraceError::BadDirection { index }) => first_bad_action(
                format,
                trace@,
                index as int,
            ) && trace@[index as int].0 < format.frame_limit(),
            Err(_) => false,
        },
{
    let mut digits = String::new();
    let mut i: usize = 0;
    while i < trace.len()
        invariant
            i <= trace.len(),
            format.admits_all(trace@.take(i as int)),
            digits@ == format.trace_hex(trace@.take(i as int)),
        decreases trace.len() - i,
    {
        let action = trace[i];
        if !format.can_hold(action) {
            proof {
                assert forall|j: int| 0 <= j < i implies format.admits(#[trigger] trace@[j]) by {
                    assert(trace@.take(i as int)[j] == trace@[j]);
                }
            }
            if action.0 >= format.frame_limit_of() {
                return Err(TraceError::FrameOutOfRange { index: i });
            } else {
                return Err(TraceError::BadDirection { index: i });
            }
        }
        let bytes = format.bytes_of(action);
        push_byte_hex(&mut digits, bytes.0);
        push_byte_hex(&mut digits, bytes.1);
        proof {
            let next = trace@.take(i + 1);
            assert(next.drop_last() == trace@.take(i as int));
            assert(next.last() == action);
            assert(digits@ =~= format.trace_hex(next));
            assert forall|j: int| 0 <= j < next.len() implies format.admits(#[trigger] next[j]) by {
                if j < i {
                    assert(trace@.take(i as int)[j] == next[j]);
                }
            }
        }
        i += 1;
    }
    proof {
        assert(trace@.take(i as int) == trace@);
        lemma_round_trip(format, trace@);
    }
    Ok(digits)
}

/// Writes a trace in the canonical layout.
pub fn vec_to_hex_string(input: Vec<(u16, u8)>) -> (digits: String)
    requires
        TraceFormat::TenBit.admits_all(input@),
    ensures
        digits@ == TraceFormat::TenBit.trace_hex(input@),
        well_formed(digits@),
        TraceFormat::TenBit.trace_of(digits@) == input@,
{
    encode_trace(TraceFormat::TenBit, &input).unwrap()
}

/// Finds the first character of a string that is no digit.
fn find_bad_digit(digits: &str, len: usize) -> (found: Option<usize>)
    requires
        len == digits@.len(),
    ensures
        match found {
            Some(index) => first_bad_digit(digits@, index as int),
            None => forall|i: int| 0 <= i < digits@.len() ==> is_hex(#[trigger] digits@[i]),
        },
{
    let mut i: usize = 0;
    while i < len
        invariant
            i <= len,
            len == digits@.len(),
            forall|j: int| 0 <= j < i ==> is_hex(#[trigger] digits@[j]),
        decreases len - i,
    {
        if !is_hex_char(digits.get_char(i)) {
            return Some(i);
        }
        i += 1;
    }
    None
}

/// Reads a trace in the given layout, or says why the string is no trace.
pub fn decode_trace(format: TraceFormat, digits: &str) -> (r: Result<Vec<(u16, u8)>, TraceError>)
    ensures
        match r {
            Ok(trace) => {
                &&& well_formed(digits@)
                &&& trace@ == format.trace_of(digits@)
                &&& format.admits_all(trace@)
            },
            Err(error) => !well_formed(digits@) && rejects(error, digits@),
        },
{
    let len = digits.unicode_len();
    if len % 4 != 0 {
        return Err(TraceError::BadLength { len });
    }
    if !digits.is_ascii() {
        match find_bad_digit(digits, len) {
            Some(index) => {
                return Err(TraceError::BadDigit { index });
            },
            None => {
                assert(is_ascii(digits));
            },
        }
    }
    let bytes = digits.as_bytes();
    proof {
        is_ascii_spec_bytes(digits);
    }
    let mut trace: Vec<(u16, u8)> = Vec::new();
    let mut k: usize = 0;
    while 4 * k < len
        invariant
            len == digits@.len(),
            len % 4 == 0,
            4 * k <= len,
            bytes@.len() == len,
            is_ascii(digits),
            forall|i: int| 0 <= i < len ==> bytes@[i] == (#[trigger] digits@[i]) as u8,
            forall|i: int| 0 <= i < 4 * k ==> is_hex(#[trigger] digits@[i]),
            trace@ == Seq::new(k as nat, |i: int| format.action_at(digits@, i)),
        decreases len - 4 * k,
    {
        let at = 4 * k;
        proof {
            assert(bytes@[at as int] as char == digits@[at as int]);
            assert(bytes@[at + 1] as char == digits@[at + 1]);
            assert(bytes@[at + 2] as char == digits@[at + 2]);
            assert(bytes@[at + 3] as char == digits@[at + 3]);
        }
        let first_high = match hex_value_of(bytes[at]) {
            Some(v) => v,
            None => {
                return Err(TraceError::BadDigit { index: at });
            },
        };
        let first_low = match hex_value_of(bytes[at + 1]) {
            Some(v) => v,
            None => {
                return Err(TraceError::BadDigit { index: at + 1 });
            },
        };
        let second_high = match hex_value_of(bytes[at + 2]) {
            Some(v) => v,
            None => {
                return Err(TraceError::BadDigit { index: at + 2 });
            },
        };
        let second_low = match hex_value_of(bytes[at + 3]) {
            Some(v) => v,
            None => {
                return Err(TraceError::BadDigit { index: at + 3 });
            },
        };
        let action = format.action_from(16 * first_high + first_low, 16 * second_high + second_low);
        trace.push(action);
        assert(trace@ =~= Seq::new((k + 1) as nat, |i: int| format.action_at(digits@, i)));
        k += 1;
    }
    proof {
        assert(trace@ =~= format.trace_of(digits@));
        lemma_trace_of_admitted(format, digits@);
    }
    Ok(trace)
}

/// Reads a trace in the canonical layout.
pub fn hex_string_to_vec(hex_string: &str) -> (trace: Vec<(u16, u8)>)
    requires
        well_formed(hex_string@),
    ensures
        trace@ == TraceFormat::TenBit.trace_of(hex_string@),
        TraceFormat::TenBit.admits_all(trace@),
{
    decode_trace(TraceFormat::TenBit, hex_string).unwrap()
}

} // verus!
