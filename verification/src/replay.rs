//! Replaying a session from its trace, and checking a claimed record
//! against the replay.

use crate::codec::{
    decode_trace, encode_trace, lemma_trace_of_admitted, rejects, well_formed, TraceError,
    TraceFormat,
};
use crate::engine::GameState;
use crate::model::{loggable, GameModel, GameStatus, FORMATION_MARGIN, LAST_FRAME};
use crate::position::Vec2;
use vstd::prelude::*;
use vstd::string::*;

verus! {

/// Width of the field that every session is played on.
pub const ARENA_WIDTH: i32 = 60;

/// Height of the field that every session is played on.
pub const ARENA_HEIGHT: i32 = 22;

/// The outcome of a session together with its trace.
#[derive(Debug, Clone, PartialEq, Eq)]
pub struct GameIO {
    /// Five points for each destroyed enemy.
    pub score: u8,
    /// Whether the ship survived.
    pub win: bool,
    /// The frame on which the session ended, 1023 at most.
    pub end_frame: u16,
    /// The player's moves, as written by the trace codec.
    pub inputs: String,
}

/// The mathematical value of a `GameIO`.
pub struct Record {
    pub score: u8,
    pub win: bool,
    pub end_frame: u16,
    pub inputs: Seq<char>,
}

impl View for GameIO {
    type V = Record;

    open spec fn view(&self) -> Record {
        Record {
            score: self.score,
            win: self.win,
            end_frame: self.end_frame,
            inputs: self.inputs@,
        }
    }
}

/// A replay in progress.
pub struct Replay {
    /// The state before frame `frame` is played.
    pub state: GameModel,
    /// The frame that is played next.
    pub frame: int,
    /// How many moves of the trace were made.
    pub cursor: int,
}

impl Replay {
    /// Whether the next move of the trace is made on the frame that is played next.
    pub open spec fn move_due(self, trace: Seq<(u16, u8)>) -> bool {
        self.cursor < trace.len() && trace[self.cursor].0 == self.frame
    }

    /// The replay one frame later: the move that the trace holds for this
    /// frame is made and logged, the ship fires if it may, and the state
    /// advances.
    pub open spec fn step(self, trace: Seq<(u16, u8)>) -> Replay {
        let steered = if self.move_due(trace) {
            self.state.steer(self.frame, trace[self.cursor].1)
        } else {
            self.state
        };
        Replay {
            state: steered.fire(self.frame).advance(self.frame),
            frame: self.frame + 1,
            cursor: if self.move_due(trace) {
                self.cursor + 1
            } else {
                self.cursor
            },
        }
    }

    /// The replay at its end: played on until no enemy, no life or no frame is left.
    pub open spec fn finish(self, trace: Seq<(u16, u8)>) -> Replay
        decreases LAST_FRAME - self.frame,
    {
        if self.state.status(self.frame) == GameStatus::Playing {
            self.step(trace).finish(trace)
        } else {
            self
        }
    }

    /// The record of a replay that has ended.
    pub open spec fn record(self) -> Record {
        Record {
            score: self.state.score as u8,
            win: self.state.lives > 0,
            end_frame: self.frame as u16,
            inputs: TraceFormat::TenBit.trace_hex(self.state.user_input),
        }
    }
}

/// Whether every move of a trace can be made: each goes to the left (0) or
/// to the right (1).
pub open spec fn steerable(trace: Seq<(u16, u8)>) -> bool {
    forall|i: int| 0 <= i < trace.len() ==> (#[trigger] trace[i]).1 < 2
}

/// The start of every replay: a fresh session on the usual field.
pub open spec fn replay_start() -> Replay {
    Replay {
        state: GameModel::fresh(
            Vec2 { x: ARENA_WIDTH, y: ARENA_HEIGHT },
            FORMATION_MARGIN as int,
        ),
        frame: 0,
        cursor: 0,
    }
}

/// The record that replaying a well-formed trace gives.
pub open spec fn replayed_record(inputs: Seq<char>) -> Record {
    replay_start().finish(TraceFormat::TenBit.trace_of(inputs)).record()
}

/// Every move of a trace that was read from a string can be made.
pub proof fn lemma_trace_is_steerable(inputs: Seq<char>)
    requires
        well_formed(inputs),
    ensures
        steerable(TraceFormat::TenBit.trace_of(inputs)),
{
    lemma_trace_of_admitted(TraceFormat::TenBit, inputs);
    let trace = TraceFormat::TenBit.trace_of(inputs);
    assert forall|i: int| 0 <= i < trace.len() implies (#[trigger] trace[i]).1 < 2 by {
        assert(TraceFormat::TenBit.admits(trace[i]));
    }
}

/// A move that can stand in the log can be written in the canonical layout.
pub proof fn lemma_log_writable(log: Seq<(u16, u8)>)
    requires
        forall|i: int| 0 <= i < log.len() ==> loggable(#[trigger] log[i]),
    ensures
        TraceFormat::TenBit.admits_all(log),
{
    assert forall|i: int| 0 <= i < log.len() implies TraceFormat::TenBit.admits(
        #[trigger] log[i],
    ) by {
        assert(loggable(log[i]));
    }
}

/// The record of a session that ended before frame `end_frame` was played.
pub fn record_of(state: &GameState, end_frame: usize) -> (record: GameIO)
    requires
        state@.wf(),
        end_frame <= LAST_FRAME,
    ensures
        record@ == (Replay { state: state@, frame: end_frame as int, cursor: 0 }).record(),
{
    proof {
        lemma_log_writable(state@.user_input);
    }
    let inputs = encode_trace(TraceFormat::TenBit, &state.user_input).unwrap();
    GameIO { score: state.score, win: state.lives > 0, end_frame: end_frame as u16, inputs }
}

/// Replays a session from its moves and returns the record of the replay.
pub fn replay_trace(user_inputs: &Vec<(u16, u8)>) -> (record: GameIO)
    requires
        steerable(user_inputs@),
    ensures
        record@ == replay_start().finish(user_inputs@).record(),
        record.end_frame <= LAST_FRAME,
{
    let ghost trace = user_inputs@;
    let mut state = GameState::new(Vec2::xy(ARENA_WIDTH, ARENA_HEIGHT));
    let mut frame_count: usize = 0;
    let mut n_user_input: usize = 0;
    while state.status(frame_count) == GameStatus::Playing
        invariant
            frame_count <= LAST_FRAME,
            n_user_input <= user_inputs.len(),
            user_inputs@ == trace,
            steerable(trace),
            state@.wf(),
            replay_start().finish(trace) == (Replay {
                state: state@,
                frame: frame_count as int,
                cursor: n_user_input as int,
            }).finish(trace),
        decreases LAST_FRAME - frame_count,
    {
        let ghost now = Replay {
            state: state@,
            frame: frame_count as int,
            cursor: n_user_input as int,
        };
        if n_user_input < user_inputs.len() {
            let user_input = user_inputs[n_user_input];
            if user_input.0 == frame_count as u16 {
                assert(trace[n_user_input as int].1 < 2);
                state.steer(frame_count, user_input.1);
                n_user_input += 1;
            }
        }
        state.spaceship_shot(frame_count);
        state.update(frame_count);
        frame_count += 1;
        assert(now.step(trace) == (Replay {
            state: state@,
            frame: frame_count as int,
            cursor: n_user_input as int,
        }));
    }
    record_of(&state, frame_count)
}

/// Replays a session from its trace and returns the record of the replay.
pub fn game_prove(inputs_string: &String) -> (record: GameIO)
    requires
        well_formed(inputs_string@),
    ensures
        record@ == replayed_record(inputs_string@),
        record.end_frame <= LAST_FRAME,
{
    let user_inputs = decode_trace(TraceFormat::TenBit, inputs_string.as_str()).unwrap();
    proof {
        lemma_trace_is_steerable(inputs_string@);
    }
    replay_trace(&user_inputs)
}

/// A field of a record.
#[derive(Debug, Clone, Copy, PartialEq, Eq, Structural)]
pub enum RecordField {
    Score,
    Win,
    EndFrame,
    Inputs,
}

/// Why a claimed record was not accepted.
#[derive(Debug, Clone, PartialEq, Eq)]
pub enum ReplayError {
    /// The claimed inputs are no trace.
    Malformed(TraceError),
    /// The replay of the claimed inputs gave another record. `field` is the
    /// first field that differs, in the order score, win, end frame, inputs.
    Mismatch { field: RecordField, replayed: GameIO },
}

/// The first field in which two records differ, in the order score, win,
/// end frame, inputs.
pub open spec fn first_difference(claimed: Record, replayed: Record) -> Option<RecordField> {
    if claimed.score != replayed.score {
        Some(RecordField::Score)
    } else if claimed.win != replayed.win {
        Some(RecordField::Win)
    } else if claimed.end_frame != replayed.end_frame {
        Some(RecordField::EndFrame)
    } else if claimed.inputs != replayed.inputs {
        Some(RecordField::Inputs)
    } else {
        None
    }
}

/// Finds the first field in which a claimed record differs from a replayed one.
pub fn compare_records(claimed: &GameIO, replayed: &GameIO) -> (field: Option<RecordField>)
    ensures
        field == first_difference(claimed@, replayed@),
        field is None <==> claimed@ == replayed@,
{
    if claimed.score != replayed.score {
        Some(RecordField::Score)
    } else if claimed.win != replayed.win {
        Some(RecordField::Win)
    } else if claimed.end_frame != replayed.end_frame {
        Some(RecordField::EndFrame)
    } else if claimed.inputs != replayed.inputs {
        Some(RecordField::Inputs)
    } else {
        None
    }
}

/// Checks a claimed record: replays its inputs and accepts the claim only
/// if the replay gives the same record, field by field.
pub fn verify_record(claim: &GameIO) -> (r: Result<GameIO, ReplayError>)
    ensures
        match r {
            Ok(replayed) => {
                &&& well_formed(claim.inputs@)
                &&& replayed@ == replayed_record(claim.inputs@)
                &&& replayed@ == claim@
            },
            Err(ReplayError::Malformed(error)) => {
                &&& !well_formed(claim.inputs@)
                &&& rejects(error, claim.inputs@)
            },
            Err(ReplayError::Mismatch { field, replayed }) => {
                &&& well_formed(claim.inputs@)
                &&& replayed@ == replayed_record(claim.inputs@)
                &&& first_difference(claim@, replayed@) == Some(field)
            },
        },
{
    let user_inputs = match decode_trace(TraceFormat::TenBit, claim.inputs.as_str()) {
        Ok(trace) => trace,
        Err(error) => {
            return Err(ReplayError::Malformed(error));
        },
    };
    proof {
        lemma_trace_is_steerable(claim.inputs@);
    }
    let replayed = replay_trace(&user_inputs);
    match compare_records(claim, &replayed) {
        Some(field) => Err(ReplayError::Mismatch { field, replayed }),
        None => Ok(replayed),
    }
}

/// Whether the first `n` moves of `moves` are all those at its start that
/// were made on the frame of its first move.
pub open spec fn is_leading_run(moves: Seq<(u16, u8)>, n: int) -> bool {
    &&& 0 <= n <= moves.len()
    &&& forall|i: int| 0 <= i < n ==> (#[trigger] moves[i]).0 == moves[0].0
    &&& n < moves.len() ==> moves[n].0 != moves[0].0
}

/// Takes from the front of `input` the moves that were made on the frame of
/// its first move, and returns them in order.
pub fn get_and_remove_first_equal_numbers(input: &mut Vec<(u16, u8)>) -> (result: Vec<(u16, u8)>)
    ensures
        is_leading_run(old(input)@, result@.len() as int),
        result@ == old(input)@.take(result@.len() as int),
        final(input)@ == old(input)@.skip(result@.len() as int),
{
    let mut result: Vec<(u16, u8)> = Vec::new();
    if input.len() == 0 {
        return result;
    }
    let first_value = input[0].0;
    while input.len() > 0 && input[0].0 == first_value
        invariant
            old(input)@.len() > 0,
            first_value == old(input)@[0].0,
            result@.len() <= old(input)@.len(),
            result@ == old(input)@.take(result@.len() as int),
            input@ == old(input)@.skip(result@.len() as int),
            forall|i: int| 0 <= i < result@.len() ==> (#[trigger] old(input)@[i]).0 == first_value,
        decreases input.len(),
    {
        let ghost n = result@.len() as int;
        let action = input[0];
        assert(action == old(input)@[n]);
        result.push(action);
        input.remove(0);
        assert(result@ =~= old(input)@.take(n + 1));
        assert(input@ =~= old(input)@.skip(n + 1));
    }
    proof {
        let n = result@.len() as int;
        if n < old(input)@.len() {
            assert(input@[0] == old(input)@[n]);
        }
    }
    result
}

} // verus!
