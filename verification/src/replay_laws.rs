//! What holds of every replay: it ends in time, it logs the moves it made,
//! its score counts its kills, and a record that was tampered with is rejected.

use crate::codec::well_formed;
use crate::model::{GameStatus, FORMATION_MARGIN, KILL_POINTS, LAST_FRAME};
use crate::replay::{
    first_difference, replay_start, replayed_record, steerable, Record, RecordField, Replay,
};
use crate::session_laws::{
    lemma_advance_keeps_invariant, lemma_fire_keeps_invariant, lemma_frame_scores_its_kills,
    lemma_fresh_is_distinct, lemma_fresh_is_well_formed, lemma_score_monotonic,
    lemma_steer_keeps_invariant,
};
use vstd::prelude::*;

verus! {

/// Two replays of the same trace end on the same frame with the same record.
pub proof fn lemma_same_trace_same_record(first: Seq<char>, second: Seq<char>)
    requires
        first == second,
    ensures
        replayed_record(first) == replayed_record(second),
{
}

/// A replay that meets the invariant of a session meets it one frame later.
pub proof fn lemma_replay_keeps_invariant(replay: Replay, trace: Seq<(u16, u8)>)
    requires
        replay.state.wf(),
        0 <= replay.frame < LAST_FRAME,
        0 <= replay.cursor,
        steerable(trace),
    ensures
        replay.step(trace).state.wf(),
{
    let steered = if replay.move_due(trace) {
        assert(trace[replay.cursor].1 < 2);
        lemma_steer_keeps_invariant(replay.state, replay.frame, trace[replay.cursor].1);
        replay.state.steer(replay.frame, trace[replay.cursor].1)
    } else {
        replay.state
    };
    lemma_fire_keeps_invariant(steered, replay.frame);
    lemma_advance_keeps_invariant(steered.fire(replay.frame), replay.frame);
}

/// In a replay, too, the score never falls from one frame to the next.
pub proof fn lemma_replay_score_monotonic(replay: Replay, trace: Seq<(u16, u8)>)
    requires
        0 <= replay.state.score <= u8::MAX,
    ensures
        replay.state.score <= replay.step(trace).state.score <= u8::MAX,
{
    let steered = if replay.move_due(trace) {
        replay.state.steer(replay.frame, trace[replay.cursor].1)
    } else {
        replay.state
    };
    lemma_score_monotonic(steered.fire(replay.frame), replay.frame);
}

/// Every replay ends, and on frame 1023 at the latest: at its end no enemy,
/// no life or no frame is left, and the score is at least what it was.
pub proof fn lemma_replay_ends(replay: Replay, trace: Seq<(u16, u8)>)
    requires
        0 <= replay.frame <= LAST_FRAME,
        0 <= replay.state.score <= u8::MAX,
    ensures
        replay.frame <= replay.finish(trace).frame <= LAST_FRAME,
        replay.finish(trace).state.status(replay.finish(trace).frame) != GameStatus::Playing,
        replay.state.score <= replay.finish(trace).state.score <= u8::MAX,
    decreases LAST_FRAME - replay.frame,
{
    if replay.state.status(replay.frame) == GameStatus::Playing {
        lemma_replay_score_monotonic(replay, trace);
        lemma_replay_ends(replay.step(trace), trace);
    }
}

/// The record of a replay holds the score and the end frame of the replay
/// as they are: neither is cut to fit its field.
pub proof fn lemma_record_is_exact(trace: Seq<(u16, u8)>)
    ensures
        replay_start().finish(trace).record().end_frame == replay_start().finish(trace).frame,
        replay_start().finish(trace).record().score == replay_start().finish(trace).state.score,
        replay_start().finish(trace).record().end_frame <= LAST_FRAME,
{
    lemma_replay_ends(replay_start(), trace);
}

/// A replay logs the moves that it made: the log grows by the moves of the
/// trace that came due, in the order of the trace.
pub proof fn lemma_replay_logs_moves(replay: Replay, trace: Seq<(u16, u8)>)
    requires
        0 <= replay.cursor <= trace.len(),
        0 <= replay.frame,
    ensures
        replay.cursor <= replay.finish(trace).cursor <= trace.len(),
        replay.finish(trace).state.user_input == replay.state.user_input + trace.subrange(
            replay.cursor,
            replay.finish(trace).cursor,
        ),
    decreases LAST_FRAME - replay.frame,
{
    if replay.state.status(replay.frame) == GameStatus::Playing {
        let next = replay.step(trace);
        lemma_replay_logs_moves(next, trace);
        let end = replay.finish(trace);
        if replay.move_due(trace) {
            assert(next.state.user_input == replay.state.user_input.push(trace[replay.cursor]));
            assert(replay.state.user_input.push(trace[replay.cursor]) + trace.subrange(
                next.cursor,
                end.cursor,
            ) =~= replay.state.user_input + trace.subrange(replay.cursor, end.cursor));
        }
    } else {
        assert(replay.state.user_input + trace.subrange(replay.cursor, replay.cursor)
            =~= replay.state.user_input);
    }
}

/// Whether a replay has scored five points for each enemy that is gone
/// from the formation of twenty, and can go on doing so.
pub open spec fn scores_its_kills(replay: Replay) -> bool {
    &&& replay.state.wf()
    &&& replay.state.aliens.no_duplicates()
    &&& replay.state.aliens.len() <= 20
    &&& replay.state.score == KILL_POINTS * (20 - replay.state.aliens.len())
    &&& 0 <= replay.frame <= LAST_FRAME
    &&& 0 <= replay.cursor
}

/// A replay that has scored five points for each enemy that is gone has
/// done so at its end, too.
pub proof fn lemma_replay_goes_on_scoring(replay: Replay, trace: Seq<(u16, u8)>)
    requires
        scores_its_kills(replay),
        steerable(trace),
    ensures
        scores_its_kills(replay.finish(trace)),
    decreases LAST_FRAME - replay.frame,
{
    if replay.state.status(replay.frame) == GameStatus::Playing {
        let steered = if replay.move_due(trace) {
            assert(trace[replay.cursor].1 < 2);
            lemma_steer_keeps_invariant(replay.state, replay.frame, trace[replay.cursor].1);
            replay.state.steer(replay.frame, trace[replay.cursor].1)
        } else {
            replay.state
        };
        lemma_fire_keeps_invariant(steered, replay.frame);
        let fired = steered.fire(replay.frame);
        lemma_advance_keeps_invariant(fired, replay.frame);
        lemma_frame_scores_its_kills(fired, replay.frame);
        lemma_replay_goes_on_scoring(replay.step(trace), trace);
    }
}

/// The score of every replay is five points for each enemy that the replay
/// destroyed of the twenty that it started with; so it is a multiple of
/// five, and 100 at most.
pub proof fn lemma_replay_scores_its_kills(trace: Seq<(u16, u8)>)
    requires
        steerable(trace),
    ensures
        replay_start().finish(trace).state.aliens.len() <= 20,
        replay_start().finish(trace).record().score == KILL_POINTS * (20 - replay_start().finish(
            trace,
        ).state.aliens.len()),
{
    let start = replay_start();
    lemma_fresh_is_well_formed(start.state.dimension, FORMATION_MARGIN as int);
    lemma_fresh_is_distinct(start.state.dimension, FORMATION_MARGIN as int);
    assert(start.state.aliens.len() == 20);
    lemma_replay_goes_on_scoring(start, trace);
}

/// Whether a record is what replaying its own inputs gives.
pub open spec fn genuine(record: Record) -> bool {
    well_formed(record.inputs) && record == replayed_record(record.inputs)
}

/// A genuine record with another score is rejected for its score.
pub proof fn lemma_altered_score_is_reported(record: Record, score: u8)
    requires
        genuine(record),
        score != record.score,
    ensures
        first_difference(
            Record { score, ..record },
            replayed_record((Record { score, ..record }).inputs),
        ) == Some(RecordField::Score),
{
}

/// A genuine record with the other win flag is rejected for its win flag.
pub proof fn lemma_altered_win_is_reported(record: Record)
    requires
        genuine(record),
    ensures
        first_difference(
            Record { win: !record.win, ..record },
            replayed_record((Record { win: !record.win, ..record }).inputs),
        ) == Some(RecordField::Win),
{
}

/// A genuine record with another end frame is rejected for its end frame.
pub proof fn lemma_altered_end_frame_is_reported(record: Record, end_frame: u16)
    requires
        genuine(record),
        end_frame != record.end_frame,
    ensures
        first_difference(
            Record { end_frame, ..record },
            replayed_record((Record { end_frame, ..record }).inputs),
        ) == Some(RecordField::EndFrame),
{
}

/// A genuine record with other inputs is rejected, unless the record with
/// those inputs is genuine itself. It is rejected for its inputs where the
/// replay of the new inputs gives the old score, win flag and end frame.
pub proof fn lemma_altered_inputs_are_reported(record: Record, inputs: Seq<char>)
    requires
        genuine(record),
        well_formed(inputs),
        !genuine(Record { inputs, ..record }),
    ensures
        first_difference(Record { inputs, ..record }, replayed_record(inputs)) is Some,
        ({
            &&& replayed_record(inputs).score == record.score
            &&& replayed_record(inputs).win == record.win
            &&& replayed_record(inputs).end_frame == record.end_frame
        }) ==> first_difference(Record { inputs, ..record }, replayed_record(inputs)) == Some(
            RecordField::Inputs,
        ),
{
}

} // verus!
