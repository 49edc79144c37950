use game_prove::codec::{hex_string_to_vec, vec_to_hex_string, TraceError};
use game_prove::engine::GameState;
use game_prove::model::GameStatus;
use game_prove::position::Vec2;
use game_prove::replay::{
    compare_records, game_prove, get_and_remove_first_equal_numbers, record_of, replay_trace,
    verify_record, GameIO, RecordField, ReplayError,
};

fn record(score: u8, win: bool, end_frame: u16, inputs: &str) -> GameIO {
    GameIO { score, win, end_frame, inputs: inputs.to_string() }
}

const TEN_MOVES_RIGHT: &str = "00010041008100C101010141018101C102010241";

#[test]
fn session_without_moves_or_shots_is_lost_with_no_points() {
    let mut state = GameState::new(Vec2::xy(60, 22));
    assert_eq!(state.aliens.len(), 20);
    let mut frame = 0;
    while state.status(frame) == GameStatus::Playing {
        state.update(frame);
        frame += 1;
    }
    assert_eq!(state.status(frame), GameStatus::Lost);
    assert_eq!(state.lives, 0);
    assert_eq!(state.score, 0);
    assert_eq!(state.aliens.len(), 20);
    assert_eq!(frame, 157);
    assert_eq!(record_of(&state, frame), record(0, false, 157, ""));
}

#[test]
fn formation_that_reaches_the_ship_ends_the_session() {
    let mut state = GameState::with_margin(Vec2::xy(20, 9), 5);
    let mut frame = 0;
    while state.status(frame) == GameStatus::Playing {
        state.update(frame);
        frame += 1;
    }
    assert_eq!(state.status(frame), GameStatus::Lost);
    assert_eq!(state.lives, 0);
    assert_eq!(state.score, 0);
    assert!(state.aliens.iter().any(|a| a.y == state.spaceship.y
        && (a.x - state.spaceship.x).abs() <= 1));
    assert_eq!(frame, 191);
}

#[test]
fn ship_that_runs_between_the_edges_without_firing_times_out() {
    let mut state = GameState::new(Vec2::xy(60, 22));
    let mut frame = 0;
    let mut direction = 1;
    let (mut left, mut right) = (0, 0);
    while state.status(frame) == GameStatus::Playing {
        if frame >= 8 {
            if state.spaceship.x == 60 {
                direction = 0;
                right += 1;
            }
            if state.spaceship.x == 0 {
                direction = 1;
                left += 1;
            }
            state.steer(frame, direction);
        }
        state.update(frame);
        frame += 1;
    }
    assert_eq!(frame, 1023);
    assert_eq!(state.status(frame), GameStatus::TimedOut);
    assert_eq!(state.score, 0);
    assert_eq!(state.aliens.len(), 20);
    assert_eq!((left, right), (8, 9));
    assert_eq!(state.user_input.len(), 1015);
    let record = record_of(&state, frame);
    assert_eq!(record.end_frame, 1023);
    assert_eq!(record.score, 0);
    assert_eq!(record.inputs.len(), 4 * 1015);
    assert_eq!(hex_string_to_vec(&record.inputs), state.user_input);
}

#[test]
fn replay_of_no_moves() {
    assert_eq!(game_prove(&String::new()), record(20, true, 1023, ""));
    assert_eq!(replay_trace(&Vec::new()), record(20, true, 1023, ""));
}

#[test]
fn replay_of_ten_moves_to_the_right() {
    let replayed = game_prove(&TEN_MOVES_RIGHT.to_string());
    assert_eq!(replayed, record(65, true, 1023, TEN_MOVES_RIGHT));
    let trace: Vec<(u16, u8)> = (0..10).map(|frame| (frame, 1)).collect();
    assert_eq!(replay_trace(&trace), replayed);
}

#[test]
fn replay_never_runs_past_frame_1023() {
    let traces: Vec<Vec<(u16, u8)>> = vec![
        Vec::new(),
        (0..1023).map(|frame| (frame, (frame % 2) as u8)).collect(),
        (0..1023).map(|frame| (frame, 0)).collect(),
        (0..1024).map(|frame| (frame, 1)).collect(),
        (0..200).map(|frame| (5 * frame, ((frame / 30) % 2) as u8)).collect(),
    ];
    for trace in traces {
        let replayed = replay_trace(&trace);
        assert!(replayed.end_frame <= 1023);
        assert_eq!(replayed.score % 5, 0);
        assert!(replayed.score <= 100);
        assert_eq!(game_prove(&vec_to_hex_string(trace)), replayed);
    }
}

#[test]
fn replay_makes_one_move_a_frame_in_the_order_of_the_trace() {
    // the second move on frame 3 never comes due, and blocks what follows
    let replayed = replay_trace(&vec![(3, 1), (3, 0), (4, 1)]);
    assert_eq!(replayed.inputs, vec_to_hex_string(vec![(3, 1)]));
    // a move on an earlier frame never comes due
    let replayed = replay_trace(&vec![(5, 1), (2, 0), (9, 1)]);
    assert_eq!(replayed.inputs, vec_to_hex_string(vec![(5, 1)]));
    // a move on frame 1023 is never made
    let replayed = replay_trace(&vec![(1022, 1), (1023, 0)]);
    assert_eq!(replayed.inputs, vec_to_hex_string(vec![(1022, 1)]));
}

#[test]
fn genuine_record_is_accepted() {
    let claim = record(65, true, 1023, TEN_MOVES_RIGHT);
    assert_eq!(verify_record(&claim), Ok(claim.clone()));
    let empty = record(20, true, 1023, "");
    assert_eq!(verify_record(&empty), Ok(empty.clone()));
}

#[test]
fn score_that_is_off_by_five_is_reported() {
    let genuine = game_prove(&TEN_MOVES_RIGHT.to_string());
    for score in [genuine.score + 5, genuine.score - 5] {
        let claim = GameIO { score, ..genuine.clone() };
        assert_eq!(
            verify_record(&claim),
            Err(ReplayError::Mismatch { field: RecordField::Score, replayed: genuine.clone() })
        );
    }
}

#[test]
fn each_altered_field_is_reported() {
    let genuine = game_prove(&TEN_MOVES_RIGHT.to_string());
    let mismatch = |field| Err(ReplayError::Mismatch { field, replayed: genuine.clone() });
    let claim = GameIO { win: !genuine.win, ..genuine.clone() };
    assert_eq!(verify_record(&claim), mismatch(RecordField::Win));
    let claim = GameIO { end_frame: 1022, ..genuine.clone() };
    assert_eq!(verify_record(&claim), mismatch(RecordField::EndFrame));
    // the same moves in lower case replay to the same outcome
    let claim = GameIO { inputs: TEN_MOVES_RIGHT.to_lowercase(), ..genuine.clone() };
    assert_eq!(verify_record(&claim), mismatch(RecordField::Inputs));
    // so do the same moves with a stray bit set
    let claim = GameIO { inputs: TEN_MOVES_RIGHT.replacen("0001", "0003", 1), ..genuine.clone() };
    assert_eq!(verify_record(&claim), mismatch(RecordField::Inputs));
    // and the same moves followed by one that never comes due
    let claim = GameIO { inputs: format!("{}0001", TEN_MOVES_RIGHT), ..genuine.clone() };
    assert_eq!(verify_record(&claim), mismatch(RecordField::Inputs));
}

#[test]
fn first_altered_field_is_the_one_reported() {
    let genuine = game_prove(&TEN_MOVES_RIGHT.to_string());
    let claim = record(0, false, 7, "");
    let replayed = game_prove(&String::new());
    assert_eq!(
        verify_record(&claim),
        Err(ReplayError::Mismatch { field: RecordField::Score, replayed: replayed.clone() })
    );
    let claim = GameIO { win: false, end_frame: 7, ..genuine.clone() };
    assert_eq!(
        verify_record(&claim),
        Err(ReplayError::Mismatch { field: RecordField::Win, replayed: genuine.clone() })
    );
    assert_eq!(compare_records(&genuine, &genuine), None);
    assert_eq!(compare_records(&genuine, &replayed), Some(RecordField::Score));
    assert_eq!(
        compare_records(&record(1, true, 2, "ab"), &record(1, true, 2, "AB")),
        Some(RecordField::Inputs)
    );
    assert_eq!(
        compare_records(&record(1, true, 2, "ab"), &record(1, true, 3, "AB")),
        Some(RecordField::EndFrame)
    );
}

#[test]
fn altered_inputs_that_change_the_outcome_are_rejected() {
    let genuine = game_prove(&TEN_MOVES_RIGHT.to_string());
    let claim = GameIO { inputs: String::new(), ..genuine.clone() };
    assert_eq!(
        verify_record(&claim),
        Err(ReplayError::Mismatch {
            field: RecordField::Score,
            replayed: record(20, true, 1023, ""),
        })
    );
}

#[test]
fn malformed_inputs_are_refused_before_any_replay() {
    assert_eq!(
        verify_record(&record(0, false, 0, "014")),
        Err(ReplayError::Malformed(TraceError::BadLength { len: 3 }))
    );
    assert_eq!(
        verify_record(&record(65, true, 1023, "0141 141")),
        Err(ReplayError::Malformed(TraceError::BadDigit { index: 4 }))
    );
}

#[test]
fn leading_run_is_taken_from_the_front() {
    let mut input = vec![(3, 0), (3, 1), (3, 0), (4, 1), (3, 1)];
    assert_eq!(get_and_remove_first_equal_numbers(&mut input), vec![(3, 0), (3, 1), (3, 0)]);
    assert_eq!(input, vec![(4, 1), (3, 1)]);
    assert_eq!(get_and_remove_first_equal_numbers(&mut input), vec![(4, 1)]);
    assert_eq!(input, vec![(3, 1)]);
    assert_eq!(get_and_remove_first_equal_numbers(&mut input), vec![(3, 1)]);
    assert!(input.is_empty());
    assert_eq!(get_and_remove_first_equal_numbers(&mut input), Vec::new());
    assert!(input.is_empty());
}
