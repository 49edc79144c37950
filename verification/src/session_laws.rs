//! What holds of every session: whatever is done to it, it stays well
//! formed, its score never falls, and nothing that was lost comes back.

use crate::model::{
    first_odd, formation_row, fresh_formation, has_room, loggable, odd_count, resolve_shots,
    score_after, shift_by, shifted, valid_arena, GameModel, KILL_POINTS, LAST_FRAME,
};
use crate::position::Vec2;
use crate::sequences::{lemma_filter_keeps, lemma_filter_unchanged, other_than};
use vstd::prelude::*;

verus! {

/// One thing that can be done to a session.
pub enum Action {
    /// The ship is asked to move by so many columns.
    Move { displacement: int },
    /// The ship is asked to fire on a frame.
    Fire { frame: int },
    /// The player's move on a frame is made and logged.
    Steer { frame: int, direction: u8 },
    /// The session advances by a frame.
    Advance { frame: int },
}

impl GameModel {
    /// The state after one action.
    pub open spec fn apply(self, action: Action) -> GameModel {
        match action {
            Action::Move { displacement } => self.move_ship(displacement),
            Action::Fire { frame } => self.fire(frame),
            Action::Steer { frame, direction } => self.steer(frame, direction),
            Action::Advance { frame } => self.advance(frame),
        }
    }

    /// The state after a run of actions, made in order.
    pub open spec fn apply_all(self, actions: Seq<Action>) -> GameModel
        decreases actions.len(),
    {
        if actions.len() == 0 {
            self
        } else {
            self.apply_all(actions.drop_last()).apply(actions.last())
        }
    }
}

impl Action {
    /// Whether the action is one of a session: on a frame of the session,
    /// by one column, to the left (0) or to the right (1).
    pub open spec fn allowed(self) -> bool {
        match self {
            Action::Move { displacement } => displacement == 1 || displacement == -1,
            Action::Fire { frame } => 0 <= frame <= LAST_FRAME,
            Action::Steer { frame, direction } => 0 <= frame <= LAST_FRAME && direction < 2,
            Action::Advance { frame } => 0 <= frame <= LAST_FRAME,
        }
    }
}

/// Two sessions that start in the same state and are given the same actions
/// in the same order end in the same state: same score, same lives, same
/// everything.
pub proof fn lemma_same_actions_same_state(
    first: GameModel,
    second: GameModel,
    actions: Seq<Action>,
)
    requires
        first == second,
    ensures
        first.apply_all(actions) == second.apply_all(actions),
        first.apply_all(actions).score == second.apply_all(actions).score,
        first.apply_all(actions).lives == second.apply_all(actions).lives,
{
}

/// A fresh session on a valid field meets the invariant of a session.
pub proof fn lemma_fresh_is_well_formed(dimension: Vec2, margin: int)
    requires
        valid_arena(dimension),
        0 <= margin,
    ensures
        GameModel::fresh(dimension, margin).wf(),
{
    let state = GameModel::fresh(dimension, margin);
    let width = dimension.x as int;
    let n = odd_count(margin, width - margin);
    let (first, second) = (formation_row(width, margin, 3), formation_row(width, margin, 4));
    let (third, fourth) = (formation_row(width, margin, 5), formation_row(width, margin, 6));
    assert forall|i: int| 0 <= i < state.aliens.len() implies has_room(
        #[trigger] state.aliens[i],
        state.moves_left(),
    ) by {
        let k = if i < n {
            i
        } else if i < 2 * n {
            i - n
        } else if i < 3 * n {
            i - 2 * n
        } else {
            i - 3 * n
        };
        assert(margin <= first_odd(margin) + 2 * k < width - margin);
        if i < n {
            assert(state.aliens[i] == first[k]);
        } else if i < 2 * n {
            assert(state.aliens[i] == second[k]);
        } else if i < 3 * n {
            assert(state.aliens[i] == third[k]);
        } else {
            assert(state.aliens[i] == fourth[k]);
        }
    }
}

/// Whatever the player's shots leave behind was there before: every shot
/// still in flight is one of the shots, and not on row 1, and every
/// surviving enemy is one of the enemies.
pub proof fn lemma_shots_leave_what_was(shots: Seq<Vec2>, aliens: Seq<Vec2>)
    ensures
        forall|i: int|
            0 <= i < resolve_shots(shots, aliens).shots.len() ==> {
                &&& shots.contains(#[trigger] resolve_shots(shots, aliens).shots[i])
                &&& resolve_shots(shots, aliens).shots[i].y != 1
            },
        forall|i: int|
            0 <= i < resolve_shots(shots, aliens).aliens.len() ==> aliens.contains(
                #[trigger] resolve_shots(shots, aliens).aliens[i],
            ),
    decreases shots.len(),
{
    let after = resolve_shots(shots, aliens);
    if shots.len() > 0 {
        let head = shots.drop_last();
        let shot = shots.last();
        let before = resolve_shots(head, aliens);
        lemma_shots_leave_what_was(head, aliens);
        assert forall|i: int| 0 <= i < after.shots.len() implies shots.contains(
            #[trigger] after.shots[i],
        ) && after.shots[i].y != 1 by {
            if i < before.shots.len() {
                assert(after.shots[i] == before.shots[i]);
                let j = choose|j: int| 0 <= j < head.len() && head[j] == before.shots[i];
                assert(shots[j] == before.shots[i]);
            } else {
                assert(after.shots[i] == shot);
                assert(shots[shots.len() - 1] == shot);
            }
        }
        assert forall|i: int| 0 <= i < after.aliens.len() implies aliens.contains(
            #[trigger] after.aliens[i],
        ) by {
            if shot.y != 1 && before.aliens.contains(shot) {
                lemma_filter_keeps(before.aliens, other_than(shot), i);
                let a = after.aliens[i];
                let j = choose|j: int| 0 <= j < before.aliens.len() && before.aliens[j] == a;
                assert(aliens.contains(before.aliens[j]));
            } else {
                assert(after.aliens[i] == before.aliens[i]);
            }
        }
    }
}

/// A frame keeps the invariant of a session.
pub proof fn lemma_advance_keeps_invariant(state: GameModel, frame: int)
    requires
        state.wf(),
        0 <= frame <= LAST_FRAME,
    ensures
        state.advance(frame).wf(),
{
    lemma_shots_leave_what_was(state.spaceship_shots, state.aliens);
    let outcome = resolve_shots(state.spaceship_shots, state.aliens);
    let shot = state.after_ship_shots();
    assert forall|i: int| 0 <= i < shot.spaceship_shots.len() implies (
    #[trigger] shot.spaceship_shots[i]).y >= 1 by {
        let s = outcome.shots[i];
        let j = choose|j: int| 0 <= j < state.spaceship_shots.len() && state.spaceship_shots[j] == s;
        assert(state.spaceship_shots[j].y >= 1);
        assert(shot.spaceship_shots[i] == shifted(s, 0, -1));
    }
    assert forall|i: int| 0 <= i < shot.aliens.len() implies has_room(
        #[trigger] shot.aliens[i],
        state.moves_left(),
    ) by {
        let a = outcome.aliens[i];
        let j = choose|j: int| 0 <= j < state.aliens.len() && state.aliens[j] == a;
        assert(has_room(state.aliens[j], state.moves_left()));
    }
    assert(shot.wf());
    let fired = shot.after_enemy_fire(frame);
    assert(fired.wf());
    let hurt = fired.after_damage();
    assert(hurt.damage() >= 0 && fired.damage() >= 0);
    assert(hurt.wf());
    let moved = hurt.after_formation(frame);
    if hurt.formation_due(frame) {
        assert(moved.moves_left() < hurt.moves_left());
        assert forall|i: int| 0 <= i < moved.aliens.len() implies has_room(
            #[trigger] moved.aliens[i],
            moved.moves_left(),
        ) by {
            assert(has_room(hurt.aliens[i], hurt.moves_left()));
        }
    }
    assert(moved.wf());
}

/// Firing keeps the invariant of a session.
pub proof fn lemma_fire_keeps_invariant(state: GameModel, frame: int)
    requires
        state.wf(),
        0 <= frame <= LAST_FRAME,
    ensures
        state.fire(frame).wf(),
{
    let fired = state.fire(frame);
    assert forall|i: int| 0 <= i < fired.spaceship_shots.len() implies (
    #[trigger] fired.spaceship_shots[i]).y >= 1 by {
        if i < state.spaceship_shots.len() {
            assert(fired.spaceship_shots[i] == state.spaceship_shots[i]);
        }
    }
}

/// A logged move keeps the invariant of a session.
pub proof fn lemma_steer_keeps_invariant(state: GameModel, frame: int, direction: u8)
    requires
        state.wf(),
        0 <= frame <= LAST_FRAME,
        direction < 2,
    ensures
        state.steer(frame, direction).wf(),
{
    let steered = state.steer(frame, direction);
    assert forall|i: int| 0 <= i < steered.user_input.len() implies loggable(
        #[trigger] steered.user_input[i],
    ) by {
        if i < state.user_input.len() {
            assert(steered.user_input[i] == state.user_input[i]);
        }
    }
}

/// Every allowed action keeps the invariant of a session.
pub proof fn lemma_action_keeps_invariant(state: GameModel, action: Action)
    requires
        state.wf(),
        action.allowed(),
    ensures
        state.apply(action).wf(),
{
    match action {
        Action::Move { displacement } => {},
        Action::Fire { frame } => {
            lemma_fire_keeps_invariant(state, frame);
        },
        Action::Steer { frame, direction } => {
            lemma_steer_keeps_invariant(state, frame, direction);
        },
        Action::Advance { frame } => {
            lemma_advance_keeps_invariant(state, frame);
        },
    }
}

/// A session that meets the invariant meets it after any run of allowed actions.
pub proof fn lemma_run_keeps_invariant(state: GameModel, actions: Seq<Action>)
    requires
        state.wf(),
        forall|i: int| 0 <= i < actions.len() ==> (#[trigger] actions[i]).allowed(),
    ensures
        state.apply_all(actions).wf(),
    decreases actions.len(),
{
    if actions.len() > 0 {
        let head = actions.drop_last();
        assert forall|i: int| 0 <= i < head.len() implies (#[trigger] head[i]).allowed() by {
            assert(head[i] == actions[i]);
        }
        lemma_run_keeps_invariant(state, head);
        assert(actions.last() == actions[actions.len() - 1]);
        lemma_action_keeps_invariant(state.apply_all(head), actions.last());
    }
}

/// The score never falls: a frame adds five points for each hit, up to 255,
/// and takes nothing away.
pub proof fn lemma_score_monotonic(state: GameModel, frame: int)
    requires
        0 <= state.score <= u8::MAX,
    ensures
        state.score <= state.advance(frame).score <= u8::MAX,
        state.advance(frame).score == score_after(
            state.score,
            resolve_shots(state.spaceship_shots, state.aliens).hits as int,
        ),
        state.advance(frame).score < u8::MAX ==> state.advance(frame).score == state.score
            + KILL_POINTS * resolve_shots(state.spaceship_shots, state.aliens).hits,
{
}

/// No action lowers the score.
pub proof fn lemma_action_keeps_score(state: GameModel, action: Action)
    requires
        0 <= state.score <= u8::MAX,
    ensures
        state.score <= state.apply(action).score <= u8::MAX,
{
    if let Action::Advance { frame } = action {
        lemma_score_monotonic(state, frame);
    }
}

/// Across any run the score is non-decreasing: after more of the run it is
/// at least what it was after less of it.
pub proof fn lemma_score_never_falls(state: GameModel, actions: Seq<Action>, earlier: int)
    requires
        0 <= state.score <= u8::MAX,
        0 <= earlier <= actions.len(),
    ensures
        state.score <= state.apply_all(actions.take(earlier)).score <= state.apply_all(
            actions,
        ).score <= u8::MAX,
    decreases actions.len(),
{
    if actions.len() == 0 {
        assert(actions.take(earlier) == actions);
    } else if earlier == actions.len() {
        assert(actions.take(earlier) == actions);
        lemma_score_never_falls(state, actions.drop_last(), 0);
        lemma_action_keeps_score(state.apply_all(actions.drop_last()), actions.last());
    } else {
        assert(actions.drop_last().take(earlier) == actions.take(earlier));
        lemma_score_never_falls(state, actions.drop_last(), earlier);
        lemma_action_keeps_score(state.apply_all(actions.drop_last()), actions.last());
    }
}

/// Removing the enemies on a square where one stands leaves fewer enemies.
pub proof fn lemma_removal_shrinks(aliens: Seq<Vec2>, target: Vec2)
    requires
        aliens.contains(target),
    ensures
        aliens.filter(other_than(target)).len() < aliens.len(),
    decreases aliens.len(),
{
    reveal(Seq::filter);
    let rest = aliens.drop_last();
    rest.lemma_filter_len(other_than(target));
    if aliens.last() != target {
        let i = choose|i: int| 0 <= i < aliens.len() && aliens[i] == target;
        assert(rest[i] == target);
        lemma_removal_shrinks(rest, target);
    }
}

/// The player's shots destroy at least one enemy for each hit, and never add one.
pub proof fn lemma_hits_destroy(shots: Seq<Vec2>, aliens: Seq<Vec2>)
    ensures
        resolve_shots(shots, aliens).aliens.len() + resolve_shots(shots, aliens).hits
            <= aliens.len(),
        resolve_shots(shots, aliens).shots.len() + resolve_shots(shots, aliens).hits
            <= shots.len(),
    decreases shots.len(),
{
    if shots.len() > 0 {
        lemma_hits_destroy(shots.drop_last(), aliens);
        let before = resolve_shots(shots.drop_last(), aliens);
        if shots.last().y != 1 && before.aliens.contains(shots.last()) {
            lemma_removal_shrinks(before.aliens, shots.last());
        }
    }
}

/// A frame never adds a life and never adds an enemy.
pub proof fn lemma_losses_only(state: GameModel, frame: int)
    requires
        0 <= state.lives,
    ensures
        0 <= state.advance(frame).lives <= state.lives,
        state.advance(frame).aliens.len() <= state.aliens.len(),
{
    lemma_hits_destroy(state.spaceship_shots, state.aliens);
    let shot = state.after_ship_shots();
    let fired = shot.after_enemy_fire(frame);
    assert(fired.damage() >= 0);
}

/// Where every enemy stands on a square of its own, removing those on one
/// square where one stands removes exactly one.
pub proof fn lemma_removal_takes_one(aliens: Seq<Vec2>, target: Vec2)
    requires
        aliens.no_duplicates(),
        aliens.contains(target),
    ensures
        aliens.filter(other_than(target)).len() == aliens.len() - 1,
    decreases aliens.len(),
{
    reveal(Seq::filter);
    let rest = aliens.drop_last();
    let last_at = aliens.len() - 1;
    if aliens.last() == target {
        assert forall|j: int| 0 <= j < rest.len() implies rest[j] != target by {
            assert(rest[j] == aliens[j]);
            assert(aliens[last_at] == target);
        }
        assert(!rest.contains(target));
        lemma_filter_unchanged(rest, target);
    } else {
        let i = choose|i: int| 0 <= i < aliens.len() && aliens[i] == target;
        assert(rest[i] == target);
        assert forall|j: int, k: int| 0 <= j < rest.len() && 0 <= k < rest.len() && j != k implies rest[j]
            != rest[k] by {
            assert(rest[j] == aliens[j] && rest[k] == aliens[k]);
        }
        lemma_removal_takes_one(rest, target);
    }
}

/// What is left of enemies that stand each on a square of its own stands
/// each on a square of its own.
pub proof fn lemma_filter_keeps_distinct(aliens: Seq<Vec2>, keep: spec_fn(Vec2) -> bool)
    requires
        aliens.no_duplicates(),
    ensures
        aliens.filter(keep).no_duplicates(),
    decreases aliens.len(),
{
    reveal(Seq::filter);
    if aliens.len() > 0 {
        let rest = aliens.drop_last();
        let last = aliens.last();
        assert forall|j: int, k: int| 0 <= j < rest.len() && 0 <= k < rest.len() && j != k implies rest[j]
            != rest[k] by {
            assert(rest[j] == aliens[j] && rest[k] == aliens[k]);
        }
        lemma_filter_keeps_distinct(rest, keep);
        let kept = rest.filter(keep);
        if keep(last) {
            assert forall|j: int| 0 <= j < kept.len() implies kept[j] != last by {
                lemma_filter_keeps(rest, keep, j);
                let k = choose|k: int| 0 <= k < rest.len() && rest[k] == kept[j];
                assert(aliens[k] == kept[j]);
                assert(aliens[aliens.len() - 1] == last);
            }
        }
    }
}

/// Where every enemy stands on a square of its own, each hit destroys
/// exactly one enemy, and the survivors stand each on a square of its own.
pub proof fn lemma_each_hit_takes_one(shots: Seq<Vec2>, aliens: Seq<Vec2>)
    requires
        aliens.no_duplicates(),
    ensures
        resolve_shots(shots, aliens).aliens.no_duplicates(),
        resolve_shots(shots, aliens).aliens.len() + resolve_shots(shots, aliens).hits
            == aliens.len(),
    decreases shots.len(),
{
    if shots.len() > 0 {
        lemma_each_hit_takes_one(shots.drop_last(), aliens);
        let before = resolve_shots(shots.drop_last(), aliens);
        if shots.last().y != 1 && before.aliens.contains(shots.last()) {
            lemma_removal_takes_one(before.aliens, shots.last());
            lemma_filter_keeps_distinct(before.aliens, other_than(shots.last()));
        }
    }
}

/// Enemies that stand each on a square of its own do so after a step of
/// the formation.
pub proof fn lemma_shift_keeps_distinct(aliens: Seq<Vec2>, dx: int, dy: int)
    requires
        aliens.no_duplicates(),
        -1 <= dx <= 1,
        -1 <= dy <= 1,
        forall|i: int| 0 <= i < aliens.len() ==> has_room(#[trigger] aliens[i], 1),
    ensures
        aliens.map_values(shift_by(dx, dy)).no_duplicates(),
{
    let moved = aliens.map_values(shift_by(dx, dy));
    assert forall|j: int, k: int| 0 <= j < moved.len() && 0 <= k < moved.len() && j != k implies moved[j]
        != moved[k] by {
        assert(has_room(aliens[j], 1) && has_room(aliens[k], 1));
        assert(aliens[j] != aliens[k]);
        assert(moved[j] == shifted(aliens[j], dx, dy));
        assert(moved[k] == shifted(aliens[k], dx, dy));
    }
}

/// In a fresh formation every enemy stands on a square of its own.
pub proof fn lemma_fresh_is_distinct(dimension: Vec2, margin: int)
    requires
        valid_arena(dimension),
        0 <= margin,
    ensures
        fresh_formation(dimension.x as int, margin).no_duplicates(),
{
    let width = dimension.x as int;
    let aliens = fresh_formation(width, margin);
    let n = odd_count(margin, width - margin);
    let (first, second) = (formation_row(width, margin, 3), formation_row(width, margin, 4));
    let (third, fourth) = (formation_row(width, margin, 5), formation_row(width, margin, 6));
    let row = |i: int|
        if i < n {
            0int
        } else if i < 2 * n {
            1int
        } else if i < 3 * n {
            2int
        } else {
            3int
        };
    assert forall|i: int| 0 <= i < aliens.len() implies (#[trigger] aliens[i]).x == first_odd(margin)
        + 2 * (i - row(i) * n) && aliens[i].y == 3 + row(i) by {
        let k = i - row(i) * n;
        assert(margin <= first_odd(margin) + 2 * k < width - margin);
        if i < n {
            assert(aliens[i] == first[k]);
        } else if i < 2 * n {
            assert(aliens[i] == second[k]);
        } else if i < 3 * n {
            assert(aliens[i] == third[k]);
        } else {
            assert(aliens[i] == fourth[k]);
        }
    }
    assert forall|i: int, j: int| 0 <= i < aliens.len() && 0 <= j < aliens.len() && i != j implies aliens[i]
        != aliens[j] by {
        if row(i) == row(j) {
            assert(aliens[i].x != aliens[j].x);
        } else {
            assert(aliens[i].y != aliens[j].y);
        }
    }
}

/// Where every enemy stands on a square of its own, a frame adds five
/// points, up to 255, for each enemy that it destroys, and leaves the
/// others each on a square of its own.
pub proof fn lemma_frame_scores_its_kills(state: GameModel, frame: int)
    requires
        state.wf(),
        0 <= frame <= LAST_FRAME,
        state.aliens.no_duplicates(),
    ensures
        state.advance(frame).aliens.no_duplicates(),
        state.advance(frame).aliens.len() <= state.aliens.len(),
        state.advance(frame).score == score_after(
            state.score,
            state.aliens.len() - state.advance(frame).aliens.len(),
        ),
{
    lemma_each_hit_takes_one(state.spaceship_shots, state.aliens);
    lemma_shots_leave_what_was(state.spaceship_shots, state.aliens);
    let outcome = resolve_shots(state.spaceship_shots, state.aliens);
    let hurt = state.after_ship_shots().after_enemy_fire(frame).after_damage();
    assert(hurt.aliens == outcome.aliens);
    if hurt.formation_due(frame) {
        assert(state.moves_left() >= 1);
        assert forall|i: int| 0 <= i < hurt.aliens.len() implies has_room(
            #[trigger] hurt.aliens[i],
            1,
        ) by {
            let a = outcome.aliens[i];
            let j = choose|j: int| 0 <= j < state.aliens.len() && state.aliens[j] == a;
            assert(has_room(state.aliens[j], state.moves_left()));
        }
        lemma_shift_keeps_distinct(hurt.aliens, hurt.direction, 0);
        lemma_shift_keeps_distinct(hurt.aliens, -hurt.direction, 0);
        lemma_shift_keeps_distinct(hurt.aliens, 0, 1);
    }
}

} // verus!
