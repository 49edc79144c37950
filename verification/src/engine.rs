//! The simulation engine: one game state, advanced one frame at a time.

use crate::model::{
    above_row, at_edge, clear_of, first_odd, formation_row, fresh_formation, gunners, has_room,
    is_gunner, is_leftmost, is_rightmost, loggable, odd_count, resolve_shots, shift_by,
    shifted, touching, valid_arena, GameModel, GameStatus, COLLISION_DAMAGE, ENEMY_SHOT_PERIOD,
    FORMATION_MARGIN, FORMATION_PERIOD, KILL_POINTS, LAST_FRAME, SHIP_COOLDOWN, VOLLEY_PERIOD,
};
use crate::position::Vec2;
use crate::sequences::{
    lemma_contains_next, lemma_filter_keeps, lemma_filter_next, lemma_filter_unchanged,
    lemma_map_next, other_than,
};
use crate::session_laws::{lemma_losses_only, lemma_score_monotonic};
use vstd::prelude::*;

verus! {

/// The authoritative state of one session.
#[derive(Debug, PartialEq, Eq)]
pub struct GameState {
    pub dimension: Vec2,
    pub spaceship: Vec2,
    pub spaceship_shots: Vec<Vec2>,
    pub last_shot_frame: usize,
    pub aliens: Vec<Vec2>,
    pub aliens_shots: Vec<Vec2>,
    /// Horizontal direction of the formation, and whether it has just descended.
    pub aliens_movement: (i32, bool),
    pub last_aliens_movement: usize,
    pub last_aliens_shots: usize,
    pub lives: usize,
    pub score: u8,
    pub user_input: Vec<(u16, u8)>,
}

impl View for GameState {
    type V = GameModel;

    open spec fn view(&self) -> GameModel {
        GameModel {
            dimension: self.dimension,
            spaceship: self.spaceship,
            spaceship_shots: self.spaceship_shots@,
            last_shot_frame: self.last_shot_frame as int,
            aliens: self.aliens@,
            aliens_shots: self.aliens_shots@,
            direction: self.aliens_movement.0 as int,
            just_descended: self.aliens_movement.1,
            last_aliens_movement: self.last_aliens_movement as int,
            last_aliens_shots: self.last_aliens_shots as int,
            lives: self.lives as int,
            score: self.score as int,
            user_input: self.user_input@,
        }
    }
}

impl GameState {
    /// A fresh session on a field of the given size, with the usual margin of
    /// 25 columns on both sides of the formation.
    pub fn new(dimension: Vec2) -> (state: GameState)
        requires
            valid_arena(dimension),
        ensures
            state@ == GameModel::fresh(dimension, FORMATION_MARGIN as int),
            state@.wf(),
    {
        GameState::with_margin(dimension, FORMATION_MARGIN)
    }

    /// A fresh session whose formation keeps `margin` columns free on both sides.
    pub fn with_margin(dimension: Vec2, margin: i32) -> (state: GameState)
        requires
            valid_arena(dimension),
            0 <= margin,
        ensures
            state@ == GameModel::fresh(dimension, margin as int),
            state@.wf(),
    {
        let mut aliens: Vec<Vec2> = Vec::new();
        let end: i32 = dimension.x - margin;
        let ghost width = dimension.x as int;
        let ghost m = margin as int;
        let mut y: i32 = 3;
        while y < 7
            invariant
                3 <= y <= 7,
                end == dimension.x - margin,
                0 <= margin,
                valid_arena(dimension),
                width == dimension.x,
                m == margin,
                aliens@ == formation_above(width, m, y as int),
            decreases 7 - y,
        {
            let ghost above = aliens@;
            let mut x: i32 = margin;
            while x < end
                invariant
                    3 <= y < 7,
                    margin <= x,
                    x <= end || x == margin,
                    end == dimension.x - margin,
                    0 <= margin,
                    valid_arena(dimension),
                    width == dimension.x,
                    m == margin,
                    aliens@ == above + Seq::new(
                        odd_count(m, x as int) as nat,
                        |k: int| Vec2 { x: (first_odd(m) + 2 * k) as i32, y: y },
                    ),
                decreases end - x,
            {
                if x % 2 != 0 {
                    aliens.push(Vec2::xy(x, y));
                }
                x += 1;
                assert(aliens@ =~= above + Seq::new(
                    odd_count(m, x as int) as nat,
                    |k: int| Vec2 { x: (first_odd(m) + 2 * k) as i32, y: y },
                ));
            }
            proof {
                assert(odd_count(m, x as int) == odd_count(m, width - m));
                assert(aliens@ =~= above + formation_row(width, m, y as int));
            }
            y += 1;
        }
        proof {
            reveal_with_fuel(formation_above, 5);
            assert(aliens@ =~= fresh_formation(width, m));
        }
        GameState {
            dimension,
            spaceship: Vec2::xy(dimension.x / 2, dimension.y - 2),
            spaceship_shots: Vec::new(),
            last_shot_frame: 0,
            aliens,
            aliens_shots: Vec::new(),
            aliens_movement: (1, false),
            last_aliens_movement: 0,
            last_aliens_shots: 0,
            lives: 1,
            score: 0,
            user_input: Vec::new(),
        }
    }

    /// Where the session stands before frame `frame` is played.
    pub fn status(&self, frame: usize) -> (status: GameStatus)
        ensures
            status == self@.status(frame as int),
    {
        if self.aliens.len() == 0 {
            GameStatus::Won
        } else if self.lives == 0 {
            GameStatus::Lost
        } else if frame >= LAST_FRAME {
            GameStatus::TimedOut
        } else {
            GameStatus::Playing
        }
    }

    /// Moves the ship by one column, unless it stands on the edge that it would leave by.
    pub fn spaceship_move_x(&mut self, displacement: i32)
        requires
            old(self)@.wf(),
            displacement == 1 || displacement == -1,
        ensures
            final(self)@ == old(self)@.move_ship(displacement as int),
            final(self)@.wf(),
    {
        if displacement < 0 && self.spaceship.x != 0 || displacement > 0 && self.spaceship.x
            != self.dimension.x {
            self.spaceship = Vec2::xy(self.spaceship.x + displacement, self.spaceship.y);
        }
    }

    /// Fires from the ship's square, if fifteen whole frames have passed since the last shot.
    pub fn spaceship_shot(&mut self, shot_frame: usize)
        requires
            old(self)@.wf(),
            shot_frame <= LAST_FRAME,
        ensures
            final(self)@ == old(self)@.fire(shot_frame as int),
            final(self)@.wf(),
    {
        let ghost before = self@;
        if self.last_shot_frame + SHIP_COOLDOWN < shot_frame {
            self.spaceship_shots.push(self.spaceship);
            self.last_shot_frame = shot_frame;
            proof {
                assert forall|i: int| 0 <= i < self.spaceship_shots@.len() implies (
                #[trigger] self.spaceship_shots@[i]).y >= 1 by {
                    if i < before.spaceship_shots.len() {
                        assert(self.spaceship_shots@[i] == before.spaceship_shots[i]);
                    }
                }
            }
        }
    }

    /// Makes the player's move on `frame`, to the left (0) or to the right
    /// (1), and logs it.
    pub fn steer(&mut self, frame: usize, direction: u8)
        requires
            old(self)@.wf(),
            frame <= LAST_FRAME,
            direction < 2,
        ensures
            final(self)@ == old(self)@.steer(frame as int, direction),
            final(self)@.wf(),
    {
        let ghost before = self@;
        if direction == 0 {
            self.spaceship_move_x(-1);
        } else {
            self.spaceship_move_x(1);
        }
        self.user_input.push((frame as u16, direction));
        proof {
            assert forall|i: int| 0 <= i < self.user_input@.len() implies loggable(
                #[trigger] self.user_input@[i],
            ) by {
                if i < before.user_input.len() {
                    assert(self.user_input@[i] == before.user_input[i]);
                }
            }
        }
    }

    /// Advances the session by one frame.
    pub fn update(&mut self, frame: usize)
        requires
            old(self)@.wf(),
            frame <= LAST_FRAME,
        ensures
            final(self)@ == old(self)@.advance(frame as int),
            final(self)@.wf(),
            final(self).score >= old(self).score,
            final(self).lives <= old(self).lives,
            final(self).aliens@.len() <= old(self).aliens@.len(),
    {
        proof {
            lemma_score_monotonic(self@, frame as int);
            lemma_losses_only(self@, frame as int);
        }
        self.resolve_ship_shots();
        self.enemy_fire(frame);
        self.take_damage();
        self.move_formation(frame);
    }

    /// Plays frame `frame` of a live session, unless the session is over or
    /// the player quits. Says whether the frame was played.
    pub fn play_frame(&mut self, frame: usize, quit: bool, moves: &Vec<u8>) -> (played: bool)
        requires
            old(self)@.wf(),
            forall|i: int| 0 <= i < moves@.len() ==> #[trigger] moves@[i] < 2,
        ensures
            played == (!quit && old(self)@.status(frame as int) == GameStatus::Playing),
            final(self)@ == if played {
                old(self)@.play(frame as int, moves@)
            } else {
                old(self)@
            },
            final(self)@.wf(),
    {
        if quit || self.status(frame) != GameStatus::Playing {
            return false;
        }
        let mut i: usize = 0;
        while i < moves.len()
            invariant
                i <= moves.len(),
                frame < LAST_FRAME,
                forall|j: int| 0 <= j < moves@.len() ==> #[trigger] moves@[j] < 2,
                self@.wf(),
                self@ == old(self)@.steer_all(frame as int, moves@.take(i as int)),
            decreases moves.len() - i,
        {
            proof {
                assert(moves@.take(i + 1).drop_last() == moves@.take(i as int));
            }
            self.steer(frame, moves[i]);
            i += 1;
        }
        proof {
            assert(moves@.take(i as int) == moves@);
        }
        self.spaceship_shot(frame);
        self.update(frame);
        true
    }

    /// Lets the player's shots meet the formation and scores the kills.
    fn resolve_ship_shots(&mut self)
        requires
            old(self)@.wf(),
        ensures
            final(self)@ == old(self)@.after_ship_shots(),
            final(self)@.wf(),
    {
        let ghost before = self@;
        let mut flying: Vec<Vec2> = Vec::new();
        let mut hits: usize = 0;
        let mut i: usize = 0;
        while i < self.spaceship_shots.len()
            invariant
                i <= self.spaceship_shots.len(),
                hits <= i,
                before.wf(),
                self@ == (GameModel { aliens: self.aliens@, ..before }),
                resolve_shots(before.spaceship_shots.take(i as int), before.aliens).aliens
                    == self.aliens@,
                resolve_shots(before.spaceship_shots.take(i as int), before.aliens).hits == hits,
                resolve_shots(
                    before.spaceship_shots.take(i as int),
                    before.aliens,
                ).shots.map_values(shift_by(0, -1)) == flying@,
                forall|j: int| 0 <= j < flying@.len() ==> (#[trigger] flying@[j]).y >= 1,
                forall|j: int|
                    0 <= j < self.aliens@.len() ==> has_room(
                        #[trigger] self.aliens@[j],
                        before.moves_left(),
                    ),
            decreases self.spaceship_shots.len() - i,
        {
            let shot = self.spaceship_shots[i];
            let ghost prefix = before.spaceship_shots.take(i as int);
            let ghost earlier = resolve_shots(prefix, before.aliens);
            proof {
                let next = before.spaceship_shots.take(i + 1);
                assert(next.drop_last() == prefix);
                assert(next.last() == shot);
                assert(before.spaceship_shots[i as int].y >= 1);
            }
            if shot.y != 1 {
                let ghost fleet = self.aliens@;
                let destroyed = remove_matching(&mut self.aliens, shot);
                if destroyed {
                    hits += 1;
                    proof {
                        assert forall|j: int| 0 <= j < self.aliens@.len() implies has_room(
                            #[trigger] self.aliens@[j],
                            before.moves_left(),
                        ) by {
                            lemma_filter_keeps(fleet, other_than(shot), j);
                        }
                    }
                } else {
                    proof {
                        fleet.lemma_filter_len(other_than(shot));
                        lemma_filter_unchanged(fleet, shot);
                        assert(earlier.shots.push(shot).map_values(shift_by(0, -1))
                            == earlier.shots.map_values(shift_by(0, -1)).push(
                            shifted(shot, 0, -1),
                        ));
                    }
                    flying.push(Vec2::xy(shot.x, shot.y - 1));
                }
            }
            i += 1;
        }
        proof {
            assert(before.spaceship_shots.take(i as int) == before.spaceship_shots);
        }
        self.spaceship_shots = flying;
        self.score = if hits > 51 {
            u8::MAX
        } else {
            let gained: u8 = (hits as u8) * KILL_POINTS;
            if gained > u8::MAX - self.score {
                u8::MAX
            } else {
                self.score + gained
            }
        };
    }

    /// Lets the gunners fire and the enemy shots fall, when a step is due.
    fn enemy_fire(&mut self, frame: usize)
        requires
            old(self)@.wf(),
            frame <= LAST_FRAME,
        ensures
            final(self)@ == old(self)@.after_enemy_fire(frame as int),
            final(self)@.wf(),
    {
        if self.last_aliens_shots + ENEMY_SHOT_PERIOD < frame {
            let ghost before = self@;
            self.last_aliens_shots = frame;
            if frame % VOLLEY_PERIOD == 0 {
                let mut i: usize = 0;
                while i < self.aliens.len()
                    invariant
                        i <= self.aliens.len(),
                        self@ == (GameModel {
                            last_aliens_shots: frame as int,
                            aliens_shots: self.aliens_shots@,
                            ..before
                        }),
                        self.aliens_shots@ == before.aliens_shots + before.aliens.take(
                            i as int,
                        ).filter(gunners()),
                    decreases self.aliens.len() - i,
                {
                    let a = self.aliens[i];
                    proof {
                        lemma_filter_next(before.aliens, i as int, gunners());
                    }
                    if gunner_at(a) {
                        self.aliens_shots.push(a);
                    }
                    i += 1;
                }
                proof {
                    assert(before.aliens.take(i as int) == before.aliens);
                }
            }
            let ghost fired = self.aliens_shots@;
            assert(fired == before.with_volley(frame as int));
            let bottom = self.dimension.y;
            let mut falling: Vec<Vec2> = Vec::new();
            let mut j: usize = 0;
            while j < self.aliens_shots.len()
                invariant
                    j <= self.aliens_shots.len(),
                    self.aliens_shots@ == fired,
                    bottom == self.dimension.y,
                    falling@ == fired.take(j as int).filter(above_row(bottom as int)).map_values(
                        shift_by(0, 1),
                    ),
                decreases self.aliens_shots.len() - j,
            {
                let shot = self.aliens_shots[j];
                proof {
                    lemma_filter_next(fired, j as int, above_row(bottom as int));
                }
                if shot.y < bottom {
                    proof {
                        let low = fired.take(j as int).filter(above_row(bottom as int));
                        assert(low.push(shot).map_values(shift_by(0, 1)) == low.map_values(
                            shift_by(0, 1),
                        ).push(shifted(shot, 0, 1)));
                    }
                    falling.push(Vec2::xy(shot.x, shot.y + 1));
                }
                j += 1;
            }
            proof {
                assert(fired.take(j as int) == fired);
            }
            self.aliens_shots = falling;
        }
    }

    /// Spends the enemy shots that reach the ship and takes the damage from the lives.
    fn take_damage(&mut self)
        requires
            old(self)@.wf(),
        ensures
            final(self)@ == old(self)@.after_damage(),
            final(self)@.wf(),
    {
        let ghost before = self@;
        let ship = self.spaceship;
        let mut damage: usize = 0;
        let mut missed: Vec<Vec2> = Vec::new();
        let mut i: usize = 0;
        while i < self.aliens_shots.len()
            invariant
                i <= self.aliens_shots.len(),
                self@ == before,
                ship == before.spaceship,
                damage == before.aliens_shots.take(i as int).filter(touching(ship)).len(),
                damage <= i,
                missed@ == before.aliens_shots.take(i as int).filter(clear_of(ship)),
            decreases self.aliens_shots.len() - i,
        {
            let shot = self.aliens_shots[i];
            proof {
                lemma_filter_next(before.aliens_shots, i as int, touching(ship));
                lemma_filter_next(before.aliens_shots, i as int, clear_of(ship));
            }
            if ship.is_touching(&shot) {
                damage += 1;
            } else {
                missed.push(shot);
            }
            i += 1;
        }
        proof {
            assert(before.aliens_shots.take(i as int) == before.aliens_shots);
        }
        let mut k: usize = 0;
        let mut collided = false;
        while k < self.aliens.len()
            invariant
                k <= self.aliens.len(),
                self@ == before,
                ship == before.spaceship,
                collided == exists|j: int| 0 <= j < k && ship.touches(#[trigger] before.aliens[j]),
            decreases self.aliens.len() - k,
        {
            let reached = ship.is_touching(&self.aliens[k]);
            proof {
                let found = exists|j: int| 0 <= j < k && ship.touches(#[trigger] before.aliens[j]);
                if reached {
                    assert(ship.touches(before.aliens[k as int]));
                } else if found {
                    let j = choose|j: int| 0 <= j < k && ship.touches(#[trigger] before.aliens[j]);
                    assert(ship.touches(before.aliens[j]));
                }
            }
            if reached {
                collided = true;
            }
            k += 1;
        }
        if collided {
            damage = COLLISION_DAMAGE;
        }
        self.aliens_shots = missed;
        self.lives = if damage >= self.lives {
            0
        } else {
            self.lives - damage
        };
    }

    /// Moves the formation when a move is due.
    fn move_formation(&mut self, frame: usize)
        requires
            old(self)@.wf(),
            frame <= LAST_FRAME,
        ensures
            final(self)@ == old(self)@.after_formation(frame as int),
            final(self)@.wf(),
    {
        if self.aliens.len() > 0 && self.last_aliens_movement + FORMATION_PERIOD < frame {
            let ghost before = self@;
            let mut left: i32 = self.aliens[0].x;
            let mut right: i32 = self.aliens[0].x;
            let mut i: usize = 1;
            proof {
                assert(before.aliens.take(1)[0].x == left);
            }
            while i < self.aliens.len()
                invariant
                    1 <= i <= self.aliens.len(),
                    self@ == before,
                    is_leftmost(before.aliens.take(i as int), left as int),
                    is_rightmost(before.aliens.take(i as int), right as int),
                decreases self.aliens.len() - i,
            {
                let x = self.aliens[i].x;
                proof {
                    let seen = before.aliens.take(i as int);
                    let next = before.aliens.take(i + 1);
                    let l = choose|j: int| 0 <= j < seen.len() && #[trigger] seen[j].x == left;
                    let r = choose|j: int| 0 <= j < seen.len() && #[trigger] seen[j].x == right;
                    assert(next[l].x == left);
                    assert(next[r].x == right);
                    assert(next[i as int].x == x);
                    assert forall|j: int| 0 <= j < next.len() implies (#[trigger] next[j]).x >= (
                    if x < left {
                        x
                    } else {
                        left
                    }) && next[j].x <= (if x > right {
                        x
                    } else {
                        right
                    }) by {
                        if j < i {
                            assert(seen[j] == next[j]);
                        }
                    }
                }
                if x < left {
                    left = x;
                }
                if x > right {
                    right = x;
                }
                i += 1;
            }
            proof {
                assert(before.aliens.take(i as int) == before.aliens);
                lemma_edge_unique(before.aliens, left as int, right as int, before.dimension.x as int);
                assert forall|j: int| 0 <= j < before.aliens.len() implies has_room(
                    #[trigger] before.aliens[j],
                    1,
                ) by {
                    assert(has_room(before.aliens[j], before.moves_left()));
                }
            }
            self.last_aliens_movement = frame;
            let ghost dx: int;
            let ghost dy: int;
            if left == 0 || right == self.dimension.x {
                if self.aliens_movement.1 {
                    let turned: i32 = -self.aliens_movement.0;
                    self.aliens_movement = (turned, false);
                    shift_all(&mut self.aliens, turned, 0);
                    proof {
                        dx = turned as int;
                        dy = 0;
                    }
                } else {
                    self.aliens_movement = (self.aliens_movement.0, true);
                    shift_all(&mut self.aliens, 0, 1);
                    proof {
                        dx = 0;
                        dy = 1;
                    }
                }
            } else {
                let step: i32 = self.aliens_movement.0;
                shift_all(&mut self.aliens, step, 0);
                proof {
                    dx = step as int;
                    dy = 0;
                }
            }
            proof {
                assert(self.aliens@ == before.aliens.map_values(shift_by(dx, dy)));
                assert(self@.moves_left() < before.moves_left());
                assert forall|j: int| 0 <= j < self.aliens@.len() implies has_room(
                    #[trigger] self.aliens@[j],
                    self@.moves_left(),
                ) by {
                    assert(has_room(before.aliens[j], before.moves_left()));
                    assert(self.aliens@[j] == shifted(before.aliens[j], dx, dy));
                }
                assert(self@.spaceship_shots == before.spaceship_shots);
                assert(self@.user_input == before.user_input);
            }
        }
    }
}

/// The rows of a fresh formation above row `y`.
pub open spec fn formation_above(width: int, margin: int, y: int) -> Seq<Vec2>
    decreases y,
{
    if y <= 3 {
        Seq::empty()
    } else {
        formation_above(width, margin, y - 1) + formation_row(width, margin, y - 1)
    }
}

/// Removes every enemy that stands on `target`, and says whether there was one.
fn remove_matching(aliens: &mut Vec<Vec2>, target: Vec2) -> (removed: bool)
    ensures
        final(aliens)@ == old(aliens)@.filter(other_than(target)),
        removed == old(aliens)@.contains(target),
{
    let mut rest: Vec<Vec2> = Vec::new();
    let mut removed = false;
    let mut i: usize = 0;
    while i < aliens.len()
        invariant
            i <= aliens.len(),
            aliens@ == old(aliens)@,
            rest@ == aliens@.take(i as int).filter(other_than(target)),
            removed == aliens@.take(i as int).contains(target),
        decreases aliens.len() - i,
    {
        let a = aliens[i];
        proof {
            lemma_filter_next(aliens@, i as int, other_than(target));
            lemma_contains_next(aliens@, i as int, target);
        }
        if a == target {
            removed = true;
        } else {
            rest.push(a);
        }
        i += 1;
    }
    proof {
        assert(aliens@.take(i as int) == aliens@);
    }
    *aliens = rest;
    removed
}

/// Moves every position by `dx` columns and `dy` rows.
fn shift_all(points: &mut Vec<Vec2>, dx: i32, dy: i32)
    requires
        -1 <= dx <= 1,
        -1 <= dy <= 1,
        forall|i: int| 0 <= i < old(points)@.len() ==> has_room(#[trigger] old(points)@[i], 1),
    ensures
        final(points)@ == old(points)@.map_values(shift_by(dx as int, dy as int)),
{
    let mut moved: Vec<Vec2> = Vec::new();
    let mut i: usize = 0;
    while i < points.len()
        invariant
            i <= points.len(),
            points@ == old(points)@,
            -1 <= dx <= 1,
            -1 <= dy <= 1,
            forall|j: int| 0 <= j < points@.len() ==> has_room(#[trigger] points@[j], 1),
            moved@ == points@.take(i as int).map_values(shift_by(dx as int, dy as int)),
        decreases points.len() - i,
    {
        let p = points[i];
        assert(has_room(points@[i as int], 1));
        moved.push(Vec2::xy(p.x + dx, p.y + dy));
        proof {
            lemma_map_next(points@, i as int, shift_by(dx as int, dy as int));
        }
        i += 1;
    }
    proof {
        assert(points@.take(i as int) == points@);
    }
    *points = moved;
}

/// Tests `is_gunner`.
fn gunner_at(a: Vec2) -> (b: bool)
    ensures
        b == is_gunner(a),
{
    let x: i64 = if a.x < 0 {
        -(a.x as i64)
    } else {
        a.x as i64
    };
    let y: i64 = if a.y < 0 {
        -(a.y as i64)
    } else {
        a.y as i64
    };
    assert((a.x % 6 == 0) == ((-a.x) % 6 == 0));
    assert((a.y % 4 == 0) == ((-a.y) % 4 == 0));
    x % 6 == 0 && y % 4 == 0
}

/// A formation has one leftmost and one rightmost column, so whether it is
/// at an edge can be read from them.
pub proof fn lemma_edge_unique(aliens: Seq<Vec2>, left: int, right: int, width: int)
    requires
        is_leftmost(aliens, left),
        is_rightmost(aliens, right),
    ensures
        at_edge(aliens, width) == (left == 0 || right == width),
{
    let l = choose|j: int| 0 <= j < aliens.len() && #[trigger] aliens[j].x == left;
    let r = choose|j: int| 0 <= j < aliens.len() && #[trigger] aliens[j].x == right;
    if is_leftmost(aliens, 0) {
        let z = choose|j: int| 0 <= j < aliens.len() && #[trigger] aliens[j].x == 0;
        assert(aliens[z].x >= left);
        assert(aliens[l].x >= 0);
    }
    if is_rightmost(aliens, width) {
        let z = choose|j: int| 0 <= j < aliens.len() && #[trigger] aliens[j].x == width;
        assert(aliens[z].x <= right);
        assert(aliens[r].x <= width);
    }
}

} // verus!
